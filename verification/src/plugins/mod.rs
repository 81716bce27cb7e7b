//! WASM skill/plugin system: the registry of loaded plugins, which exposes
//! every plugin as a tool for function calling, and the rules of the plugin
//! ABI. The sandbox itself is in [`guest`].
//!
//! # Plugin ABI
//!
//! A plugin is a standalone `*.wasm` module that exports:
//!
//! * `memory` — the linear memory backing the allocator.
//! * `alloc(size: i32) -> i32` — bump-allocate `size` bytes, return the ptr.
//! * `dealloc(ptr: i32, len: i32)` — free a prior allocation (may be a no-op).
//! * `manifest() -> i32` — return a pointer to the manifest, a
//!   **length-prefixed** string: `[len: u32 little-endian][manifest JSON]`.
//! * `execute(ptr: i32, len: i32) -> i32` — receive `len` bytes of input JSON
//!   at `ptr`, return a pointer to a **length-prefixed** result string
//!   (`[len: u32 LE][result JSON]`).
//!
//! The host writes input into plugin memory via `alloc`, calls `execute`, then
//! reads the length-prefixed result back out and `dealloc`s both buffers.

use vstd::prelude::*;

use crate::bytes::{copy_range, decode_strict, le, to_le, u32_le};
use crate::error::SkadooshError;
use crate::llm::message::{function_tool, tools, Tool, ToolView};
use crate::text::{decimal, decimal_string, str_eq};

pub mod guest;

pub use guest::{FaultView, Guest, GuestFault, GuestView, PluginEngine};

verus! {

/// Fuel budget granted to each plugin execution (wasmtime fuel units). Bounds
/// how much computation one call may do before it traps. Refreshed before
/// every call.
pub const DEFAULT_FUEL: u64 = 1_000_000;

/// Maximum linear memory a plugin may grow to (16 MiB); a `memory.grow` past
/// this returns -1.
pub const DEFAULT_MAX_MEMORY_BYTES: usize = 16_777_216;

/// Maximum table elements a plugin may grow to.
pub const DEFAULT_MAX_TABLE_ELEMENTS: usize = 1024;

/// Per-store resource limits enforced inside the sandbox.
#[derive(Debug, Clone, Copy, PartialEq, Eq, Structural)]
pub struct PluginLimits {
    /// The most bytes of linear memory.
    pub max_memory_bytes: usize,
    /// The most table elements.
    pub max_table_elements: usize,
}

impl PluginLimits {
    /// Whether memory may grow to `desired` bytes.
    pub fn memory_growing(&self, desired: usize) -> (r: bool)
        ensures
            r == (desired <= self.max_memory_bytes),
    {
        desired <= self.max_memory_bytes
    }

    /// Whether a table may grow to `desired` elements.
    pub fn table_growing(&self, desired: usize) -> (r: bool)
        ensures
            r == (desired <= self.max_table_elements),
    {
        desired <= self.max_table_elements
    }
}

/// Plugin metadata returned by the plugin's `manifest()` export.
///
/// `name` becomes the tool name the LLM invokes; `description` is shown to the
/// model; `version` is for logging only. An optional `parameters` JSON Schema
/// overrides the default permissive `{"type":"object"}` tool schema.
#[derive(Debug, Clone)]
pub struct PluginManifest {
    /// Tool name the LLM uses to invoke this plugin. Must be non-empty and
    /// unique across the loaded directory; duplicates are skipped at load
    /// time.
    pub name: String,
    /// Human-readable description shown to the LLM as the tool's purpose.
    pub description: String,
    /// Semantic version string (free-form, logged on load).
    pub version: String,
    /// Optional JSON Schema for the tool's parameters, as JSON text.
    pub parameters: Option<String>,
}

/// A [`PluginManifest`] by its texts.
#[verifier::ext_equal]
pub struct ManifestView {
    /// Tool name.
    pub name: Seq<char>,
    /// The tool's purpose.
    pub description: Seq<char>,
    /// Version.
    pub version: Seq<char>,
    /// Parameters schema.
    pub parameters: Option<Seq<char>>,
}

impl View for PluginManifest {
    type V = ManifestView;

    open spec fn view(&self) -> ManifestView {
        ManifestView {
            name: self.name@,
            description: self.description@,
            version: self.version@,
            parameters: crate::json::opt_str(self.parameters),
        }
    }
}

/// The tool definition of a plugin: the manifest `parameters` when present,
/// otherwise a permissive `{"type":"object"}`.
pub open spec fn plugin_tool(m: ManifestView) -> ToolView {
    function_tool(
        m.name,
        m.description,
        match m.parameters {
            Some(p) => p,
            None => "{\"type\":\"object\"}"@,
        },
    )
}

/// Builds the LLM [`Tool`] definition for one plugin from its manifest.
pub fn plugin_tool_definition(manifest: &PluginManifest) -> (r: Tool)
    ensures
        r@ == plugin_tool(manifest@),
{
    let parameters = match &manifest.parameters {
        Some(p) => p.clone(),
        None => "{\"type\":\"object\"}".to_owned(),
    };
    Tool::function(manifest.name.as_str(), manifest.description.as_str(), parameters)
}

// ---------------------------------------------------------------------------
// Memory
// ---------------------------------------------------------------------------

/// The length in the four bytes at `ptr`.
pub open spec fn length_at(memory: Seq<u8>, ptr: int) -> nat {
    le(memory.subrange(ptr, ptr + 4))
}

/// The string at a pointer: `[len: u32 LE][bytes]`.
pub open spec fn prefixed_in(memory: Seq<u8>, ptr: i32) -> Result<Seq<char>, Seq<char>> {
    if ptr < 0 {
        Err("plugin returned negative pointer"@)
    } else if ptr + 4 > memory.len() {
        Err("plugin result pointer out of bounds"@)
    } else {
        let len = length_at(memory, ptr as int);
        let body = memory.subrange(ptr + 4, ptr + 4 + len);
        if ptr + 4 + len > memory.len() {
            Err("plugin result length "@ + decimal(len) + " exceeds memory"@)
        } else if !vstd::utf8::valid_utf8(body) {
            Err("plugin returned non-utf8 result: "@ + crate::bytes::utf8_fault(body))
        } else {
            Ok(vstd::utf8::decode_utf8(body))
        }
    }
}

/// A result by its texts.
pub open spec fn outcome(r: Result<String, SkadooshError>) -> Result<Seq<char>, Seq<char>> {
    match r {
        Ok(s) => Ok(s@),
        Err(e) => Err(e.text()),
    }
}

fn fault(text: &str) -> (r: SkadooshError)
    ensures
        r.text() == text@,
{
    SkadooshError::Other(text.to_owned())
}

/// Reads a length-prefixed string (`[len: u32 LE][bytes]`) at `ptr` out of
/// plugin memory, bounds-checking both the prefix and the body against the
/// current memory size so a malformed pointer cannot trigger a huge
/// allocation.
pub fn read_prefixed(memory: &[u8], ptr: i32) -> (r: Result<String, SkadooshError>)
    ensures
        outcome(r) == prefixed_in(memory@, ptr),
{
    if ptr < 0 {
        return Err(fault("plugin returned negative pointer"));
    }
    let at: usize = ptr as usize;
    let size: usize = memory.len();
    if at > size || size - at < 4 {
        return Err(fault("plugin result pointer out of bounds"));
    }
    let len: u32 = match u32_le(memory, at) {
        Some(n) => n,
        None => {
            return Err(fault("plugin result pointer out of bounds"));
        },
    };
    if len as u64 > (size - at - 4) as u64 {
        return Err(
            SkadooshError::Other(
                "plugin result length ".to_owned().concat(
                    decimal_string(len as u64).as_str(),
                ).concat(" exceeds memory"),
            ),
        );
    }
    let body = copy_range(memory, at + 4, at + 4 + len as usize);
    match decode_strict(body.as_slice()) {
        Ok(s) => Ok(s),
        Err(e) => Err(
            SkadooshError::Other(
                "plugin returned non-utf8 result: ".to_owned().concat(e.as_str()),
            ),
        ),
    }
}

/// A string that lies length-prefixed in a plugin's memory is read back.
pub proof fn law_prefixed_strings_are_read_back(
    before: Seq<u8>,
    text: Seq<char>,
    behind: Seq<u8>,
)
    requires
        before.len() <= i32::MAX,
        vstd::utf8::encode_utf8(text).len() <= u32::MAX,
    ensures
        ({
            let body = vstd::utf8::encode_utf8(text);
            prefixed_in(before + to_le(body.len(), 4) + body + behind, before.len() as i32) == Ok::<
                Seq<char>,
                Seq<char>,
            >(text)
        }),
{
    let body = vstd::utf8::encode_utf8(text);
    let n = body.len();
    let at = before.len() as int;
    reveal_with_fuel(crate::bytes::capacity, 5);
    crate::bytes::law_bytes_round_trip(n, 4);
    let memory = before + to_le(n, 4) + body + behind;
    assert(memory.subrange(at, at + 4) =~= to_le(n, 4));
    assert(memory.subrange(at + 4, at + 4 + n) =~= body);
    vstd::utf8::encode_utf8_valid_utf8(text);
    vstd::utf8::encode_utf8_decode_utf8(text);
}

/// A call of a plugin's `execute`: where its input goes.
#[derive(Debug, Clone, Copy, PartialEq, Eq, Structural)]
pub struct InputBuffer {
    /// The pointer that `alloc` returned.
    pub ptr: i32,
    /// The length of the input, as `alloc`, `execute` and `dealloc` take it.
    pub len: i32,
}

/// The length of a byte string as the ABI passes it.
pub fn abi_len(len: usize) -> (r: i32)
    ensures
        r == #[verifier::truncate] (len as i32),
{
    #[verifier::truncate]
    (len as i32)
}

/// Where the input of a call goes, from the pointer that `alloc` returned for
/// it: it has to fit into the plugin's memory.
pub fn input_buffer(ptr: i32, input_len: usize, memory_size: usize) -> (r: Result<
    InputBuffer,
    SkadooshError,
>)
    ensures
        if ptr < 0 {
            r matches Err(e) && e.text() == "plugin alloc returned negative pointer"@
        } else if ptr + input_len > memory_size {
            r matches Err(e) && e.text() == "plugin alloc returned out-of-range pointer"@
        } else {
            r == Ok::<InputBuffer, SkadooshError>(
                InputBuffer { ptr, len: #[verifier::truncate] (input_len as i32) },
            )
        },
{
    if ptr < 0 {
        return Err(fault("plugin alloc returned negative pointer"));
    }
    if input_len > memory_size || ptr as usize > memory_size - input_len {
        return Err(fault("plugin alloc returned out-of-range pointer"));
    }
    Ok(InputBuffer { ptr, len: abi_len(input_len) })
}

/// How many bytes of a length-prefixed result `dealloc` frees: the prefix and
/// the body.
pub fn result_buffer_len(result: &str) -> (r: Result<i32, SkadooshError>)
    ensures
        match r {
            Ok(n) => 4 + vstd::utf8::encode_utf8(result@).len() <= usize::MAX && n
                == #[verifier::truncate] ((4 + vstd::utf8::encode_utf8(result@).len()) as i32),
            Err(e) => 4 + vstd::utf8::encode_utf8(result@).len() > usize::MAX && e.text()
                == "plugin result length overflow"@,
        },
{
    let len: usize = result.as_bytes().len();
    match len.checked_add(4) {
        Some(total) => Ok(abi_len(total)),
        None => Err(fault("plugin result length overflow")),
    }
}

// ---------------------------------------------------------------------------
// The registry
// ---------------------------------------------------------------------------

/// One loaded plugin: its parsed [`PluginManifest`], source path, and sandbox.
pub struct LoadedPlugin {
    manifest: PluginManifest,
    path: String,
    guest: Guest,
}

/// The state of a [`LoadedPlugin`].
#[verifier::ext_equal]
pub struct PluginView {
    /// The manifest.
    pub manifest: ManifestView,
    /// The path it was loaded from.
    pub path: Seq<char>,
}

impl View for LoadedPlugin {
    type V = PluginView;

    closed spec fn view(&self) -> PluginView {
        PluginView { manifest: self.manifest@, path: self.path@ }
    }
}

impl LoadedPlugin {
    /// Its sandbox can be entered.
    pub closed spec fn wf(&self) -> bool {
        self.guest.wf()
    }

    /// The plugin's code in its sandbox.
    pub closed spec fn guest(&self) -> GuestView {
        self.guest@
    }

    /// The plugin at `path` in its sandbox, with a parsed manifest, which has
    /// to name it.
    pub fn load(path: &str, manifest: PluginManifest, guest: Guest) -> (r: Result<
        Self,
        SkadooshError,
    >)
        requires
            guest.wf(),
        ensures
            match r {
                Ok(p) => p.wf() && manifest@.name.len() > 0 && p@ == (PluginView {
                    manifest: manifest@,
                    path: path@,
                }) && p.guest() == guest@,
                Err(e) => manifest@.name.len() == 0 && e.text() == "plugin "@ + path@
                    + " manifest has empty name"@,
            },
    {
        if manifest.name.as_str().unicode_len() == 0 {
            return Err(
                SkadooshError::Other(
                    "plugin ".to_owned().concat(path).concat(" manifest has empty name"),
                ),
            );
        }
        Ok(LoadedPlugin { manifest, path: path.to_owned(), guest })
    }

    /// The parsed manifest (name, description, version, optional parameters).
    pub fn manifest(&self) -> (r: &PluginManifest)
        ensures
            r@ == self@.manifest,
    {
        &self.manifest
    }

    /// Filesystem path the plugin was loaded from.
    pub fn path(&self) -> (r: &str)
        ensures
            r@ == self@.path,
    {
        self.path.as_str()
    }
}

/// The views of plugins.
pub open spec fn plugin_views(v: Seq<LoadedPlugin>) -> Seq<PluginView> {
    v.map_values(|p: LoadedPlugin| p@)
}

/// Whether a plugin of a name is loaded.
pub open spec fn is_loaded(v: Seq<PluginView>, name: Seq<char>) -> bool {
    exists|i: int| 0 <= i < v.len() && (#[trigger] v[i]).manifest.name == name
}

/// Whether no two plugins have the same name.
pub open spec fn names_differ(v: Seq<PluginView>) -> bool {
    forall|i: int, j: int|
        0 <= i < j < v.len() ==> (#[trigger] v[i]).manifest.name != (#[trigger] v[j]).manifest.name
}

/// The plugins after those that could be loaded, in order: one whose name is
/// taken is skipped.
pub open spec fn loaded(v: Seq<PluginView>, more: Seq<Option<PluginView>>) -> Seq<PluginView>
    decreases more.len(),
{
    if more.len() == 0 {
        v
    } else {
        let before = loaded(v, more.drop_last());
        match more.last() {
            Some(p) => if is_loaded(before, p.manifest.name) {
                before
            } else {
                before.push(p)
            },
            None => before,
        }
    }
}

/// The same of the plugins themselves.
pub open spec fn entries_loaded(
    v: Seq<LoadedPlugin>,
    more: Seq<Option<LoadedPlugin>>,
) -> Seq<LoadedPlugin>
    decreases more.len(),
{
    if more.len() == 0 {
        v
    } else {
        let before = entries_loaded(v, more.drop_last());
        match more.last() {
            Some(p) => if is_loaded(plugin_views(before), p@.manifest.name) {
                before
            } else {
                before.push(p)
            },
            None => before,
        }
    }
}

/// The views of load results.
pub open spec fn load_views(v: Seq<Option<LoadedPlugin>>) -> Seq<Option<PluginView>> {
    v.map_values(
        |p: Option<LoadedPlugin>|
            match p {
                Some(p) => Some(p@),
                None => None,
            },
    )
}

/// Whether the plugin at `i` ran on an input with this outcome, and nothing
/// happened to the others.
pub open spec fn plugin_ran(
    before: Seq<GuestView>,
    i: int,
    fuel: u64,
    input: Seq<char>,
    out: Result<Seq<char>, FaultView>,
    after: Seq<GuestView>,
) -> bool {
    &&& after == before.update(i, GuestView { store: after[i].store, ..before[i] })
    &&& guest::guest_run(before[i], fuel, input, out, after[i].store)
}

/// What a run of the plugin at `path` came to, in words.
pub open spec fn said(
    path: Seq<char>,
    out: Result<Seq<char>, FaultView>,
) -> Result<Seq<char>, Seq<char>> {
    match out {
        Ok(text) => Ok(text),
        Err(f) => Err(guest::fault_text(path, f)),
    }
}

/// The registry of loaded plugins.
pub struct PluginManager {
    plugins: Vec<LoadedPlugin>,
    fuel: u64,
    limits: PluginLimits,
}

impl PluginManager {
    /// The plugins, in load order.
    pub open spec fn plugins(&self) -> Seq<PluginView> {
        plugin_views(self.entries())
    }

    /// The plugins themselves, in load order.
    pub closed spec fn entries(&self) -> Seq<LoadedPlugin> {
        self.plugins@
    }

    /// The plugins' code in its sandboxes, in load order.
    pub open spec fn guests(&self) -> Seq<GuestView> {
        self.entries().map_values(|p: LoadedPlugin| p.guest())
    }

    /// The fuel of a call.
    pub closed spec fn fuel_budget(&self) -> u64 {
        self.fuel
    }

    /// The sandbox limits.
    pub closed spec fn sandbox(&self) -> PluginLimits {
        self.limits
    }

    /// No two plugins have the same name, and every sandbox can be entered.
    pub closed spec fn wf(&self) -> bool {
        names_differ(self.plugins()) && forall|i: int|
            0 <= i < self.plugins@.len() ==> (#[trigger] self.plugins@[i]).wf()
    }

    /// Creates an empty manager with the default sandbox limits
    /// ([`DEFAULT_FUEL`], [`DEFAULT_MAX_MEMORY_BYTES`],
    /// [`DEFAULT_MAX_TABLE_ELEMENTS`]).
    pub fn new() -> (r: Self)
        ensures
            r.wf(),
            r.plugins() == Seq::<PluginView>::empty(),
            r.fuel_budget() == DEFAULT_FUEL,
            r.sandbox() == (PluginLimits {
                max_memory_bytes: DEFAULT_MAX_MEMORY_BYTES,
                max_table_elements: DEFAULT_MAX_TABLE_ELEMENTS,
            }),
    {
        Self::with_limits(DEFAULT_FUEL, DEFAULT_MAX_MEMORY_BYTES, DEFAULT_MAX_TABLE_ELEMENTS)
    }

    /// Creates an empty manager with explicit sandbox limits.
    pub fn with_limits(fuel: u64, max_memory_bytes: usize, max_table_elements: usize) -> (r: Self)
        ensures
            r.wf(),
            r.plugins() == Seq::<PluginView>::empty(),
            r.fuel_budget() == fuel,
            r.sandbox() == (PluginLimits { max_memory_bytes, max_table_elements }),
    {
        let r = PluginManager {
            plugins: Vec::new(),
            fuel,
            limits: PluginLimits { max_memory_bytes, max_table_elements },
        };
        assert(r.plugins() =~= Seq::<PluginView>::empty());
        r
    }

    /// The fuel of a call.
    pub fn fuel(&self) -> (r: u64)
        ensures
            r == self.fuel_budget(),
    {
        self.fuel
    }

    /// The sandbox limits.
    pub fn limits(&self) -> (r: PluginLimits)
        ensures
            r == self.sandbox(),
    {
        self.limits
    }

    /// The place of the plugin named `name`.
    pub fn find(&self, name: &str) -> (r: Option<usize>)
        ensures
            match r {
                Some(i) => i < self.plugins().len() && self.plugins()[i as int].manifest.name
                    == name@,
                None => !is_loaded(self.plugins(), name@),
            },
    {
        let mut i: usize = 0;
        while i < self.plugins.len()
            invariant
                i <= self.plugins@.len() == self.plugins().len(),
                forall|k: int|
                    0 <= k < i ==> (#[trigger] self.plugins()[k]).manifest.name != name@,
            decreases self.plugins@.len() - i,
        {
            assert(self.plugins()[i as int] == self.plugins@[i as int]@);
            if str_eq(self.plugins[i].manifest.name.as_str(), name) {
                return Some(i);
            }
            i += 1;
        }
        None
    }

    /// Adds a plugin whose name is free.
    fn register(&mut self, plugin: LoadedPlugin)
        requires
            old(self).wf(),
            plugin.wf(),
            !is_loaded(old(self).plugins(), plugin@.manifest.name),
        ensures
            final(self).wf(),
            final(self).entries() == old(self).entries().push(plugin),
            final(self).plugins() == old(self).plugins().push(plugin@),
            final(self).fuel_budget() == old(self).fuel_budget(),
            final(self).sandbox() == old(self).sandbox(),
    {
        let ghost before = self.plugins();
        self.plugins.push(plugin);
        assert(self.plugins() =~= before.push(plugin@));
        assert forall|i: int, j: int| 0 <= i < j < self.plugins().len() implies (
        #[trigger] self.plugins()[i]).manifest.name != (
        #[trigger] self.plugins()[j]).manifest.name by {
            if j < before.len() {
                assert(before[i].manifest.name != before[j].manifest.name);
            } else {
                assert(before[i] == self.plugins()[i]);
            }
        }
    }

    /// Adds the plugins of a directory, in the sorted order of their paths. A
    /// plugin that fails to load (`None`) or has a duplicate name is skipped
    /// rather than aborting the lot.
    pub fn load_directory(&mut self, found: Vec<Option<LoadedPlugin>>)
        requires
            old(self).wf(),
            forall|i: int|
                0 <= i < found@.len() ==> ((#[trigger] found@[i]) matches Some(p) ==> p.wf()),
        ensures
            final(self).wf(),
            final(self).plugins() == loaded(old(self).plugins(), load_views(found@)),
            final(self).entries() == entries_loaded(old(self).entries(), found@),
            final(self).fuel_budget() == old(self).fuel_budget(),
            final(self).sandbox() == old(self).sandbox(),
    {
        let ghost start = self.plugins();
        let ghost first = self.entries();
        let ghost all = load_views(found@);
        let ghost total = found@;
        let mut rest = found;
        let mut done: Ghost<int> = Ghost(0);
        assert(rest@ =~= total.skip(0));
        assert(all.take(0) =~= Seq::empty());
        assert(total.take(0) =~= Seq::empty());
        while rest.len() > 0
            invariant
                self.wf(),
                forall|i: int|
                    0 <= i < total.len() ==> ((#[trigger] total[i]) matches Some(p) ==> p.wf()),
                self.fuel_budget() == old(self).fuel_budget(),
                self.sandbox() == old(self).sandbox(),
                0 <= done@ <= total.len(),
                all == load_views(total),
                rest@ == total.skip(done@),
                self.plugins() == loaded(start, all.take(done@)),
                self.entries() == entries_loaded(first, total.take(done@)),
            decreases rest@.len(),
        {
            let next = rest.remove(0);
            proof {
                assert(next == total[done@]);
                assert(rest@ =~= total.skip(done@ + 1));
                assert(all.take(done@ + 1).drop_last() =~= all.take(done@));
                assert(all.take(done@ + 1).last() == all[done@]);
                assert(total.take(done@ + 1).drop_last() =~= total.take(done@));
                assert(total.take(done@ + 1).last() == total[done@]);
                done@ = done@ + 1;
            }
            if let Some(plugin) = next {
                let taken = self.find(plugin.manifest.name.as_str()).is_some();
                if !taken {
                    self.register(plugin);
                }
            }
        }
        assert(all.take(all.len() as int) =~= all);
        assert(total.take(total.len() as int) =~= total);
        assert(done@ == total.len());
    }

    /// Adds a single plugin. A duplicate name is an error here (unlike
    /// [`PluginManager::load_directory`], which skips).
    pub fn load_path(&mut self, plugin: LoadedPlugin) -> (r: Result<(), SkadooshError>)
        requires
            old(self).wf(),
            plugin.wf(),
        ensures
            final(self).wf(),
            final(self).fuel_budget() == old(self).fuel_budget(),
            final(self).sandbox() == old(self).sandbox(),
            match r {
                Ok(_) => !is_loaded(old(self).plugins(), plugin@.manifest.name) && final(
                    self).entries() == old(self).entries().push(plugin) && final(self).plugins()
                    == old(self).plugins().push(plugin@),
                Err(e) => is_loaded(old(self).plugins(), plugin@.manifest.name) && e.text()
                    == "duplicate plugin name '"@ + plugin@.manifest.name + "'"@ && final(
                    self).entries() == old(self).entries(),
            },
    {
        if self.find(plugin.manifest.name.as_str()).is_some() {
            return Err(
                SkadooshError::Other(
                    "duplicate plugin name '".to_owned().concat(
                        plugin.manifest.name.as_str(),
                    ).concat("'"),
                ),
            );
        }
        self.register(plugin);
        Ok(())
    }

    /// Number of loaded plugins.
    pub fn len(&self) -> (r: usize)
        ensures
            r == self.plugins().len(),
    {
        self.plugins.len()
    }

    /// Whether any plugins are loaded.
    pub fn is_empty(&self) -> (r: bool)
        ensures
            r == (self.plugins().len() == 0),
    {
        self.plugins.len() == 0
    }

    /// Whether a plugin with tool name `name` is loaded.
    pub fn has(&self, name: &str) -> (r: bool)
        ensures
            r == is_loaded(self.plugins(), name@),
    {
        self.find(name).is_some()
    }

    /// The plugin at a place.
    pub fn plugin(&self, i: usize) -> (r: &LoadedPlugin)
        requires
            i < self.plugins().len(),
        ensures
            r@ == self.plugins()[i as int],
    {
        &self.plugins[i]
    }

    /// Manifests of all loaded plugins, in load order.
    pub fn manifests(&self) -> (r: Vec<&PluginManifest>)
        ensures
            r@.len() == self.plugins().len(),
            forall|i: int| 0 <= i < r@.len() ==> (#[trigger] r@[i])@ == self.plugins()[i].manifest,
    {
        let mut out: Vec<&PluginManifest> = Vec::new();
        let mut i: usize = 0;
        while i < self.plugins.len()
            invariant
                i <= self.plugins@.len() == self.plugins().len(),
                out@.len() == i,
                forall|k: int|
                    0 <= k < i ==> (#[trigger] out@[k])@ == self.plugins()[k].manifest,
            decreases self.plugins@.len() - i,
        {
            assert(self.plugins()[i as int] == self.plugins@[i as int]@);
            out.push(&self.plugins[i].manifest);
            i += 1;
        }
        out
    }

    /// One [`Tool`] definition per loaded plugin, ready to register with the
    /// LLM.
    pub fn tool_definitions(&self) -> (r: Vec<Tool>)
        ensures
            tools(r@) == self.plugins().map_values(|p: PluginView| plugin_tool(p.manifest)),
    {
        let ghost all = self.plugins().map_values(|p: PluginView| plugin_tool(p.manifest));
        let mut out: Vec<Tool> = Vec::new();
        let mut i: usize = 0;
        assert(tools(out@) =~= all.take(0));
        while i < self.plugins.len()
            invariant
                all == self.plugins().map_values(|p: PluginView| plugin_tool(p.manifest)),
                i <= self.plugins@.len() == self.plugins().len(),
                tools(out@) == all.take(i as int),
            decreases self.plugins@.len() - i,
        {
            assert(self.plugins()[i as int] == self.plugins@[i as int]@);
            let tool = plugin_tool_definition(&self.plugins[i].manifest);
            let ghost before = out@;
            out.push(tool);
            assert(tools(out@) =~= tools(before).push(tool@));
            assert(all.take(i + 1) =~= all.take(i as int).push(all[i as int]));
            i += 1;
        }
        assert(all.take(all.len() as int) =~= all);
        out
    }

    /// Which plugin a call of the tool `name` runs.
    pub fn resolve(&self, name: &str) -> (r: Result<usize, SkadooshError>)
        ensures
            match r {
                Ok(i) => i < self.plugins().len() && self.plugins()[i as int].manifest.name
                    == name@,
                Err(e) => !is_loaded(self.plugins(), name@) && e.text() == "unknown plugin '"@
                    + name@ + "'"@,
            },
    {
        match self.find(name) {
            Some(i) => Ok(i),
            None => Err(
                SkadooshError::Other("unknown plugin '".to_owned().concat(name).concat("'")),
            ),
        }
    }

    /// Runs the plugin named `name`, passing `input` (a JSON string) to its
    /// `execute` export and returning its JSON result string. What a loaded
    /// plugin answers is up to its code.
    pub fn run(&mut self, name: &str, input: &str) -> (r: Result<String, SkadooshError>)
        requires
            old(self).wf(),
        ensures
            final(self).wf(),
            final(self).plugins() == old(self).plugins(),
            final(self).fuel_budget() == old(self).fuel_budget(),
            final(self).sandbox() == old(self).sandbox(),
            !is_loaded(old(self).plugins(), name@) ==> (r matches Err(e) && e.text()
                == "unknown plugin '"@ + name@ + "'"@),
            is_loaded(old(self).plugins(), name@) ==> exists|
                i: int,
                out: Result<Seq<char>, FaultView>,
            |
                {
                    &&& 0 <= i < old(self).plugins().len()
                    &&& old(self).plugins()[i].manifest.name == name@
                    &&& #[trigger] plugin_ran(
                        old(self).guests(),
                        i,
                        old(self).fuel_budget(),
                        input@,
                        out,
                        final(self).guests(),
                    )
                    &&& outcome(r) == said(old(self).plugins()[i].path, out)
                },
    {
        let i = match self.resolve(name) {
            Ok(i) => i,
            Err(e) => {
                return Err(e);
            },
        };
        let ghost before = self.plugins();
        let ghost views = self.plugins@;
        let ghost guests = self.guests();
        let fuel: u64 = self.fuel;
        let run = self.plugins[i].guest.run(fuel, input);
        let ghost out = guest::told(run);
        proof {
            assert(self.plugins@.len() == views.len());
            assert forall|k: int| 0 <= k < views.len() implies (#[trigger] self.plugins@[k]).wf()
                && self.plugins@[k]@ == views[k]@ by {
                assert(views[k].wf());
                if k != i {
                    assert(self.plugins@[k] == views[k]);
                }
            }
            assert(self.plugins() =~= before);
            assert(views[i as int].guest() == guests[i as int]);
            assert(self.guests() =~= guests.update(
                i as int,
                GuestView { store: self.guests()[i as int].store, ..guests[i as int] },
            ));
            assert(plugin_ran(
                guests,
                i as int,
                fuel,
                input@,
                out,
                self.guests(),
            ));
            assert(before[i as int].path == self.plugins@[i as int].path@);
        }
        let result = match run {
            Ok(s) => Ok(s),
            Err(f) => Err(SkadooshError::Other(f.message(self.plugins[i].path.as_str()))),
        };
        assert(outcome(result) == said(before[i as int].path, out));
        result
    }
}

/// Whether a directory entry is a plugin: a file with the extension `wasm`.
pub fn is_plugin_file(extension: Option<&str>, is_file: bool) -> (r: bool)
    ensures
        r == (is_file && (extension matches Some(e) && e@ == "wasm"@)),
{
    match extension {
        Some(e) => str_eq(e, "wasm") && is_file,
        None => false,
    }
}

/// The default plugins directory, below the home directory.
pub open spec fn plugins_dir(home: Seq<char>) -> Seq<char> {
    if home.len() == 0 || home.last() == '/' {
        home + ".skadoosh/plugins"@
    } else {
        home + "/.skadoosh/plugins"@
    }
}

/// Resolves the default plugins directory (`~/.skadoosh/plugins/`) from the
/// home directory. Returns `None` when there is none. Callers treat a
/// non-existent default directory as "no plugins" (silently), unlike an
/// explicitly-configured `--plugins-dir`, which warns when missing.
pub fn default_plugins_dir(home: Option<&str>) -> (r: Option<String>)
    ensures
        crate::json::opt_str(r) == (match home {
            Some(h) => Some(plugins_dir(h@)),
            None => None,
        }),
{
    match home {
        Some(h) => {
            let v = crate::text::chars_of(h);
            if v.len() == 0 || v[v.len() - 1] == '/' {
                Some(h.to_owned().concat(".skadoosh/plugins"))
            } else {
                Some(h.to_owned().concat("/.skadoosh/plugins"))
            }
        },
        None => None,
    }
}

/// Loading a directory keeps what was loaded, and names stay unique.
pub proof fn law_loading_keeps_plugins(v: Seq<PluginView>, more: Seq<Option<PluginView>>)
    requires
        names_differ(v),
    ensures
        names_differ(loaded(v, more)),
        loaded(v, more).len() >= v.len(),
        loaded(v, more).take(v.len() as int) == v,
    decreases more.len(),
{
    if more.len() == 0 {
        assert(v.take(v.len() as int) =~= v);
    } else {
        law_loading_keeps_plugins(v, more.drop_last());
        let before = loaded(v, more.drop_last());
        let all = loaded(v, more);
        assert(all.take(v.len() as int) =~= before.take(v.len() as int));
        assert forall|i: int, j: int| 0 <= i < j < all.len() implies (
        #[trigger] all[i]).manifest.name != (#[trigger] all[j]).manifest.name by {
            assert(all[i] == before[i]);
            if j < before.len() {
                assert(all[j] == before[j]);
            }
        }
    }
}

/// A plugin that could be loaded is there afterwards, or another of its name
/// is.
pub proof fn law_loadable_plugins_are_named(
    v: Seq<PluginView>,
    more: Seq<Option<PluginView>>,
    i: int,
)
    requires
        0 <= i < more.len(),
        more[i] is Some,
    ensures
        is_loaded(loaded(v, more), more[i]->0.manifest.name),
    decreases more.len(),
{
    let before = loaded(v, more.drop_last());
    let all = loaded(v, more);
    let name = more[i]->0.manifest.name;
    if i == more.len() - 1 {
        if !is_loaded(before, name) {
            assert(all[before.len() as int].manifest.name == name);
        }
    } else {
        law_loadable_plugins_are_named(v, more.drop_last(), i);
        assert(more.drop_last()[i] == more[i]);
        let k = choose|k: int| 0 <= k < before.len() && (#[trigger] before[k]).manifest.name == name;
        assert(all[k].manifest.name == name);
    }
}

} // verus!
