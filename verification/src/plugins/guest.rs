//! A plugin in its sandbox: a WebAssembly instance with its own store, a fuel
//! budget and caps on memory and tables. No imports are linked, so the module
//! has no filesystem and no network.
//!
//! What a plugin's code computes is its own affair: here is in what order the
//! host calls it, what it writes and reads, and what it refuses.

use vstd::prelude::*;

use crate::error::SkadooshError;
use crate::plugins::{
    abi_len, input_buffer, outcome, prefixed_in, read_prefixed, result_buffer_len, PluginLimits,
    DEFAULT_MAX_MEMORY_BYTES,
};

verus! {

// ---------------------------------------------------------------------------
// wasmtime
// ---------------------------------------------------------------------------

/// `wasmtime::Engine`.
#[verifier::external_type_specification]
#[verifier::external_body]
pub struct ExEngine(wasmtime::Engine);

/// `wasmtime::Module`.
#[verifier::external_type_specification]
#[verifier::external_body]
pub struct ExModule(wasmtime::Module);

/// `wasmtime::StoreLimits`.
#[verifier::external_type_specification]
#[verifier::external_body]
pub struct ExStoreLimits(wasmtime::StoreLimits);

/// `wasmtime::Store`.
#[verifier::external_type_specification]
#[verifier::external_body]
#[verifier::reject_recursive_types(T)]
pub struct ExStore<T: 'static>(wasmtime::Store<T>);

/// `wasmtime::Instance`.
#[verifier::external_type_specification]
#[verifier::external_body]
pub struct ExInstance(wasmtime::Instance);

/// `wasmtime::Memory`.
#[verifier::external_type_specification]
#[verifier::external_body]
pub struct ExMemory(wasmtime::Memory);

/// `wasmtime::Func`.
#[verifier::external_type_specification]
#[verifier::external_body]
pub struct ExFunc(wasmtime::Func);

/// Which engine an engine handle stands for.
pub uninterp spec fn engine_id(engine: wasmtime::Engine) -> int;

/// The engine that a module was compiled for.
pub uninterp spec fn module_engine(module: wasmtime::Module) -> int;

/// The engine that a store belongs to.
pub uninterp spec fn store_engine(store: wasmtime::Store<wasmtime::StoreLimits>) -> int;

/// Which store it is.
pub uninterp spec fn store_id(store: wasmtime::Store<wasmtime::StoreLimits>) -> int;

/// The store that owns an instance.
pub uninterp spec fn instance_store(instance: wasmtime::Instance) -> int;

/// The store that owns a memory.
pub uninterp spec fn memory_store(memory: wasmtime::Memory) -> int;

/// The store that owns a function.
pub uninterp spec fn func_store(func: wasmtime::Func) -> int;

/// The bytes of a memory.
pub uninterp spec fn memory_bytes(
    memory: wasmtime::Memory,
    store: wasmtime::Store<wasmtime::StoreLimits>,
) -> Seq<u8>;

/// Whether an engine meters fuel.
pub uninterp spec fn engine_meters(engine: wasmtime::Engine) -> bool;

/// Whether fuel is metered in a store.
pub uninterp spec fn store_meters(store: wasmtime::Store<wasmtime::StoreLimits>) -> bool;

/// The bytes that a module was compiled from.
pub uninterp spec fn module_wasm(module: wasmtime::Module) -> Seq<u8>;

/// How many bytes a memory may grow to.
pub uninterp spec fn memory_cap(limits: wasmtime::StoreLimits) -> int;

/// How many elements a table may grow to.
pub uninterp spec fn table_cap(limits: wasmtime::StoreLimits) -> int;

/// The limits that are in force in a store.
pub uninterp spec fn store_limits_of(
    store: wasmtime::Store<wasmtime::StoreLimits>,
) -> wasmtime::StoreLimits;

/// The fuel that is left in a store.
pub uninterp spec fn fuel_left(store: wasmtime::Store<wasmtime::StoreLimits>) -> int;

/// The module that an instance was made from.
pub uninterp spec fn instance_module(instance: wasmtime::Instance) -> wasmtime::Module;

/// The memory that an instance exports under a name.
pub uninterp spec fn instance_memory(
    instance: wasmtime::Instance,
    name: Seq<char>,
) -> Option<wasmtime::Memory>;

/// The function that an instance exports under a name.
pub uninterp spec fn instance_func(
    instance: wasmtime::Instance,
    name: Seq<char>,
) -> Option<wasmtime::Func>;

/// What a call of a guest's function came back with: its first result, if that
/// is a 32-bit integer, or why it trapped.
pub type Reply = Result<Option<i32>, Seq<char>>;

/// Whether a function has been called with these 32-bit arguments and this
/// many results, in the store as it was before, and came back with this reply
/// and left the store as it is after. A relation, as what a guest answers is
/// up to its code and to the memory that the machine grants it.
pub uninterp spec fn call_made(
    func: wasmtime::Func,
    before: wasmtime::Store<wasmtime::StoreLimits>,
    params: Seq<i32>,
    results: nat,
    reply: Reply,
    after: wasmtime::Store<wasmtime::StoreLimits>,
) -> bool;

/// Whether compiling these bytes for an engine has come to this: a module, or
/// why there is none. A relation, as it may be up to the machine.
pub uninterp spec fn compile_made(
    engine: wasmtime::Engine,
    wasm: Seq<u8>,
    reply: Result<wasmtime::Module, Seq<char>>,
) -> bool;

/// Whether instantiating a module, in the store as it was before, has come to
/// this and left the store as it is after. A relation, as a start function is
/// guest code and a memory is up to the machine.
pub uninterp spec fn instantiate_made(
    module: wasmtime::Module,
    before: wasmtime::Store<wasmtime::StoreLimits>,
    reply: Result<wasmtime::Instance, Seq<char>>,
    after: wasmtime::Store<wasmtime::StoreLimits>,
) -> bool;

/// Whether two states are of one store: the same identity, engine and limits,
/// and the same metering.
pub open spec fn one_store(
    a: wasmtime::Store<wasmtime::StoreLimits>,
    b: wasmtime::Store<wasmtime::StoreLimits>,
) -> bool {
    &&& store_id(a) == store_id(b)
    &&& store_engine(a) == store_engine(b)
    &&& store_limits_of(a) == store_limits_of(b)
    &&& store_meters(a) == store_meters(b)
}

/// Whether exports were looked up at most between two states of a store: no
/// fuel was spent and no memory changed.
pub open spec fn looked_up(
    a: wasmtime::Store<wasmtime::StoreLimits>,
    b: wasmtime::Store<wasmtime::StoreLimits>,
) -> bool {
    &&& one_store(a, b)
    &&& fuel_left(a) == fuel_left(b)
    &&& forall|m: wasmtime::Memory| #[trigger] memory_bytes(m, b) == memory_bytes(m, a)
}

/// What came of an outside call that hands out a value or a message.
pub open spec fn told_of<T>(r: Result<T, String>) -> Result<T, Seq<char>> {
    match r {
        Ok(v) => Ok(v),
        Err(e) => Err(e@),
    }
}

/// A single argument.
pub open spec fn one_arg(a: i32) -> Seq<i32> {
    seq![a]
}

/// Two arguments.
pub open spec fn two_args(a: i32, b: i32) -> Seq<i32> {
    seq![a, b]
}

/// A reply by its text.
pub open spec fn reply_view(r: Result<Option<i32>, String>) -> Reply {
    match r {
        Ok(v) => Ok(v),
        Err(e) => Err(e@),
    }
}

/// `wasmtime::Engine::new` with fuel consumption on, so that no guest runs for
/// ever, and with `reserved` bytes of address space set aside for a memory,
/// none more when it outgrows them: without these two settings each memory
/// takes some gigabytes of address space, which a process with a limit on it
/// is refused. What a guest computes does not depend on them. The error is its message; whether there is
/// one depends on the machine, and nothing is claimed of it.
#[verifier::external_body]
fn new_engine(reserved: u64) -> (r: Result<wasmtime::Engine, String>)
    ensures
        r matches Ok(e) ==> engine_meters(e),
{
    let mut config = wasmtime::Config::new();
    config.consume_fuel(true).memory_reservation(reserved).memory_reservation_for_growth(0);
    wasmtime::Engine::new(&config).map_err(|e| e.to_string())
}

/// `wasmtime::Module::new`: compiles wasm bytes for an engine. Which bytes are
/// a module is not stated; `compile_made` records what came of it.
#[verifier::external_body]
fn compile(engine: &wasmtime::Engine, wasm: &[u8]) -> (r: Result<wasmtime::Module, String>)
    ensures
        compile_made(*engine, wasm@, told_of(r)),
        r matches Ok(m) ==> module_engine(m) == engine_id(*engine) && module_wasm(m) == wasm@,
{
    wasmtime::Module::new(engine, wasm).map_err(|e| e.to_string())
}

/// `wasmtime::StoreLimitsBuilder`: the caps that a store's memories and tables
/// may grow to.
#[verifier::external_body]
fn store_limits(max_memory_bytes: usize, max_table_elements: usize) -> (r: wasmtime::StoreLimits)
    ensures
        memory_cap(r) == max_memory_bytes,
        table_cap(r) == max_table_elements,
{
    wasmtime::StoreLimitsBuilder::new()
        .memory_size(max_memory_bytes)
        .table_elements(max_table_elements)
        .build()
}

/// `wasmtime::Store::new` for an engine, with its limits in force.
#[verifier::external_body]
fn new_store(engine: &wasmtime::Engine, limits: wasmtime::StoreLimits) -> (r: wasmtime::Store<
    wasmtime::StoreLimits,
>)
    ensures
        store_engine(r) == engine_id(*engine),
        store_limits_of(r) == limits,
        store_meters(r) == engine_meters(*engine),
{
    let mut store = wasmtime::Store::new(engine, limits);
    store.limiter(|limits| limits);
    store
}

/// `wasmtime::Store::set_fuel`: replaces the store's fuel, and nothing else;
/// it succeeds where the engine meters fuel.
#[verifier::external_body]
fn set_fuel(store: &mut wasmtime::Store<wasmtime::StoreLimits>, fuel: u64) -> (r: Result<
    (),
    String,
>)
    ensures
        one_store(*old(store), *final(store)),
        store_meters(*old(store)) ==> r is Ok,
        r is Ok ==> fuel_left(*final(store)) == fuel,
        forall|m: wasmtime::Memory| #[trigger]
            memory_bytes(m, *final(store)) == memory_bytes(m, *old(store)),
{
    store.set_fuel(fuel).map_err(|e| e.to_string())
}

/// `wasmtime::Linker::instantiate` with nothing linked: the instance belongs
/// to the store. Which modules can be instantiated is not stated;
/// `instantiate_made` records what came of it. It panics where module and
/// store are of different engines. Fuel is metered, so that a start function
/// comes to an end.
#[verifier::external_body]
fn instantiate(
    store: &mut wasmtime::Store<wasmtime::StoreLimits>,
    module: &wasmtime::Module,
) -> (r: Result<wasmtime::Instance, String>)
    requires
        module_engine(*module) == store_engine(*old(store)),
        store_meters(*old(store)),
    ensures
        one_store(*old(store), *final(store)),
        instantiate_made(*module, *old(store), told_of(r), *final(store)),
        r matches Ok(i) ==> instance_store(i) == store_id(*final(store)) && instance_module(i)
            == *module,
{
    wasmtime::Linker::new(module.engine()).instantiate(store, module).map_err(|e| e.to_string())
}

/// `wasmtime::Instance::get_memory`: the memory that an instance exports under
/// a name, which belongs to the same store. The lookup spends no fuel and
/// leaves the memories alone. It panics for another store.
#[verifier::external_body]
fn exported_memory(
    instance: &wasmtime::Instance,
    store: &mut wasmtime::Store<wasmtime::StoreLimits>,
    name: &str,
) -> (r: Option<wasmtime::Memory>)
    requires
        instance_store(*instance) == store_id(*old(store)),
    ensures
        looked_up(*old(store), *final(store)),
        r == instance_memory(*instance, name@),
        r matches Some(m) ==> memory_store(m) == store_id(*final(store)),
{
    instance.get_memory(store, name)
}

/// `wasmtime::Instance::get_func`: the function that an instance exports under
/// a name, which belongs to the same store. The lookup spends no fuel and
/// leaves the memories alone. It panics for another store.
#[verifier::external_body]
fn exported_func(
    instance: &wasmtime::Instance,
    store: &mut wasmtime::Store<wasmtime::StoreLimits>,
    name: &str,
) -> (r: Option<wasmtime::Func>)
    requires
        instance_store(*instance) == store_id(*old(store)),
    ensures
        looked_up(*old(store), *final(store)),
        r == instance_func(*instance, name@),
        r matches Some(f) ==> func_store(f) == store_id(*final(store)),
{
    instance.get_func(store, name)
}

/// `wasmtime::Func::call` with 32-bit arguments and `results` results, of
/// which the first is handed back if it is a 32-bit integer. What the guest's
/// code computes, and what it does to its memory, is not stated beyond that
/// this call was made, which `call_made` records. Fuel is metered, so that the
/// call comes to an end. It panics for another store.
#[verifier::external_body]
fn call_func(
    func: &wasmtime::Func,
    store: &mut wasmtime::Store<wasmtime::StoreLimits>,
    params: &Vec<i32>,
    results: usize,
) -> (r: Result<Option<i32>, String>)
    requires
        func_store(*func) == store_id(*old(store)),
        store_meters(*old(store)),
    ensures
        one_store(*old(store), *final(store)),
        call_made(
            *func,
            *old(store),
            params@,
            results as nat,
            reply_view(r),
            *final(store),
        ),
{
    let params: Vec<wasmtime::Val> = params.iter().map(|p| wasmtime::Val::I32(*p)).collect();
    let mut out = vec![wasmtime::Val::I32(0); results];
    func.call(store, &params, &mut out).map_err(|e| e.to_string())?;
    Ok(out.first().and_then(|v| v.i32()))
}

/// `wasmtime::Memory::data`: the bytes of a memory. It panics for another
/// store.
#[verifier::external_body]
fn memory_data<'a>(
    memory: &wasmtime::Memory,
    store: &'a wasmtime::Store<wasmtime::StoreLimits>,
) -> (r: &'a [u8])
    requires
        memory_store(*memory) == store_id(*store),
    ensures
        r@ == memory_bytes(*memory, *store),
{
    memory.data(store)
}

/// `wasmtime::Memory::write`: puts bytes into a memory; an error, and nothing
/// is written, where they reach past its end. It panics for another store.
#[verifier::external_body]
fn write_memory(
    memory: &wasmtime::Memory,
    store: &mut wasmtime::Store<wasmtime::StoreLimits>,
    offset: usize,
    bytes: &[u8],
) -> (r: Result<(), String>)
    requires
        memory_store(*memory) == store_id(*old(store)),
    ensures
        one_store(*old(store), *final(store)),
        r is Ok <==> offset + bytes@.len() <= memory_bytes(*memory, *old(store)).len(),
        r is Ok ==> memory_bytes(*memory, *final(store)) == memory_bytes(
            *memory,
            *old(store),
        ).take(offset as int) + bytes@ + memory_bytes(*memory, *old(store)).skip(
            offset + bytes@.len(),
        ),
        r is Err ==> memory_bytes(*memory, *final(store)) == memory_bytes(*memory, *old(store)),
{
    memory.write(store, offset, bytes).map_err(|e| e.to_string())
}

// ---------------------------------------------------------------------------
// Faults
// ---------------------------------------------------------------------------

/// What can be wrong with a plugin.
#[derive(Debug)]
pub enum GuestFault {
    /// It does not compile, for this reason.
    Compile(String),
    /// Its fuel cannot be set, for this reason.
    Fuel(String),
    /// It cannot be instantiated, for this reason.
    Instantiate(String),
    /// It exports no memory.
    NoMemory,
    /// It does not export this function.
    NoExport(String),
    /// A call trapped, for this reason.
    Trapped(String),
    /// A function returned something else than an `i32`.
    NotI32,
    /// The input cannot be written, for this reason.
    NotWritten(String),
    /// A pointer or a string of it is bad, as these words say.
    Abi(String),
}

/// A fault, mathematically.
pub enum FaultView {
    /// It does not compile, for this reason.
    Compile(Seq<char>),
    /// Its fuel cannot be set, for this reason.
    Fuel(Seq<char>),
    /// It cannot be instantiated, for this reason.
    Instantiate(Seq<char>),
    /// It exports no memory.
    NoMemory,
    /// It does not export this function.
    NoExport(Seq<char>),
    /// A call trapped, for this reason.
    Trapped(Seq<char>),
    /// A function returned something else than an `i32`.
    NotI32,
    /// The input cannot be written, for this reason.
    NotWritten(Seq<char>),
    /// A pointer or a string of it is bad, as these words say.
    Abi(Seq<char>),
}

impl View for GuestFault {
    type V = FaultView;

    open spec fn view(&self) -> FaultView {
        match self {
            GuestFault::Compile(e) => FaultView::Compile(e@),
            GuestFault::Fuel(e) => FaultView::Fuel(e@),
            GuestFault::Instantiate(e) => FaultView::Instantiate(e@),
            GuestFault::NoMemory => FaultView::NoMemory,
            GuestFault::NoExport(name) => FaultView::NoExport(name@),
            GuestFault::Trapped(e) => FaultView::Trapped(e@),
            GuestFault::NotI32 => FaultView::NotI32,
            GuestFault::NotWritten(e) => FaultView::NotWritten(e@),
            GuestFault::Abi(e) => FaultView::Abi(e@),
        }
    }
}

/// A fault of the plugin at `path`, in words.
pub open spec fn fault_text(path: Seq<char>, f: FaultView) -> Seq<char> {
    match f {
        FaultView::Compile(e) => "compile plugin "@ + path + ": "@ + e,
        FaultView::Fuel(e) => "set fuel: "@ + e,
        FaultView::Instantiate(e) => "instantiate plugin "@ + path + ": "@ + e,
        FaultView::NoMemory => "plugin "@ + path + " missing exported memory 'memory'"@,
        FaultView::NoExport(name) => "plugin "@ + path + " missing required export '"@ + name
            + "'"@,
        FaultView::Trapped(e) => "plugin function call trapped: "@ + e,
        FaultView::NotI32 => "plugin function returned non-i32 result"@,
        FaultView::NotWritten(e) => "plugin memory write: "@ + e,
        FaultView::Abi(e) => e,
    }
}

impl GuestFault {
    /// The fault in words.
    pub fn message(&self, path: &str) -> (r: String)
        ensures
            r@ == fault_text(path@, self@),
    {
        match self {
            GuestFault::Compile(e) => "compile plugin ".to_owned().concat(path).concat(
                ": ",
            ).concat(e.as_str()),
            GuestFault::Fuel(e) => "set fuel: ".to_owned().concat(e.as_str()),
            GuestFault::Instantiate(e) => "instantiate plugin ".to_owned().concat(path).concat(
                ": ",
            ).concat(e.as_str()),
            GuestFault::NoMemory => "plugin ".to_owned().concat(path).concat(
                " missing exported memory 'memory'",
            ),
            GuestFault::NoExport(name) => "plugin ".to_owned().concat(path).concat(
                " missing required export '",
            ).concat(name.as_str()).concat("'"),
            GuestFault::Trapped(e) => "plugin function call trapped: ".to_owned().concat(
                e.as_str(),
            ),
            GuestFault::NotI32 => "plugin function returned non-i32 result".to_owned(),
            GuestFault::NotWritten(e) => "plugin memory write: ".to_owned().concat(e.as_str()),
            GuestFault::Abi(e) => e.clone(),
        }
    }
}

// ---------------------------------------------------------------------------
// Guests
// ---------------------------------------------------------------------------

/// What compiles plugins.
pub struct PluginEngine {
    engine: wasmtime::Engine,
}

impl View for PluginEngine {
    type V = wasmtime::Engine;

    closed spec fn view(&self) -> wasmtime::Engine {
        self.engine
    }
}

impl PluginEngine {
    /// The engine meters fuel.
    #[verifier::type_invariant]
    spec fn inv(&self) -> bool {
        engine_meters(self.engine)
    }

    /// An engine that meters fuel. Whether there is one depends on the
    /// machine; the error says why not.
    pub fn new() -> (r: Result<Self, SkadooshError>)
        ensures
            r matches Err(e) ==> crate::text::starts_with(e.text(), "wasmtime engine init: "@),
    {
        match new_engine(DEFAULT_MAX_MEMORY_BYTES as u64) {
            Ok(engine) => Ok(PluginEngine { engine }),
            Err(e) => {
                let text = "wasmtime engine init: ".to_owned().concat(e.as_str());
                proof {
                    let prefix = "wasmtime engine init: "@;
                    assert(text@.subrange(0, prefix.len() as int) =~= prefix);
                    assert(crate::text::matches_at(text@, prefix, 0));
                }
                Err(SkadooshError::Other(text))
            },
        }
    }
}

/// A plugin in its sandbox.
pub struct Guest {
    store: wasmtime::Store<wasmtime::StoreLimits>,
    memory: wasmtime::Memory,
    alloc: wasmtime::Func,
    dealloc: wasmtime::Func,
    execute: wasmtime::Func,
}

/// A plugin in its sandbox, mathematically.
pub struct GuestView {
    /// The store, as it is.
    pub store: wasmtime::Store<wasmtime::StoreLimits>,
    /// The exported memory.
    pub memory: wasmtime::Memory,
    /// The exported `alloc`.
    pub alloc: wasmtime::Func,
    /// The exported `dealloc`.
    pub dealloc: wasmtime::Func,
    /// The exported `execute`.
    pub execute: wasmtime::Func,
}

impl View for Guest {
    type V = GuestView;

    closed spec fn view(&self) -> GuestView {
        GuestView {
            store: self.store,
            memory: self.memory,
            alloc: self.alloc,
            dealloc: self.dealloc,
            execute: self.execute,
        }
    }
}

/// What a call that has to return one `i32` gave.
pub open spec fn i32_of(reply: Reply) -> Result<i32, FaultView> {
    match reply {
        Ok(Some(v)) => Ok(v),
        Ok(None) => Err(FaultView::NotI32),
        Err(e) => Err(FaultView::Trapped(e)),
    }
}

/// The result of a call that may fail, by its texts.
pub open spec fn told(r: Result<String, GuestFault>) -> Result<Seq<char>, FaultView> {
    match r {
        Ok(s) => Ok(s@),
        Err(f) => Err(f@),
    }
}

/// How the string at `ptr` is taken: it is read, and where it is well-formed
/// its buffer, prefix included, is handed to `dealloc`.
pub open spec fn string_taken(
    g: GuestView,
    ptr: i32,
    out: Result<Seq<char>, FaultView>,
    after: wasmtime::Store<wasmtime::StoreLimits>,
) -> bool {
    match prefixed_in(memory_bytes(g.memory, g.store), ptr) {
        Err(text) => out == Err::<Seq<char>, FaultView>(FaultView::Abi(text)) && after == g.store,
        Ok(text) => {
            let total = 4 + vstd::utf8::encode_utf8(text).len();
            if total > usize::MAX {
                out == Err::<Seq<char>, FaultView>(
                    FaultView::Abi("plugin result length overflow"@),
                ) && after == g.store
            } else {
                out == Ok::<Seq<char>, FaultView>(text) && exists|d: Reply| #[trigger]
                    call_made(
                        g.dealloc,
                        g.store,
                        two_args(ptr, #[verifier::truncate] (total as i32)),
                        0,
                        d,
                        after,
                    )
            }
        },
    }
}

/// How an input that stands in the guest's memory is run: `execute` is called
/// on it, its buffer is handed to `dealloc`, and the string that `execute`
/// points to is taken.
pub open spec fn input_run(
    g: GuestView,
    ptr: i32,
    len: i32,
    out: Result<Seq<char>, FaultView>,
    after: wasmtime::Store<wasmtime::StoreLimits>,
) -> bool {
    exists|x: Reply, s: wasmtime::Store<wasmtime::StoreLimits>|
        {
            &&& #[trigger] call_made(g.execute, g.store, two_args(ptr, len), 1, x, s)
            &&& match i32_of(x) {
                Err(f) => out == Err::<Seq<char>, FaultView>(f) && after == s,
                Ok(result) => exists|d: Reply, freed: wasmtime::Store<wasmtime::StoreLimits>|
                    {
                        &&& #[trigger] call_made(g.dealloc, s, two_args(ptr, len), 0, d, freed)
                        &&& string_taken(GuestView { store: freed, ..g }, result, out, after)
                    },
            }
        }
}

/// Whether `after` is `before` with `bytes` written into the memory at `at`.
pub open spec fn written(
    memory: wasmtime::Memory,
    before: wasmtime::Store<wasmtime::StoreLimits>,
    at: int,
    bytes: Seq<u8>,
    after: wasmtime::Store<wasmtime::StoreLimits>,
) -> bool {
    memory_bytes(memory, after) == memory_bytes(memory, before).take(at) + bytes + memory_bytes(
        memory,
        before,
    ).skip(at + bytes.len())
}

/// How a fuelled guest is run on `input`: `alloc` is asked for a buffer as
/// long as the input, the input is written there, and run.
pub open spec fn text_run(
    g: GuestView,
    input: Seq<char>,
    out: Result<Seq<char>, FaultView>,
    after: wasmtime::Store<wasmtime::StoreLimits>,
) -> bool {
    let bytes = vstd::utf8::encode_utf8(input);
    let len = #[verifier::truncate] (bytes.len() as i32);
    exists|a: Reply, s: wasmtime::Store<wasmtime::StoreLimits>|
        {
            &&& #[trigger] call_made(g.alloc, g.store, one_arg(len), 1, a, s)
            &&& match i32_of(a) {
                Err(f) => out == Err::<Seq<char>, FaultView>(f) && after == s,
                Ok(ptr) => if ptr < 0 {
                    out == Err::<Seq<char>, FaultView>(
                        FaultView::Abi("plugin alloc returned negative pointer"@),
                    ) && after == s
                } else if ptr + bytes.len() > memory_bytes(g.memory, s).len() {
                    out == Err::<Seq<char>, FaultView>(
                        FaultView::Abi("plugin alloc returned out-of-range pointer"@),
                    ) && after == s
                } else {
                    exists|w: wasmtime::Store<wasmtime::StoreLimits>|
                        {
                            &&& #[trigger] written(g.memory, s, ptr as int, bytes, w)
                            &&& input_run(GuestView { store: w, ..g }, ptr, len, out, after)
                        }
                },
            }
        }
}

/// How a guest is run: its fuel is set anew, whatever earlier runs have left,
/// and then it is run on the input.
pub open spec fn guest_run(
    g: GuestView,
    fuel: u64,
    input: Seq<char>,
    out: Result<Seq<char>, FaultView>,
    after: wasmtime::Store<wasmtime::StoreLimits>,
) -> bool {
    exists|s: wasmtime::Store<wasmtime::StoreLimits>|
        {
            &&& #[trigger] fuel_left(s) == fuel
            &&& one_store(g.store, s)
            &&& memory_bytes(g.memory, s) == memory_bytes(g.memory, g.store)
            &&& text_run(GuestView { store: s, ..g }, input, out, after)
        }
}

/// What an instance lacks to be a plugin: the first that is missing of its
/// memory and the functions that it has to export.
pub open spec fn missing_export(instance: wasmtime::Instance) -> Option<FaultView> {
    if instance_memory(instance, "memory"@) is None {
        Some(FaultView::NoMemory)
    } else if instance_func(instance, "alloc"@) is None {
        Some(FaultView::NoExport("alloc"@))
    } else if instance_func(instance, "dealloc"@) is None {
        Some(FaultView::NoExport("dealloc"@))
    } else if instance_func(instance, "manifest"@) is None {
        Some(FaultView::NoExport("manifest"@))
    } else if instance_func(instance, "execute"@) is None {
        Some(FaultView::NoExport("execute"@))
    } else {
        None
    }
}

/// The guest of an instance that lacks nothing.
pub open spec fn guest_of(
    instance: wasmtime::Instance,
    store: wasmtime::Store<wasmtime::StoreLimits>,
) -> GuestView {
    GuestView {
        store,
        memory: instance_memory(instance, "memory"@)->0,
        alloc: instance_func(instance, "alloc"@)->0,
        dealloc: instance_func(instance, "dealloc"@)->0,
        execute: instance_func(instance, "execute"@)->0,
    }
}

/// Whether the limits of a store are those of the sandbox.
pub open spec fn is_sandboxed(
    store: wasmtime::Store<wasmtime::StoreLimits>,
    limits: PluginLimits,
) -> bool {
    &&& memory_cap(store_limits_of(store)) == limits.max_memory_bytes
    &&& table_cap(store_limits_of(store)) == limits.max_table_elements
}

/// What came of loading a plugin: the guest and the text of its manifest, or
/// the fault.
pub type Loaded = Result<(GuestView, Seq<char>), FaultView>;

/// How an instance in a store becomes a guest with a pointer to its manifest:
/// nothing of what it has to export is missing, and its `manifest`, called
/// without arguments on the fuel that instantiating it has left, answers.
pub open spec fn instance_entered(
    instance: wasmtime::Instance,
    store: wasmtime::Store<wasmtime::StoreLimits>,
    out: Result<(GuestView, i32), FaultView>,
) -> bool {
    match missing_export(instance) {
        Some(f) => out == Err::<(GuestView, i32), FaultView>(f),
        None => exists|
            before: wasmtime::Store<wasmtime::StoreLimits>,
            reply: Reply,
            after: wasmtime::Store<wasmtime::StoreLimits>,
        |
            {
                &&& #[trigger] call_made(
                    instance_func(instance, "manifest"@)->0,
                    before,
                    Seq::<i32>::empty(),
                    1,
                    reply,
                    after,
                )
                &&& looked_up(store, before)
                &&& out == (match i32_of(reply) {
                    Ok(ptr) => Ok((guest_of(instance, after), ptr)),
                    Err(f) => Err(f),
                })
            },
    }
}

/// How a module becomes such a guest: it is instantiated in a store of its
/// own, which holds `fuel` and is bounded by `limits`.
pub open spec fn module_entered(
    engine: wasmtime::Engine,
    module: wasmtime::Module,
    limits: PluginLimits,
    fuel: u64,
    out: Result<(GuestView, i32), FaultView>,
) -> bool {
    exists|
        s: wasmtime::Store<wasmtime::StoreLimits>,
        reply: Result<wasmtime::Instance, Seq<char>>,
        after: wasmtime::Store<wasmtime::StoreLimits>,
    |
        {
            &&& #[trigger] instantiate_made(module, s, reply, after)
            &&& store_engine(s) == engine_id(engine)
            &&& is_sandboxed(s, limits)
            &&& fuel_left(s) == fuel
            &&& match reply {
                Err(e) => out == Err::<(GuestView, i32), FaultView>(FaultView::Instantiate(e)),
                Ok(instance) => instance_entered(instance, after, out),
            }
        }
}

/// How bytes become such a guest: they are compiled for the engine first.
pub open spec fn entered(
    engine: wasmtime::Engine,
    wasm: Seq<u8>,
    limits: PluginLimits,
    fuel: u64,
    out: Result<(GuestView, i32), FaultView>,
) -> bool {
    exists|reply: Result<wasmtime::Module, Seq<char>>|
        {
            &&& #[trigger] compile_made(engine, wasm, reply)
            &&& match reply {
                Err(e) => out == Err::<(GuestView, i32), FaultView>(FaultView::Compile(e)),
                Ok(module) => module_entered(engine, module, limits, fuel, out),
            }
        }
}

/// How the manifest of a guest is taken.
pub open spec fn manifest_taken(g: GuestView, ptr: i32, out: Loaded) -> bool {
    match out {
        Ok((after, json)) => {
            &&& after == (GuestView { store: after.store, ..g })
            &&& one_store(g.store, after.store)
            &&& string_taken(g, ptr, Ok(json), after.store)
        },
        Err(f) => exists|after: wasmtime::Store<wasmtime::StoreLimits>| #[trigger]
            string_taken(g, ptr, Err(f), after),
    }
}

/// How a plugin is loaded: it is entered, and the string that its `manifest`
/// points to is taken.
pub open spec fn is_load(
    engine: wasmtime::Engine,
    wasm: Seq<u8>,
    limits: PluginLimits,
    fuel: u64,
    out: Loaded,
) -> bool {
    exists|r: Result<(GuestView, i32), FaultView>|
        {
            &&& #[trigger] entered(engine, wasm, limits, fuel, r)
            &&& match r {
                Err(f) => out == Err::<(GuestView, Seq<char>), FaultView>(f),
                Ok((g, ptr)) => manifest_taken(g, ptr, out),
            }
        }
}

/// What came of loading, by views.
pub open spec fn load_view(r: Result<(Guest, String), GuestFault>) -> Loaded {
    match r {
        Ok((guest, json)) => Ok((guest@, json@)),
        Err(f) => Err(f@),
    }
}

/// What came of entering, by views.
pub open spec fn entry_view(r: Result<(Guest, i32), GuestFault>) -> Result<
    (GuestView, i32),
    FaultView,
> {
    match r {
        Ok((guest, ptr)) => Ok((guest@, ptr)),
        Err(f) => Err(f@),
    }
}

/// A result of the ABI's own rules as a fault.
fn abi<T>(r: Result<T, SkadooshError>) -> (out: Result<T, GuestFault>)
    ensures
        match r {
            Ok(v) => out == Ok::<T, GuestFault>(v),
            Err(e) => out matches Err(f) && f@ == FaultView::Abi(e.text()),
        },
{
    match r {
        Ok(v) => Ok(v),
        Err(e) => Err(GuestFault::Abi(e.message())),
    }
}

/// Fetches a required exported function.
fn required_func(
    instance: &wasmtime::Instance,
    store: &mut wasmtime::Store<wasmtime::StoreLimits>,
    name: &str,
) -> (r: Result<wasmtime::Func, GuestFault>)
    requires
        instance_store(*instance) == store_id(*old(store)),
    ensures
        looked_up(*old(store), *final(store)),
        match r {
            Ok(f) => func_store(f) == store_id(*final(store)) && instance_func(*instance, name@)
                == Some(f),
            Err(f) => f@ == FaultView::NoExport(name@) && instance_func(*instance, name@) is None,
        },
{
    match exported_func(instance, store, name) {
        Some(f) => Ok(f),
        None => Err(GuestFault::NoExport(name.to_owned())),
    }
}

/// Calls a function that takes `params` and returns one `i32`.
fn call_i32(
    func: &wasmtime::Func,
    store: &mut wasmtime::Store<wasmtime::StoreLimits>,
    params: &Vec<i32>,
) -> (r: Result<i32, GuestFault>)
    requires
        func_store(*func) == store_id(*old(store)),
        store_meters(*old(store)),
    ensures
        one_store(*old(store), *final(store)),
        exists|x: Reply|
            {
                &&& #[trigger] call_made(*func, *old(store), params@, 1, x, *final(store))
                &&& match r {
                    Ok(v) => i32_of(x) == Ok::<i32, FaultView>(v) && x == Ok::<
                        Option<i32>,
                        Seq<char>,
                    >(Some(v)),
                    Err(f) => i32_of(x) == Err::<i32, FaultView>(f@),
                }
            },
{
    match call_func(func, store, params, 1) {
        Ok(Some(v)) => Ok(v),
        Ok(None) => Err(GuestFault::NotI32),
        Err(e) => Err(GuestFault::Trapped(e)),
    }
}

impl Guest {
    /// The exports belong to the store, and its engine meters fuel.
    pub closed spec fn wf(&self) -> bool {
        &&& memory_store(self.memory) == store_id(self.store)
        &&& func_store(self.alloc) == store_id(self.store)
        &&& func_store(self.dealloc) == store_id(self.store)
        &&& func_store(self.execute) == store_id(self.store)
        &&& store_meters(self.store)
    }

    /// The bytes of the plugin's memory.
    pub open spec fn bytes(&self) -> Seq<u8> {
        memory_bytes(self@.memory, self@.store)
    }

    /// Whether only the state of the store differs from another guest.
    pub open spec fn continues(&self, before: GuestView) -> bool {
        &&& self@ == (GuestView { store: self@.store, ..before })
        &&& one_store(before.store, self@.store)
    }

    /// Compiles and instantiates a `.wasm` module, and reads its manifest:
    /// the length-prefixed string that `manifest` points to. `limits` and
    /// `fuel` bound the sandbox, from instantiation on. The buffer of the
    /// manifest is freed (best-effort). Which bytes are a module, and what its
    /// code answers, is up to the outside; each failure is the one that the
    /// outside call came to.
    pub fn load(engine: &PluginEngine, wasm: &[u8], limits: &PluginLimits, fuel: u64) -> (r: Result<
        (Guest, String),
        GuestFault,
    >)
        ensures
            is_load(engine@, wasm@, *limits, fuel, load_view(r)),
            r matches Ok((guest, _)) ==> guest.wf() && is_sandboxed(guest@.store, *limits),
    {
        let entry = Self::enter(engine, wasm, limits, fuel);
        let ghost way = entry_view(entry);
        assert(entered(engine@, wasm@, *limits, fuel, way));
        let (mut guest, ptr) = match entry {
            Ok(g) => g,
            Err(f) => {
                return Err(f);
            },
        };
        let ghost before = guest@;
        let taken = guest.take_string(ptr);
        match taken {
            Ok(json) => {
                assert(manifest_taken(before, ptr, Ok((guest@, json@))));
                Ok((guest, json))
            },
            Err(f) => {
                assert(string_taken(before, ptr, Err(f@), guest@.store));
                assert(manifest_taken(before, ptr, Err(f@)));
                Err(f)
            },
        }
    }

    /// Instantiates a module and calls its `manifest`.
    fn enter(engine: &PluginEngine, wasm: &[u8], limits: &PluginLimits, fuel: u64) -> (r: Result<
        (Guest, i32),
        GuestFault,
    >)
        ensures
            entered(engine@, wasm@, *limits, fuel, entry_view(r)),
            r matches Ok((guest, _)) ==> guest.wf() && is_sandboxed(guest@.store, *limits),
    {
        proof {
            use_type_invariant(engine);
        }
        let module = match compile(&engine.engine, wasm) {
            Ok(m) => m,
            Err(e) => {
                return Err(GuestFault::Compile(e));
            },
        };
        let ghost compiled: Result<wasmtime::Module, Seq<char>> = Ok(module);
        assert(compile_made(engine@, wasm@, compiled));
        let caps = store_limits(limits.max_memory_bytes, limits.max_table_elements);
        let mut store = new_store(&engine.engine, caps);
        if let Err(e) = set_fuel(&mut store, fuel) {
            return Err(GuestFault::Fuel(e));
        }
        let ghost fresh = store;
        let instance = match instantiate(&mut store, &module) {
            Ok(i) => i,
            Err(e) => {
                assert(module_entered(
                    engine@,
                    module,
                    *limits,
                    fuel,
                    Err(FaultView::Instantiate(e@)),
                ));
                return Err(GuestFault::Instantiate(e));
            },
        };
        let ghost made: Result<wasmtime::Instance, Seq<char>> = Ok(instance);
        assert(instantiate_made(module, fresh, made, store));
        let r = Self::enter_instance(&instance, store);
        assert(module_entered(engine@, module, *limits, fuel, entry_view(r)));
        r
    }

    /// Fetches the exports of an instance and calls its `manifest`.
    fn enter_instance(
        instance: &wasmtime::Instance,
        store: wasmtime::Store<wasmtime::StoreLimits>,
    ) -> (r: Result<(Guest, i32), GuestFault>)
        requires
            instance_store(*instance) == store_id(store),
            store_meters(store),
        ensures
            instance_entered(*instance, store, entry_view(r)),
            r matches Ok((guest, _)) ==> guest.wf() && one_store(store, guest@.store),
    {
        let ghost given = store;
        let mut store = store;
        let memory = match exported_memory(instance, &mut store, "memory") {
            Some(m) => m,
            None => {
                return Err(GuestFault::NoMemory);
            },
        };
        let alloc = match required_func(instance, &mut store, "alloc") {
            Ok(f) => f,
            Err(f) => {
                return Err(f);
            },
        };
        let dealloc = match required_func(instance, &mut store, "dealloc") {
            Ok(f) => f,
            Err(f) => {
                return Err(f);
            },
        };
        let manifest = match required_func(instance, &mut store, "manifest") {
            Ok(f) => f,
            Err(f) => {
                return Err(f);
            },
        };
        let execute = match required_func(instance, &mut store, "execute") {
            Ok(f) => f,
            Err(f) => {
                return Err(f);
            },
        };
        let params: Vec<i32> = Vec::new();
        let ghost before = store;
        proof {
            assert(missing_export(*instance) is None);
            assert(params@ =~= Seq::<i32>::empty());
            assert(looked_up(given, before));
        }
        let answer = call_i32(&manifest, &mut store, &params);
        let ghost reply = choose|x: Reply|
            #![trigger call_made(manifest, before, params@, 1, x, store)]
            call_made(manifest, before, params@, 1, x, store) && match answer {
                Ok(v) => i32_of(x) == Ok::<i32, FaultView>(v),
                Err(f) => i32_of(x) == Err::<i32, FaultView>(f@),
            };
        proof {
            assert(call_made(
                instance_func(*instance, "manifest"@)->0,
                before,
                Seq::<i32>::empty(),
                1,
                reply,
                store,
            ));
        }
        match answer {
            Ok(ptr) => Ok((Guest { store, memory, alloc, dealloc, execute }, ptr)),
            Err(f) => Err(f),
        }
    }

    /// The length-prefixed string at `ptr`.
    pub fn read_string(&self, ptr: i32) -> (r: Result<String, SkadooshError>)
        requires
            self.wf(),
        ensures
            outcome(r) == prefixed_in(self.bytes(), ptr),
    {
        read_prefixed(memory_data(&self.memory, &self.store), ptr)
    }

    /// Reads the length-prefixed string at `ptr` and frees its buffer
    /// (best-effort — a bump allocator may no-op).
    fn take_string(&mut self, ptr: i32) -> (r: Result<String, GuestFault>)
        requires
            old(self).wf(),
        ensures
            final(self).wf(),
            final(self).continues(old(self)@),
            string_taken(old(self)@, ptr, told(r), final(self)@.store),
    {
        let text = match abi(self.read_string(ptr)) {
            Ok(s) => s,
            Err(f) => {
                return Err(f);
            },
        };
        let total: i32 = match abi(result_buffer_len(text.as_str())) {
            Ok(n) => n,
            Err(f) => {
                return Err(f);
            },
        };
        self.free(ptr, total);
        Ok(text)
    }

    /// Frees a buffer (best-effort).
    fn free(&mut self, ptr: i32, len: i32)
        requires
            old(self).wf(),
        ensures
            final(self).wf(),
            final(self).continues(old(self)@),
            exists|d: Reply| #[trigger]
                call_made(
                    old(self)@.dealloc,
                    old(self)@.store,
                    two_args(ptr, len),
                    0,
                    d,
                    final(self)@.store,
                ),
    {
        let params: Vec<i32> = vec![ptr, len];
        assert(params@ =~= two_args(ptr, len));
        let _ = call_func(&self.dealloc, &mut self.store, &params, 0);
    }

    /// Runs the plugin's `execute` export: writes `input` into plugin memory
    /// via `alloc`, calls `execute(ptr, len)`, reads the length-prefixed
    /// result, and `dealloc`s both buffers (best-effort). Fuel is refreshed
    /// before the call so prior runs cannot exhaust the budget.
    pub fn run(&mut self, fuel: u64, input: &str) -> (r: Result<String, GuestFault>)
        requires
            old(self).wf(),
        ensures
            final(self).wf(),
            final(self).continues(old(self)@),
            guest_run(old(self)@, fuel, input@, told(r), final(self)@.store),
    {
        if let Err(e) = set_fuel(&mut self.store, fuel) {
            return Err(GuestFault::Fuel(e));
        }
        let ghost fuelled = self.store;
        assert(fuel_left(fuelled) == fuel);
        self.run_text(input)
    }

    /// Runs a fuelled guest on an input.
    fn run_text(&mut self, input: &str) -> (r: Result<String, GuestFault>)
        requires
            old(self).wf(),
        ensures
            final(self).wf(),
            final(self).continues(old(self)@),
            text_run(old(self)@, input@, told(r), final(self)@.store),
    {
        let bytes: &[u8] = input.as_bytes();
        let params: Vec<i32> = vec![abi_len(bytes.len())];
        assert(params@ =~= one_arg(#[verifier::truncate] (bytes@.len() as i32)));
        let ptr: i32 = match call_i32(&self.alloc, &mut self.store, &params) {
            Ok(p) => p,
            Err(f) => {
                return Err(f);
            },
        };
        let size: usize = memory_data(&self.memory, &self.store).len();
        proof {
            let a = choose|x: Reply|
                #![trigger call_made(self.alloc, old(self).store, params@, 1, x, self.store)]
                call_made(self.alloc, old(self).store, params@, 1, x, self.store) && x == Ok::<
                    Option<i32>,
                    Seq<char>,
                >(Some(ptr));
            let len = #[verifier::truncate] (vstd::utf8::encode_utf8(input@).len() as i32);
            assert(call_made(
                old(self)@.alloc,
                old(self)@.store,
                one_arg(len),
                1,
                a,
                self.store,
            ));
            assert(i32_of(a) == Ok::<i32, FaultView>(ptr));
            assert(size == memory_bytes(old(self)@.memory, self.store).len());
        }
        let buffer = match abi(input_buffer(ptr, bytes.len(), size)) {
            Ok(b) => b,
            Err(f) => {
                return Err(f);
            },
        };
        let ghost allocated = self.store;
        match write_memory(&self.memory, &mut self.store, ptr as usize, bytes) {
            Ok(_) => {},
            Err(e) => {
                return Err(GuestFault::NotWritten(e));
            },
        }
        assert(written(self.memory, allocated, ptr as int, bytes@, self.store));
        self.run_input(buffer.ptr, buffer.len)
    }

    /// Runs the input that stands in the guest's memory.
    fn run_input(&mut self, ptr: i32, len: i32) -> (r: Result<String, GuestFault>)
        requires
            old(self).wf(),
        ensures
            final(self).wf(),
            final(self).continues(old(self)@),
            input_run(old(self)@, ptr, len, told(r), final(self)@.store),
    {
        let params: Vec<i32> = vec![ptr, len];
        assert(params@ =~= two_args(ptr, len));
        let result: i32 = match call_i32(&self.execute, &mut self.store, &params) {
            Ok(p) => p,
            Err(f) => {
                return Err(f);
            },
        };
        self.free(ptr, len);
        self.take_string(result)
    }
}

} // verus!
