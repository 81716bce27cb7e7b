//! WebAssembly plugins, in their sandbox.

use skadoosh::plugins::{
    abi_len, default_plugins_dir, input_buffer, is_plugin_file, plugin_tool_definition,
    read_prefixed, result_buffer_len, Guest, GuestFault, LoadedPlugin, PluginEngine, PluginLimits,
    PluginManager, PluginManifest, DEFAULT_FUEL, DEFAULT_MAX_MEMORY_BYTES,
    DEFAULT_MAX_TABLE_ELEMENTS,
};

fn leb(mut n: usize) -> Vec<u8> {
    let mut out = Vec::new();
    loop {
        let byte = (n & 0x7f) as u8;
        n >>= 7;
        if n == 0 {
            out.push(byte);
            return out;
        }
        out.push(byte | 0x80);
    }
}

fn section(id: u8, body: &[u8]) -> Vec<u8> {
    let mut out = vec![id];
    out.extend(leb(body.len()));
    out.extend_from_slice(body);
    out
}

fn export(name: &str, kind: u8, index: u8) -> Vec<u8> {
    let mut out = leb(name.len());
    out.extend_from_slice(name.as_bytes());
    out.push(kind);
    out.push(index);
    out
}

fn body(code: &[u8]) -> Vec<u8> {
    let mut inner = vec![0];
    inner.extend_from_slice(code);
    inner.push(0x0b);
    let mut out = leb(inner.len());
    out.extend(inner);
    out
}

/// A plugin with this manifest and these instructions in `execute`.
fn module(manifest: &str, execute: &[u8]) -> Vec<u8> {
    let mut wasm = b"\0asm\x01\0\0\0".to_vec();
    let types = [
        4, 0x60, 1, 0x7f, 1, 0x7f, 0x60, 2, 0x7f, 0x7f, 0, 0x60, 0, 1, 0x7f, 0x60, 2, 0x7f, 0x7f,
        1, 0x7f,
    ];
    wasm.extend(section(1, &types));
    wasm.extend(section(3, &[4, 0, 1, 2, 3]));
    wasm.extend(section(5, &[1, 0, 1]));
    let mut exports = vec![5];
    exports.extend(export("memory", 2, 0));
    exports.extend(export("alloc", 0, 0));
    exports.extend(export("dealloc", 0, 1));
    exports.extend(export("manifest", 0, 2));
    exports.extend(export("execute", 0, 3));
    wasm.extend(section(7, &exports));
    let mut code = vec![4];
    code.extend(body(&[0x41, 0x80, 0x08]));
    code.extend(body(&[]));
    code.extend(body(&[0x41, 0x10]));
    code.extend(body(execute));
    wasm.extend(section(10, &code));
    let mut data = vec![1, 0, 0x41, 0x10, 0x0b];
    let mut text = (manifest.len() as u32).to_le_bytes().to_vec();
    text.extend_from_slice(manifest.as_bytes());
    data.extend(leb(text.len()));
    data.extend(text);
    wasm.extend(section(11, &data));
    wasm
}

/// Returns its input: the length at 2048, the bytes behind it.
const ECHO: [u8; 22] = [
    0x41, 0x80, 0x10, 0x20, 1, 0x36, 2, 0, 0x41, 0x84, 0x10, 0x20, 0, 0x20, 1, 0xfc, 0x0a, 0, 0,
    0x41, 0x80, 0x10,
];

/// Runs forever.
const SPIN: [u8; 6] = [0x03, 0x40, 0x0c, 0, 0x0b, 0x00];

fn limits() -> PluginLimits {
    PluginLimits {
        max_memory_bytes: DEFAULT_MAX_MEMORY_BYTES,
        max_table_elements: DEFAULT_MAX_TABLE_ELEMENTS,
    }
}

fn engine() -> PluginEngine {
    match PluginEngine::new() {
        Ok(e) => e,
        Err(e) => panic!("{}", e.message()),
    }
}

fn load(wasm: &[u8]) -> Result<(Guest, String), GuestFault> {
    Guest::load(&engine(), wasm, &limits(), DEFAULT_FUEL)
}

fn manifest(name: &str) -> PluginManifest {
    PluginManifest {
        name: name.to_string(),
        description: "Echoes.".to_string(),
        version: "1".to_string(),
        parameters: None,
    }
}

fn plugin(name: &str, execute: &[u8]) -> LoadedPlugin {
    let (guest, json) = load(&module("{\"name\":\"echo\"}", execute)).ok().unwrap();
    assert_eq!(json, "{\"name\":\"echo\"}");
    LoadedPlugin::load("echo.wasm", manifest(name), guest)
        .ok()
        .unwrap()
}

#[test]
fn plugins_answer_from_their_sandbox() {
    let mut manager = PluginManager::new();
    manager.load_path(plugin("echo", &ECHO)).unwrap();
    assert_eq!(manager.run("echo", "héllo").unwrap(), "héllo");
    assert_eq!(manager.run("echo", "").unwrap(), "");
    assert!(manager.has("echo"));
    assert_eq!(manager.len(), 1);
    assert_eq!(manager.plugin(0).path(), "echo.wasm");
    assert_eq!(manager.manifests()[0].name, "echo");
    assert_eq!(manager.tool_definitions()[0].function.name, "echo");
    assert!(manager.run("none", "x").is_err());
}

#[test]
fn runaway_plugins_are_stopped() {
    let mut manager = PluginManager::new();
    manager.load_path(plugin("spin", &SPIN)).unwrap();
    let err = manager.run("spin", "x").unwrap_err().message();
    assert!(err.contains("trapped"), "{err}");
    // The budget is fresh for the next call.
    assert!(manager.run("spin", "x").is_err());
}

#[test]
fn faulty_modules_are_named() {
    assert!(matches!(load(b"junk"), Err(GuestFault::Compile(_))));
    let bare = b"\0asm\x01\0\0\0".to_vec();
    assert!(matches!(load(&bare), Err(GuestFault::NoMemory)));
    let mut only_memory = bare.clone();
    only_memory.extend(section(5, &[1, 0, 1]));
    let mut exports = vec![1];
    exports.extend(export("memory", 2, 0));
    only_memory.extend(section(7, &exports));
    match load(&only_memory) {
        Err(f) => assert_eq!(
            f.message("p.wasm"),
            "plugin p.wasm missing required export 'alloc'"
        ),
        Ok(_) => panic!("expected a fault"),
    }
    // One page is 64 KiB: a lower bound on memory keeps the module out.
    let tight = PluginLimits {
        max_memory_bytes: 1000,
        max_table_elements: 0,
    };
    assert!(matches!(
        Guest::load(&engine(), &module("{}", &ECHO), &tight, DEFAULT_FUEL),
        Err(GuestFault::Instantiate(_))
    ));
    assert!(matches!(
        Guest::load(&engine(), &module("{}", &ECHO), &limits(), 0),
        Err(GuestFault::Trapped(_))
    ));
    assert!(limits().memory_growing(1));
    assert!(!tight.memory_growing(1001));
    assert!(!tight.table_growing(1));
}

#[test]
fn the_first_plugin_under_a_name_stays() {
    let mut manager = PluginManager::with_limits(10_000, 1 << 20, 16);
    assert_eq!(manager.fuel(), 10_000);
    assert_eq!(manager.limits().max_memory_bytes, 1 << 20);
    manager.load_directory(vec![
        Some(plugin("a", &ECHO)),
        None,
        Some(plugin("b", &ECHO)),
        Some(plugin("a", &SPIN)),
    ]);
    assert_eq!(manager.len(), 2);
    assert_eq!(manager.find("b"), Some(1));
    assert_eq!(manager.run("a", "x").unwrap(), "x");
    assert!(manager.load_path(plugin("a", &ECHO)).is_err());
}

#[test]
fn prefixed_strings_are_read() {
    let mut memory = vec![0u8; 4];
    memory.extend_from_slice(&2u32.to_le_bytes());
    memory.extend_from_slice(b"hi");
    assert_eq!(read_prefixed(&memory, 4).unwrap(), "hi");
    assert!(read_prefixed(&memory, -1).is_err());
    assert!(read_prefixed(&memory, 8).is_err());
    memory[4] = 9;
    assert!(read_prefixed(&memory, 4).is_err());
    memory[4] = 1;
    memory[8] = 0xff;
    assert!(read_prefixed(&memory, 4).is_err());
    assert_eq!(abi_len(7), 7);
    assert_eq!(result_buffer_len("hi").unwrap(), 6);
    assert!(input_buffer(8, 4, 12).is_ok());
    assert!(input_buffer(9, 4, 12).is_err());
    assert!(input_buffer(-1, 4, 12).is_err());
}

#[test]
fn plugin_files_are_found() {
    assert!(is_plugin_file(Some("wasm"), true));
    assert!(!is_plugin_file(Some("wasm"), false));
    assert!(!is_plugin_file(Some("txt"), true));
    assert!(default_plugins_dir(Some("/home/x"))
        .unwrap()
        .starts_with("/home/x/"));
    assert_eq!(default_plugins_dir(None), None);
    let tool = plugin_tool_definition(&manifest("m"));
    assert_eq!(tool.function.name, "m");
}
