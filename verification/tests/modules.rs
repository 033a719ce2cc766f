use wasmtime_run::command::{
    CommonOptions, Features, OsText, PathArg, RunCommand, WasiModules, WasmFeatures,
};
use wasmtime_run::coredump::{generate_coredump, is_dumpable};
use wasmtime_run::error::Problem;
use wasmtime_run::format::{is_parsable, read_format, PathText};
use wasmtime_run::plan::{Event, Frame, Location, ModuleKind, Source, Target};

fn os_text(text: &str) -> OsText {
    OsText {
        utf8: Some(text.to_string()),
        lossy: text.to_string(),
        quoted: format!("{:?}", text),
    }
}

fn broken_text(lossy: &str) -> OsText {
    OsText {
        utf8: None,
        lossy: lossy.to_string(),
        quoted: format!("\"{}\"", lossy),
    }
}

fn path_text(text: &str) -> PathText {
    PathText {
        text: Some(text.to_string()),
        lossy: text.to_string(),
    }
}

fn broken_path(lossy: &str) -> PathText {
    PathText {
        text: None,
        lossy: lossy.to_string(),
    }
}

fn path_arg(text: &str) -> PathArg {
    PathArg {
        whole: os_text(text),
        components: text
            .split('/')
            .filter(|part| !part.is_empty())
            .map(os_text)
            .collect(),
    }
}

fn command(args: &[&str]) -> RunCommand {
    RunCommand {
        common: CommonOptions {
            fuel: None,
            wasi_modules: None,
            wasm_features: None,
        },
        allow_unknown_exports: false,
        trap_unknown_imports: false,
        default_values_unknown_imports: false,
        allow_precompiled: false,
        listenfd: false,
        tcplisten: vec![],
        dirs: vec![],
        vars: vec![],
        invoke: None,
        map_dirs: vec![],
        graphs: vec![],
        preloads: vec![],
        wasm_timeout: None,
        profile: None,
        coredump_on_trap: None,
        max_memory_size: None,
        max_table_elements: None,
        max_instances: None,
        max_tables: None,
        max_memories: None,
        trap_on_grow_failure: false,
        wmemcheck: false,
        module_and_args: args.iter().map(|arg| path_arg(arg)).collect(),
        preview2: false,
    }
}

fn everything() -> Features {
    Features {
        unix: true,
        component_model: true,
        wasi_nn: true,
        wasi_threads: true,
        wasi_http: false,
    }
}

fn allow_components(command: &mut RunCommand) {
    command.common.wasm_features = Some(WasmFeatures {
        component_model: Some(true),
    });
}

const EMPTY_MODULE: [u8; 8] = [0x00, 0x61, 0x73, 0x6d, 0x01, 0x00, 0x00, 0x00];
const EMPTY_COMPONENT: [u8; 8] = [0x00, 0x61, 0x73, 0x6d, 0x0d, 0x00, 0x01, 0x00];

#[test]
fn text_format_becomes_a_binary() {
    let engine = wasmtime::Engine::default();
    let command = command(&["a.wat"]);
    let loaded = command.load_module_contents(&everything(), &engine, &path_text("a.wat"), b"(module)", true);
    assert_eq!(
        loaded,
        Ok((ModuleKind::Core, Source::Wasm(EMPTY_MODULE.to_vec())))
    );
}

#[test]
fn binaries_stay_as_they_are() {
    let engine = wasmtime::Engine::default();
    let command = command(&["a.wasm"]);
    let loaded =
        command.load_module_contents(&everything(), &engine, &path_text("a.wasm"), &EMPTY_MODULE, false);
    assert_eq!(
        loaded,
        Ok((ModuleKind::Core, Source::Wasm(EMPTY_MODULE.to_vec())))
    );
}

#[test]
fn malformed_text_is_reported_with_its_path() {
    let engine = wasmtime::Engine::default();
    let command = command(&["dir/broken.wat"]);
    let refused = command
        .load_module_contents(&everything(), &engine, &path_text("dir/broken.wat"), b"(module", true)
        .unwrap_err();
    let mut expected = wat::parse_bytes(b"(module").unwrap_err();
    expected.set_path("dir/broken.wat");
    assert_eq!(refused.message(), expected.to_string());
    assert!(refused.message().contains("dir/broken.wat"));
    assert!(matches!(refused, Problem::TextFormat(_)));
}

#[test]
fn a_path_that_is_not_text_is_not_named_in_a_text() {
    let engine = wasmtime::Engine::default();
    let run = command(&["a.wat"]);
    let refused = run
        .load_module_contents(&everything(), &engine, &broken_path("d?r"), b"(module", true)
        .unwrap_err();
    let expected = wat::parse_bytes(b"(module").unwrap_err();
    assert_eq!(refused.message(), expected.to_string());
    assert!(refused.message().contains("<anon>"));
    assert!(!refused.message().contains("d?r"));
    let bytes = [0x28u8, 0xff];
    let refused = run
        .load_module_contents(&everything(), &engine, &broken_path("d?r"), &bytes, true)
        .unwrap_err();
    let mut expected = wat::parse_bytes(&bytes).unwrap_err();
    expected.set_path("d?r");
    assert_eq!(refused.message(), expected.to_string());
    assert!(refused.message().contains("d?r"));
}

#[test]
fn a_text_and_its_binary_are_the_same() {
    let engine = wasmtime::Engine::default();
    let mut run = command(&["a.wat"]);
    allow_components(&mut run);
    for text in ["(module)", "(module (func (export \"f\")))", "(component)"] {
        let wasm = read_format(&path_text("a.wat"), text.as_bytes()).unwrap();
        assert_eq!(wasm, wat::parse_str(text).unwrap());
        assert_eq!(read_format(&broken_path("b?"), &wasm), Ok(wasm.clone()));
        let load = |path: &str, bytes: &[u8], mapped: bool| {
            run.load_module_contents(&everything(), &engine, &path_text(path), bytes, mapped)
        };
        let loaded = load("a.wat", text.as_bytes(), true);
        assert!(loaded.is_ok());
        assert_eq!(load("b.wasm", &wasm, true), loaded);
        assert_eq!(load("b.wasm", &wasm, false), loaded);
    }
}

#[test]
fn mapped_and_read_files_give_the_same() {
    let engine = wasmtime::Engine::default();
    let code = engine.precompile_module(b"(module)").unwrap();
    let mut run = command(&["a.wasm"]);
    for allowed in [false, true] {
        run.allow_precompiled = allowed;
        for bytes in [&b"(module)"[..], b"(module", b"\xff", &EMPTY_COMPONENT, &code] {
            let load = |mapped: bool| {
                let path = path_text("a.wasm");
                run.load_module_contents(&everything(), &engine, &path, bytes, mapped)
            };
            match (load(true), load(false)) {
                (Ok((one, Source::PrecompiledFile)), Ok((other, source))) => {
                    assert_eq!((one, source), (other, Source::PrecompiledBytes));
                }
                (one, other) => assert_eq!(one, other),
            }
        }
    }
}

#[test]
fn what_can_be_parsed() {
    let head = "(component (core type (module (type $t (func)) ";
    for item in [
        "(import \"a\" \"b\" (global (ref $t)))",
        "(import \"a\" \"b\" (table 0 (ref null $t)))",
        "(export \"b\" (global (mut (ref null $t))))",
        "(export \"b\" (table 0 ( (;;)ref;;\n $\"t\")))",
    ] {
        let text = format!("{}{})))", head, item);
        assert!(!is_parsable(text.as_bytes()), "{}", text);
    }
    for text in [
        "",
        "(module",
        "(module (type $t (func)) (import \"a\" \"b\" (global (ref $t))))",
        "(module (type $t (func)) (table $x 0 (ref null $t)))",
        "(component (core type (module (import \"a\" \"b\" (global funcref)))))",
        "(component (core module $m (table $t 1 funcref) (func $f) (elem (i32.const 0) $f)
            (global $g funcref (ref.func $f))))",
        "(component (import \"ref\" (func $f)) (core module $m (global $g (mut i32) (i32.const 0))))",
        "(component (core type (module (type (func)) (import \"a\" \"b\" (global (ref 0))))))",
    ] {
        assert!(is_parsable(text.as_bytes()), "{}", text);
        let complaint = wat::parse_str(text).map_err(|mut e| {
            e.set_path("a.wat");
            e.to_string()
        });
        assert_eq!(read_format(&path_text("a.wat"), text.as_bytes()), complaint);
    }
    let mut binary = EMPTY_COMPONENT.to_vec();
    binary.extend_from_slice(b"component module global ref $");
    assert!(is_parsable(&binary));
    binary[0] = 0xff;
    assert!(is_parsable(&binary));
    binary[0] = b' ';
    binary[4..8].fill(b' ');
    assert!(!is_parsable(&binary));
    let engine = wasmtime::Engine::default();
    assert!(is_parsable(&engine.precompile_module(b"(module)").unwrap()));
    let mut long = vec![b' '; 0x4_0000];
    assert!(is_parsable(&long));
    long.extend_from_slice(b"(item");
    assert!(!is_parsable(&long));
    long.push(b's');
    assert!(is_parsable(&long));
}

#[test]
fn components_have_to_be_allowed() {
    let engine = wasmtime::Engine::default();
    let mut run = command(&["a.wasm"]);
    let load = |run: &RunCommand, features: &Features| {
        run.load_module_contents(features, &engine, &path_text("a.wasm"), &EMPTY_COMPONENT, true)
    };
    let refused = load(&run, &everything()).unwrap_err();
    assert_eq!(refused, Problem::ComponentNotAllowed);
    assert_eq!(
        refused.message(),
        "cannot execute a component without `--wasm-features component-model`"
    );
    allow_components(&mut run);
    assert_eq!(
        load(&run, &everything()),
        Ok((ModuleKind::Component, Source::Wasm(EMPTY_COMPONENT.to_vec())))
    );
    let mut without = everything();
    without.component_model = false;
    let refused = load(&run, &without).unwrap_err();
    assert_eq!(refused, Problem::ComponentsNotSupported);
    assert_eq!(
        refused.message(),
        "support for components was not enabled at compile time"
    );
}

#[test]
fn precompiled_modules_have_to_be_allowed() {
    let engine = wasmtime::Engine::default();
    let code = engine.precompile_module(b"(module)").unwrap();
    let mut run = command(&["a.cwasm"]);
    let refused = run
        .load_module_contents(&everything(), &engine, &path_text("a.cwasm"), &code, true)
        .unwrap_err();
    assert_eq!(refused, Problem::PrecompiledNotAllowed);
    assert_eq!(
        refused.message(),
        "running a precompiled module requires the `--allow-precompiled` flag"
    );
    run.allow_precompiled = true;
    assert_eq!(
        run.load_module_contents(&everything(), &engine, &path_text("a.cwasm"), &code, true),
        Ok((ModuleKind::Core, Source::PrecompiledFile))
    );
    assert_eq!(
        run.load_module_contents(&everything(), &engine, &path_text("a.cwasm"), &code, false),
        Ok((ModuleKind::Core, Source::PrecompiledBytes))
    );
}

#[test]
fn precompiled_components_have_to_be_allowed_twice() {
    let mut config = wasmtime::Config::new();
    config.wasm_component_model(true);
    let engine = wasmtime::Engine::new(&config).unwrap();
    let code = engine.precompile_component(b"(component)").unwrap();
    let mut run = command(&["a.cwasm"]);
    let load = |run: &RunCommand, features: &Features| {
        run.load_module_contents(features, &engine, &path_text("a.cwasm"), &code, true)
    };
    assert_eq!(
        load(&run, &everything()),
        Err(Problem::PrecompiledNotAllowed)
    );
    run.allow_precompiled = true;
    assert_eq!(load(&run, &everything()), Err(Problem::ComponentNotAllowed));
    allow_components(&mut run);
    assert_eq!(
        load(&run, &everything()),
        Ok((ModuleKind::Component, Source::PrecompiledFile))
    );
    let mut without = everything();
    without.component_model = false;
    assert_eq!(load(&run, &without), Err(Problem::ComponentsNotSupported));
}

#[test]
fn kinds_of_contents_by_themselves() {
    let mut run = command(&["a.wasm"]);
    run.allow_precompiled = true;
    assert_eq!(
        run.load_precompiled(&everything(), ModuleKind::Core, true),
        Ok((ModuleKind::Core, Source::PrecompiledFile))
    );
    assert_eq!(
        run.load_wasm(&everything(), vec![1, 2, 3]),
        Ok((ModuleKind::Core, Source::Wasm(vec![1, 2, 3])))
    );
    assert_eq!(
        run.load_wasm(&everything(), EMPTY_COMPONENT.to_vec()),
        Err(Problem::ComponentNotAllowed)
    );
}

#[test]
fn what_was_detected_decides() {
    let mut run = command(&["a.wasm"]);
    run.allow_precompiled = true;
    let text = b"(module)";
    assert_eq!(
        run.load_detected(&everything(), Some(ModuleKind::Core), &path_text("a.wasm"), text, true),
        Ok((ModuleKind::Core, Source::PrecompiledFile))
    );
    assert_eq!(
        run.load_detected(&everything(), Some(ModuleKind::Component), &path_text("a.wasm"), text, true),
        Err(Problem::ComponentNotAllowed)
    );
    assert_eq!(
        run.load_detected(&everything(), None, &path_text("a.wasm"), text, true),
        Ok((ModuleKind::Core, Source::Wasm(EMPTY_MODULE.to_vec())))
    );
    assert!(matches!(
        run.load_detected(&everything(), None, &path_text("a.wasm"), &[0xff], true),
        Err(Problem::TextFormat(_))
    ));
}

#[test]
fn precompiled_code_is_marked() {
    let engine = wasmtime::Engine::default();
    let code = engine.precompile_module(b"(module)").unwrap();
    assert_eq!(&code[..4], b"\x7fELF");
    assert_eq!((code[7], code[8]), (200, 0));
    assert_eq!((code[4], code[5], &code[48..52]), (2, 1, &[1u8, 0, 0, 0][..]));
    assert!(matches!(
        Event::contents(&engine, &code),
        Event::Contents {
            detected: Some(ModuleKind::Core),
            ..
        }
    ));
    assert!(matches!(
        Event::contents(&engine, &EMPTY_MODULE),
        Event::Contents { detected: None, .. }
    ));
}

#[test]
fn features_that_say_nothing_allow_no_components() {
    let mut run = command(&["a.wasm"]);
    assert_eq!(
        run.ensure_allow_components(),
        Err(Problem::ComponentNotAllowed)
    );
    run.common.wasm_features = Some(WasmFeatures {
        component_model: None,
    });
    assert_eq!(
        run.ensure_allow_components(),
        Err(Problem::ComponentNotAllowed)
    );
    run.common.wasm_features = Some(WasmFeatures {
        component_model: Some(false),
    });
    assert_eq!(
        run.ensure_allow_components(),
        Err(Problem::ComponentNotAllowed)
    );
    allow_components(&mut run);
    assert_eq!(run.ensure_allow_components(), Ok(()));
    run.allow_precompiled = true;
    assert_eq!(run.ensure_allow_precompiled(), Ok(()));
}

#[test]
fn a_dash_is_the_standard_input() {
    let mut run = command(&["-"]);
    run.preloads = vec![
        ("a".to_string(), "-".to_string()),
        ("b".to_string(), "b.wasm".to_string()),
    ];
    let unix = everything();
    let mut other = everything();
    other.unix = false;
    assert_eq!(run.load_module(&unix, Target::Main), Location::Stdin);
    assert_eq!(run.load_module(&unix, Target::Preload(0)), Location::Stdin);
    assert_eq!(run.load_module(&unix, Target::Preload(1)), Location::Given);
    assert_eq!(run.load_module(&other, Target::Main), Location::Given);
    assert_eq!(
        run.show_path(Target::Main, Location::Stdin),
        path_text("/dev/stdin")
    );
    assert_eq!(run.show_path(Target::Main, Location::Given), path_text("-"));
    assert_eq!(
        run.show_path(Target::Preload(1), Location::Given),
        path_text("b.wasm")
    );
    let named = command(&["/dev/stdin"]);
    assert_eq!(named.load_module(&unix, Target::Main), Location::Given);
    assert_eq!(
        named.show_path(Target::Main, Location::Given),
        run.show_path(Target::Main, Location::Stdin)
    );
    run.module_and_args[0].whole = broken_text("-?");
    assert_eq!(run.load_module(&unix, Target::Main), Location::Given);
    assert_eq!(
        run.show_path(Target::Main, Location::Given),
        broken_path("-?")
    );
}

#[test]
fn programs_are_told_their_base_name() {
    let run = command(&["/some/where/prog.wasm", "-x", "a/b"]);
    assert_eq!(
        run.compute_argv(),
        Ok(vec![
            "prog.wasm".to_string(),
            "-x".to_string(),
            "a/b".to_string()
        ])
    );
}

#[test]
fn arguments_of_invoked_functions_are_not_for_the_program() {
    let mut run = command(&["/some/where/prog.wasm", "1", "2"]);
    run.invoke = Some("add".to_string());
    assert_eq!(run.compute_argv(), Ok(vec!["prog.wasm".to_string()]));
    run.module_and_args[1].whole = broken_text("?");
    assert_eq!(run.compute_argv(), Ok(vec!["prog.wasm".to_string()]));
}

#[test]
fn arguments_of_programs_are_text() {
    let mut run = command(&["a.wasm", "x", "y"]);
    run.module_and_args[2].whole = broken_text("y?");
    let refused = run.compute_argv().unwrap_err();
    assert_eq!(refused, Problem::ArgumentForProgram("\"y?\"".to_string()));
    assert_eq!(refused.message(), "failed to convert \"y?\" to utf-8");
    run.module_and_args[0].components = vec![broken_text("b?")];
    assert_eq!(
        run.compute_argv(),
        Err(Problem::ArgumentForProgram("\"b?\"".to_string()))
    );
}

#[test]
fn directories_keep_their_name_or_get_one() {
    let mut run = command(&["a.wasm"]);
    run.dirs = vec![".".to_string(), "/tmp".to_string()];
    run.map_dirs = vec![("/guest".to_string(), "/host".to_string())];
    assert_eq!(
        run.compute_preopen_dirs(),
        vec![
            (".".to_string(), ".".to_string()),
            ("/tmp".to_string(), "/tmp".to_string()),
            ("/guest".to_string(), "/host".to_string()),
        ]
    );
}

#[test]
fn wasi_modules_that_are_the_default() {
    let mut run = command(&["a.wasm"]);
    assert_eq!(
        run.enabled_wasi_modules(),
        WasiModules {
            wasi_common: true,
            wasi_nn: false,
            wasi_threads: false,
            wasi_http: false,
        }
    );
    let chosen = WasiModules {
        wasi_common: false,
        wasi_nn: true,
        wasi_threads: false,
        wasi_http: true,
    };
    run.common.wasi_modules = Some(chosen);
    assert_eq!(run.enabled_wasi_modules(), chosen);
}

fn expected_dump(name: &str, frames: &[(u32, u32)]) -> Vec<u8> {
    let program = wasm_encoder::CoreDumpSection::new(name);
    let mut stack = wasm_encoder::CoreDumpStackSection::new("main");
    for (function, offset) in frames {
        stack.frame(0, *function, *offset, [], []);
    }
    let mut module = wasm_encoder::Module::new();
    module.section(&program);
    module.section(&stack);
    module.finish()
}

#[test]
fn core_dumps_name_the_program_and_list_its_stack() {
    let frames = vec![
        Frame {
            func_index: 3,
            func_offset: Some(17),
        },
        Frame {
            func_index: 700,
            func_offset: None,
        },
    ];
    assert!(is_dumpable("prog.wasm", &frames));
    let dump = generate_coredump(&Some(frames), "prog.wasm").unwrap();
    assert_eq!(dump, expected_dump("prog.wasm", &[(3, 17), (700, 0)]));
    assert_eq!(&dump[..8], &EMPTY_MODULE[..]);
    let bytes: Vec<u8> = [
        &EMPTY_MODULE[..],
        b"\x00\x10\x04core\x00\x09prog.wasm",
        b"\x00\x1e\x09corestack\x00\x04main\x02",
        b"\x00\x00\x03\x11\x00\x00",
        b"\x00\x00\xbc\x05\x00\x00\x00",
    ]
    .concat();
    assert_eq!(dump, bytes);
    let none = generate_coredump(&Some(vec![]), "other").unwrap();
    assert_eq!(none, expected_dump("other", &[]));
}

#[test]
fn core_dumps_need_a_stack() {
    let refused = generate_coredump(&None, "prog.wasm").unwrap_err();
    assert_eq!(refused, Problem::NoBacktrace);
    assert_eq!(
        refused.message(),
        "no wasm backtrace found to generate coredump with"
    );
}

#[test]
fn offsets_have_to_fit_in_core_dumps() {
    let frame = |offset: usize| Frame {
        func_index: 0,
        func_offset: Some(offset),
    };
    assert!(is_dumpable("p", &vec![frame(u32::MAX as usize)]));
    assert!(!is_dumpable("p", &vec![frame(0), frame(u32::MAX as usize + 1)]));
}
