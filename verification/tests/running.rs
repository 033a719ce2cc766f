use wasmtime_run::command::{
    CommonOptions, Features, OsText, PathArg, RunCommand, WasiModules, WasmFeatures,
};
use wasmtime_run::error::{Reason, Problem};
use wasmtime_run::execute::{Progress, Step};
use wasmtime_run::parse::{Profile, ProfilingStrategy};
use wasmtime_run::plan::{Cause, Event, Failure, Frame, Location, ModuleKind, Op, Stage, Target};
use wasmtime_run::span::Span;
use wasmtime_run::value::{Val, ValType};

fn os_text(text: &str) -> OsText {
    OsText {
        utf8: Some(text.to_string()),
        lossy: text.to_string(),
        quoted: format!("{:?}", text),
    }
}

fn broken_text(lossy: &str) -> OsText {
    OsText {
        utf8: None,
        lossy: lossy.to_string(),
        quoted: format!("\"{}\"", lossy),
    }
}

fn path_arg(text: &str) -> PathArg {
    PathArg {
        whole: os_text(text),
        components: text
            .split('/')
            .filter(|part| !part.is_empty())
            .map(os_text)
            .collect(),
    }
}

fn command(args: &[&str]) -> RunCommand {
    RunCommand {
        common: CommonOptions {
            fuel: None,
            wasi_modules: None,
            wasm_features: None,
        },
        allow_unknown_exports: false,
        trap_unknown_imports: false,
        default_values_unknown_imports: false,
        allow_precompiled: false,
        listenfd: false,
        tcplisten: vec![],
        dirs: vec![],
        vars: vec![],
        invoke: None,
        map_dirs: vec![],
        graphs: vec![],
        preloads: vec![],
        wasm_timeout: None,
        profile: None,
        coredump_on_trap: None,
        max_memory_size: None,
        max_table_elements: None,
        max_instances: None,
        max_tables: None,
        max_memories: None,
        trap_on_grow_failure: false,
        wmemcheck: false,
        module_and_args: args.iter().map(|arg| path_arg(arg)).collect(),
        preview2: false,
    }
}

fn everything() -> Features {
    Features {
        unix: true,
        component_model: true,
        wasi_nn: true,
        wasi_threads: true,
        wasi_http: false,
    }
}

fn allow_components(command: &mut RunCommand) {
    command.common.wasm_features = Some(WasmFeatures {
        component_model: Some(true),
    });
}

const EMPTY_MODULE: [u8; 8] = [0x00, 0x61, 0x73, 0x6d, 0x01, 0x00, 0x00, 0x00];
const EMPTY_COMPONENT: [u8; 8] = [0x00, 0x61, 0x73, 0x6d, 0x0d, 0x00, 0x01, 0x00];


/// What comes of work where all goes well, for a core module.
fn well<'a>(op: &Op, engine: &'a wasmtime::Engine) -> Event<'a> {
    match op {
        Op::MapFile { .. } => Event::contents(engine, &EMPTY_MODULE),
        Op::ReadFile { .. } => Event::contents(engine, &EMPTY_MODULE),
        Op::ReadVar(_) => Event::Text("inherited".to_string()),
        Op::ForwardVar(_) => Event::Failed("not set".to_string()),
        Op::OpenListenFds => Event::Count(0),
        Op::TakeListener { .. } => Event::Taken(true),
        Op::InspectFunction => Event::Signature(vec![]),
        Op::CallFunction(_) => Event::Returned(vec![]),
        Op::CallRun => Event::Ran(true),
        _ => Event::Done,
    }
}

/// What comes of work where all goes well, for a component.
fn well_for_component<'a>(op: &Op, engine: &'a wasmtime::Engine) -> Event<'a> {
    match op {
        Op::MapFile {
            target: Target::Main,
            ..
        } => Event::contents(engine, &EMPTY_COMPONENT),
        _ => well(op, engine),
    }
}

/// Runs a command on made-up answers: the work that was done, as text, and
/// how the run ended.
fn drive<'a>(
    run: &RunCommand,
    features: &Features,
    answer: &dyn Fn(&Op) -> Event<'a>,
) -> (Vec<String>, Result<(), Failure>) {
    let mut done = vec![];
    let mut progress = Progress::start();
    loop {
        done.push(format!("{:?}", progress.current));
        let event = answer(&progress.current);
        assert!(run.admits(&progress.current, &event));
        match run.execute(features, progress, event) {
            Step::Perform(next) => progress = next,
            Step::Finished(result) => return (done, result),
        }
    }
}

fn drive_well(run: &RunCommand) -> (Vec<String>, Result<(), Failure>) {
    let engine = wasmtime::Engine::default();
    drive(run, &everything(), &|op| well(op, &engine))
}

fn drive_component(run: &RunCommand) -> (Vec<String>, Result<(), Failure>) {
    let engine = wasmtime::Engine::default();
    drive(run, &everything(), &|op| well_for_component(op, &engine))
}

fn component(args: &[&str]) -> RunCommand {
    let mut run = command(args);
    allow_components(&mut run);
    run
}

fn refused(e: Reason) -> Result<(), Failure> {
    Err(Failure {
        cause: Cause::Own(e),
        contexts: vec![],
        in_main: false,
    })
}

fn refused_in_main(e: Reason, path: &str) -> Result<(), Failure> {
    Err(Failure {
        cause: Cause::Own(e),
        contexts: vec![format!("failed to run main module `{}`", path)],
        in_main: true,
    })
}

fn failed(contexts: &[&str], in_main: bool) -> Result<(), Failure> {
    Err(Failure {
        cause: Cause::Outside,
        contexts: contexts.iter().map(|c| c.to_string()).collect(),
        in_main,
    })
}

fn position(done: &[String], op: &str) -> usize {
    match done.iter().position(|o| o == op) {
        Some(i) => i,
        None => panic!("{} not in {:?}", op, done),
    }
}

fn seconds(secs: u64) -> Span {
    Span { secs, nanos: 0 }
}

fn guest_profile() -> Option<Profile> {
    Some(Profile::Guest {
        path: "p.json".to_string(),
        interval: Span {
            secs: 0,
            nanos: 300_000_000,
        },
    })
}

const LOADED_CORE: &str = "LoadModule { target: Main, location: Given, kind: Core, source: Wasm([0, 97, 115, 109, 1, 0, 0, 0]) }";
const LOADED_COMPONENT: &str = "LoadModule { target: Main, location: Given, kind: Component, source: Wasm([0, 97, 115, 109, 13, 0, 1, 0]) }";
const MAIN: &str = "failed to run main module `dir/a.wasm`";

#[test]
fn a_core_module_from_start_to_end() {
    let (done, result) = drive_well(&command(&["dir/a.wasm", "x"]));
    assert_eq!(result, Ok(()));
    assert_eq!(
        done,
        vec![
            "Enter(Run)",
            "InitLogging",
            "BuildConfig",
            "SetWmemcheck(false)",
            "CreateEngine",
            "MapFile { target: Main, location: Given }",
            LOADED_CORE,
            "CreateLinker(Core)",
            "CreateStore",
            "AddPreview1",
            "Enter(Preview1)",
            "NewPreview1",
            "SetArgs([\"a.wasm\", \"x\"])",
            "FinishPreview1",
            "InstallLimits(GivenLimits { memory_size: None, table_elements: None, instances: None, tables: None, memories: None, trap_on_grow_failure: false })",
            "KeepModule { target: Main, name: \"\" }",
            "Enter(Main(Core))",
            "Enter(EpochHandler)",
            "InstantiateMain",
            "LookupDefault",
            "InspectFunction",
            "CallFunction([])",
        ]
    );
}

#[test]
fn a_component_from_start_to_end() {
    let (done, result) = drive_component(&component(&["dir/a.wasm"]));
    assert_eq!(result, Ok(()));
    assert_eq!(
        done[6..],
        vec![
            LOADED_COMPONENT,
            "CreateLinker(Component)",
            "CreateStore",
            "AddCommandWorld",
            "Enter(Preview2)",
            "NewPreview2",
            "SetArgs([\"a.wasm\"])",
            "FinishPreview2",
            "InstallLimits(GivenLimits { memory_size: None, table_elements: None, instances: None, tables: None, memories: None, trap_on_grow_failure: false })",
            "Enter(Main(Component))",
            "Enter(EpochHandler)",
            "InstantiateCommand",
            "CallRun",
        ]
    );
}

#[test]
fn files_that_cannot_be_mapped_are_read() {
    let engine = wasmtime::Engine::default();
    let run = command(&["dir/a.wasm"]);
    let (done, result) = drive(&run, &everything(), &|op| match op {
        Op::MapFile { .. } => Event::Failed("no mapping".to_string()),
        _ => well(op, &engine),
    });
    assert_eq!(result, Ok(()));
    assert_eq!(done[6], "ReadFile { target: Main, location: Given }");
    let (done, result) = drive(&run, &everything(), &|op| match op {
        Op::MapFile { .. } => Event::Failed("no mapping".to_string()),
        Op::ReadFile { .. } => Event::Failed("no file".to_string()),
        _ => well(op, &engine),
    });
    assert_eq!(done.len(), 7);
    assert_eq!(result, failed(&["failed to read file: dir/a.wasm"], false));
}

#[test]
fn standard_input_is_named_in_messages() {
    let engine = wasmtime::Engine::default();
    let run = command(&["-"]);
    let (_, result) = drive(&run, &everything(), &|op| match op {
        Op::MapFile { .. } => Event::Failed("no mapping".to_string()),
        Op::ReadFile { .. } => Event::Failed("no file".to_string()),
        _ => well(op, &engine),
    });
    assert_eq!(result, failed(&["failed to read file: /dev/stdin"], false));
}

#[test]
fn precompiled_code_is_refused_in_a_run() {
    let engine = wasmtime::Engine::default();
    let code = engine.precompile_module(b"(module)").unwrap();
    let mut run = command(&["dir/a.wasm"]);
    let answer = |op: &Op| match op {
        Op::MapFile { .. } => Event::contents(&engine, &code),
        _ => well(op, &engine),
    };
    let (done, result) = drive(&run, &everything(), &answer);
    assert_eq!(result, refused(Problem::PrecompiledNotAllowed));
    assert_eq!(done.len(), 6);
    run.allow_precompiled = true;
    let (done, result) = drive(&run, &everything(), &answer);
    assert_eq!(result, Ok(()));
    assert_eq!(
        done[6],
        "LoadModule { target: Main, location: Given, kind: Core, source: PrecompiledFile }"
    );
}

#[test]
fn components_are_refused_in_a_run() {
    let (done, result) = drive_component(&command(&["dir/a.wasm"]));
    assert_eq!(result, refused(Problem::ComponentNotAllowed));
    assert_eq!(done.len(), 6);
}

#[test]
fn patterns_for_core_dumps_are_refused() {
    let mut run = command(&["dir/a.wasm"]);
    run.coredump_on_trap = Some("core.%p".to_string());
    let (done, result) = drive_well(&run);
    assert_eq!(result, refused(Problem::CoredumpPattern));
    assert_eq!(done.last().unwrap(), LOADED_CORE);
    let e: Reason = Problem::CoredumpPattern;
    assert_eq!(
        e.message(),
        "the coredump-on-trap path does not support patterns yet."
    );
}

#[test]
fn engines_are_configured() {
    let mut run = command(&["dir/a.wasm"]);
    run.wmemcheck = true;
    run.wasm_timeout = Some(seconds(1));
    run.profile = Some(Profile::Native(ProfilingStrategy::JitDump));
    let (done, _) = drive_well(&run);
    assert_eq!(
        done[1..7],
        vec![
            "InitLogging",
            "BuildConfig",
            "EnableEpochInterruption",
            "SetProfiler(JitDump)",
            "SetWmemcheck(true)",
            "CreateEngine",
        ]
    );
    run.profile = guest_profile();
    let (done, _) = drive_well(&run);
    assert_eq!(
        done[3..5],
        vec!["EnableEpochInterruption", "EnableEpochInterruption"]
    );
}

#[test]
fn timers_are_set_before_the_main_module() {
    let mut run = command(&["dir/a.wasm"]);
    run.wasm_timeout = Some(seconds(5));
    let (done, result) = drive_well(&run);
    assert_eq!(result, Ok(()));
    let i = position(&done, "Enter(EpochHandler)");
    assert_eq!(
        done[i + 1..i + 4],
        vec![
            "SetEpochDeadline(1)",
            "SpawnTimer(Span { secs: 5, nanos: 0 })",
            "InstantiateMain",
        ]
    );
}

#[test]
fn profiles_are_taken_and_written() {
    let mut run = command(&["dir/a.wasm"]);
    run.profile = guest_profile();
    let (done, result) = drive_well(&run);
    assert_eq!(result, Ok(()));
    let i = position(&done, "Enter(EpochHandler)");
    assert_eq!(
        done[i + 1..],
        vec![
            "StartProfile { name: \"dir/a.wasm\", interval: Span { secs: 0, nanos: 300000000 } }",
            "WatchEpochs(None)",
            "SetEpochDeadline(1)",
            "SpawnTicker(Span { secs: 0, nanos: 300000000 })",
            "InstantiateMain",
            "LookupDefault",
            "InspectFunction",
            "CallFunction([])",
            "WriteProfile(\"p.json\")",
            "Say(\"\")",
            "Say(\"Profile written to: p.json\")",
            "Say(\"View this profile at https://profiler.firefox.com/.\")",
        ]
    );
    run.wasm_timeout = Some(seconds(1));
    run.module_and_args[0].whole = broken_text("dir/a.wasm");
    let (done, _) = drive_well(&run);
    let i = position(&done, "Enter(EpochHandler)");
    assert_eq!(
        done[i + 1..i + 3],
        vec![
            "StartProfile { name: \"<main module>\", interval: Span { secs: 0, nanos: 300000000 } }",
            "WatchEpochs(Some(4))",
        ]
    );
}

#[test]
fn profiles_that_cannot_be_written_are_reported() {
    let engine = wasmtime::Engine::default();
    let mut run = command(&["dir/a.wasm"]);
    run.profile = guest_profile();
    let (done, result) = drive(&run, &everything(), &|op| match op {
        Op::WriteProfile(_) => Event::Failed("disk full".to_string()),
        _ => well(op, &engine),
    });
    assert_eq!(result, Ok(()));
    assert_eq!(
        done.last().unwrap(),
        "Say(\"failed writing profile at p.json: disk full\")"
    );
}

#[test]
fn limits_come_before_code() {
    let mut run = command(&["dir/a.wasm"]);
    run.max_memory_size = Some(1);
    run.max_table_elements = Some(2);
    run.max_instances = Some(3);
    run.max_tables = Some(4);
    run.max_memories = Some(5);
    run.trap_on_grow_failure = true;
    run.common.fuel = Some(6);
    run.preloads = vec![("env".to_string(), "env.wasm".to_string())];
    let (done, result) = drive_well(&run);
    assert_eq!(result, Ok(()));
    let installed = "InstallLimits(GivenLimits { memory_size: Some(1), table_elements: Some(2), instances: Some(3), tables: Some(4), memories: Some(5), trap_on_grow_failure: true })";
    let i = position(&done, installed);
    assert_eq!(
        done[i..i + 3],
        vec![
            installed,
            "AddFuel(6)",
            "KeepModule { target: Main, name: \"\" }",
        ]
    );
    assert!(position(&done, "AddFuel(6)") < position(&done, "MapFile { target: Preload(0), location: Given }"));
    assert!(position(&done, "FinishPreview1") < i);
}

#[test]
fn preloads_are_linked_in_order() {
    let mut run = command(&["dir/a.wasm"]);
    run.preloads = vec![
        ("x".to_string(), "x.wasm".to_string()),
        ("y".to_string(), "-".to_string()),
    ];
    let (done, result) = drive_well(&run);
    assert_eq!(result, Ok(()));
    let i = position(&done, "KeepModule { target: Main, name: \"\" }");
    assert_eq!(
        done[i + 1..i + 10],
        vec![
            "MapFile { target: Preload(0), location: Given }",
            "LoadModule { target: Preload(0), location: Given, kind: Core, source: Wasm([0, 97, 115, 109, 1, 0, 0, 0]) }",
            "KeepModule { target: Preload(0), name: \"x\" }",
            "LinkPreload { index: 0, name: \"x\", path: \"x.wasm\" }",
            "MapFile { target: Preload(1), location: Stdin }",
            "LoadModule { target: Preload(1), location: Stdin, kind: Core, source: Wasm([0, 97, 115, 109, 1, 0, 0, 0]) }",
            "KeepModule { target: Preload(1), name: \"y\" }",
            "LinkPreload { index: 1, name: \"y\", path: \"-\" }",
            "Enter(Main(Core))",
        ]
    );
}

#[test]
fn preloads_that_fail() {
    let engine = wasmtime::Engine::default();
    let mut run = component(&["dir/a.wasm"]);
    run.preloads = vec![("x".to_string(), "x.wasm".to_string())];
    let (_, result) = drive(&run, &everything(), &|op| match op {
        Op::LinkPreload { .. } => Event::Failed("no import".to_string()),
        _ => well(op, &engine),
    });
    assert_eq!(
        result,
        failed(&["failed to process preload `x` at `x.wasm`"], false)
    );
    let (_, result) = drive(&run, &everything(), &|op| match op {
        Op::MapFile {
            target: Target::Preload(_),
            ..
        } => Event::contents(&engine, &EMPTY_COMPONENT),
        _ => well(op, &engine),
    });
    assert_eq!(result, refused(Problem::PreloadedComponent));
    let e: Reason = Problem::PreloadedComponent;
    assert_eq!(e.message(), "components cannot be loaded with `--preload`");
}

#[test]
fn components_have_no_preloads() {
    let mut run = component(&["dir/a.wasm"]);
    run.preloads = vec![("x".to_string(), "x.wasm".to_string())];
    let (done, result) = drive_component(&run);
    assert_eq!(result, refused(Problem::PreloadForComponent));
    assert_eq!(
        done.last().unwrap(),
        "KeepModule { target: Preload(0), name: \"x\" }"
    );
    let e: Reason = Problem::PreloadForComponent;
    assert_eq!(e.message(), "--preload cannot be used with components");
}

#[test]
fn unknown_exports() {
    let mut run = component(&["dir/a.wasm"]);
    run.allow_unknown_exports = true;
    let (done, result) = drive_well(&run);
    assert_eq!(result, Ok(()));
    assert_eq!(
        done[7..10],
        vec!["CreateLinker(Core)", "AllowUnknownExports", "CreateStore"]
    );
    let (done, result) = drive_component(&run);
    assert_eq!(result, refused(Problem::UnknownExportsOfComponent));
    assert_eq!(done.last().unwrap(), "CreateLinker(Component)");
    let e: Reason = Problem::UnknownExportsOfComponent;
    assert_eq!(
        e.message(),
        "--allow-unknown-exports not supported with components"
    );
}

#[test]
fn unknown_imports() {
    let mut run = component(&["dir/a.wasm"]);
    run.trap_unknown_imports = true;
    run.default_values_unknown_imports = true;
    let (done, result) = drive_well(&run);
    assert_eq!(result, Ok(()));
    let i = position(&done, "Enter(Main(Core))");
    assert_eq!(
        done[i + 1..i + 4],
        vec!["DefineTraps", "DefineDefaults", "Enter(EpochHandler)"]
    );
    let (done, result) = drive_component(&run);
    assert_eq!(
        result,
        refused_in_main(Problem::TrapImportsOfComponent, "dir/a.wasm")
    );
    assert_eq!(done.last().unwrap(), "Enter(Main(Component))");
    run.trap_unknown_imports = false;
    let (_, result) = drive_component(&run);
    assert_eq!(
        result,
        refused_in_main(Problem::DefaultImportsOfComponent, "dir/a.wasm")
    );
    let e: Reason = Problem::TrapImportsOfComponent;
    assert_eq!(
        e.message(),
        "cannot use `--trap-unknown-imports` with components"
    );
    let e: Reason = Problem::DefaultImportsOfComponent;
    assert_eq!(
        e.message(),
        "cannot use `--default-values-unknown-imports` with components"
    );
}

#[test]
fn functions_of_components_are_not_invoked() {
    let mut run = component(&["dir/a.wasm"]);
    run.invoke = Some("f".to_string());
    let (done, result) = drive_component(&run);
    assert_eq!(
        result,
        refused_in_main(Problem::InvokeOfComponent, "dir/a.wasm")
    );
    assert_eq!(done.last().unwrap(), "Enter(EpochHandler)");
    let e: Reason = Problem::InvokeOfComponent;
    assert_eq!(
        e.message(),
        "using `--invoke` with components is not supported"
    );
}

#[test]
fn functions_get_their_arguments() {
    let engine = wasmtime::Engine::default();
    let mut run = command(&["dir/a.wasm", "1", "-2", "3", "4", "ignored"]);
    run.invoke = Some("f".to_string());
    let (done, result) = drive(&run, &everything(), &|op| match op {
        Op::InspectFunction => {
            Event::Signature(vec![ValType::I32, ValType::I64, ValType::F32, ValType::F64])
        }
        Op::CallFunction(_) => Event::Returned(vec![
            Val::I32(-1),
            Val::I64(i64::MIN),
            Val::V128(u128::MAX),
            Val::ExternRef,
            Val::FuncRef,
            Val::F64(0),
        ]),
        _ => well(op, &engine),
    });
    assert_eq!(result, Ok(()));
    let i = position(&done, "LookupExport(\"f\")");
    assert_eq!(
        done[i + 1..],
        vec![
            "InspectFunction",
            "Say(\"warning: using `--invoke` with a function that takes arguments is experimental and may break in the future\")",
            "CallFunction([I32(1), I64(-2), F32(3), F64(4)])",
            "Say(\"warning: using `--invoke` with a function that returns values is experimental and may break in the future\")",
            "PrintText(\"-1\")",
            "PrintText(\"-9223372036854775808\")",
            "PrintText(\"340282366920938463463374607431768211455\")",
            "PrintText(\"<externref>\")",
            "PrintText(\"<funcref>\")",
            "PrintResult(F64(0))",
        ]
    );
}

fn drive_with_params(run: &RunCommand, params: &[ValType]) -> (Vec<String>, Result<(), Failure>) {
    let engine = wasmtime::Engine::default();
    drive(run, &everything(), &|op| match op {
        Op::InspectFunction => Event::Signature(params.to_vec()),
        _ => well(op, &engine),
    })
}

#[test]
fn functions_need_enough_arguments() {
    let mut run = command(&["dir/a.wasm", "1"]);
    let (_, result) = drive_with_params(&run, &[ValType::I32, ValType::I32]);
    assert_eq!(
        result,
        refused_in_main(Problem::NotEnoughArguments(None), "dir/a.wasm")
    );
    run.invoke = Some("f".to_string());
    let (_, result) = drive_with_params(&run, &[ValType::I32, ValType::I32]);
    assert_eq!(
        result,
        refused_in_main(
            Problem::NotEnoughArguments(Some("f".to_string())),
            "dir/a.wasm"
        )
    );
    let e: Reason = Problem::NotEnoughArguments(Some("f".to_string()));
    assert_eq!(e.message(), "not enough arguments for `f`");
    let e: Reason = Problem::NotEnoughArguments(None);
    assert_eq!(e.message(), "not enough arguments for command default");
}

#[test]
fn the_first_bad_argument_counts() {
    let mut run = command(&["dir/a.wasm", "1", "x", "y"]);
    let (_, result) = drive_with_params(&run, &[ValType::I32, ValType::I32, ValType::V128]);
    let why = "x".parse::<i32>().unwrap_err().to_string();
    assert_eq!(
        result,
        refused_in_main(Problem::Integer(why.clone()), "dir/a.wasm")
    );
    let e: Reason = Problem::Integer(why.clone());
    assert_eq!(e.message(), why);
    run.module_and_args[2].whole = broken_text("x?");
    run.common.wasi_modules = with_wasi(false, false, false, false).common.wasi_modules;
    let (_, result) = drive_with_params(&run, &[ValType::I32, ValType::V128]);
    let e: Reason = Problem::ArgumentForFunction("\"x?\"".to_string());
    assert_eq!(e.message(), "argument is not valid utf-8: \"x?\"");
    assert_eq!(result, refused_in_main(e, "dir/a.wasm"));
    let (_, result) = drive_with_params(&run, &[ValType::V128]);
    assert_eq!(
        result,
        refused_in_main(Problem::UnsupportedType(ValType::V128), "dir/a.wasm")
    );
}

#[test]
fn profiles_are_written_after_bad_arguments() {
    let mut run = command(&["dir/a.wasm"]);
    run.profile = guest_profile();
    let (done, result) = drive_with_params(&run, &[ValType::I32]);
    assert_eq!(
        result,
        refused_in_main(Problem::NotEnoughArguments(None), "dir/a.wasm")
    );
    let i = position(&done, "WriteProfile(\"p.json\")");
    assert!(position(&done, "InspectFunction") < i);
    assert_eq!(done.len(), i + 4);
}

#[test]
fn exports_are_looked_up() {
    let engine = wasmtime::Engine::default();
    let mut run = command(&["dir/a.wasm"]);
    run.invoke = Some("f".to_string());
    let (_, result) = drive(&run, &everything(), &|op| match op {
        Op::LookupExport(_) => Event::Missing,
        _ => well(op, &engine),
    });
    let e: Reason = Problem::NoExport("f".to_string());
    assert_eq!(e.message(), "no export named `f` found");
    assert_eq!(result, refused_in_main(e, "dir/a.wasm"));
    let (_, result) = drive(&run, &everything(), &|op| match op {
        Op::LookupExport(_) => Event::NotFunction,
        _ => well(op, &engine),
    });
    let e: Reason = Problem::NotFunction("f".to_string());
    assert_eq!(e.message(), "export of `f` wasn't a function");
    assert_eq!(result, refused_in_main(e, "dir/a.wasm"));
    run.invoke = None;
    let (_, result) = drive(&run, &everything(), &|op| match op {
        Op::LookupDefault => Event::Failed("ambiguous".to_string()),
        _ => well(op, &engine),
    });
    assert_eq!(result, failed(&[MAIN], true));
}

#[test]
fn modules_that_cannot_be_instantiated() {
    let engine = wasmtime::Engine::default();
    let mut run = component(&["dir/a.wasm"]);
    run.profile = guest_profile();
    let (done, result) = drive(&run, &everything(), &|op| match op {
        Op::InstantiateMain => Event::Failed("no import".to_string()),
        _ => well(op, &engine),
    });
    assert_eq!(
        result,
        failed(&["failed to instantiate \"dir/a.wasm\"", MAIN], true)
    );
    assert_eq!(done.last().unwrap(), "InstantiateMain");
    let (done, result) = drive(&run, &everything(), &|op| match op {
        Op::InstantiateCommand => Event::Failed("no import".to_string()),
        _ => well_for_component(op, &engine),
    });
    assert_eq!(result, failed(&[MAIN], true));
    assert_eq!(done.last().unwrap(), "InstantiateCommand");
}

#[test]
fn functions_that_fail() {
    let engine = wasmtime::Engine::default();
    let mut run = command(&["dir/a.wasm"]);
    let raised = |op: &Op| match op {
        Op::CallFunction(_) => Event::Raised {
            trap: false,
            backtrace: None,
        },
        _ => well(op, &engine),
    };
    let (_, result) = drive(&run, &everything(), &raised);
    assert_eq!(
        result,
        failed(&["failed to invoke command default", MAIN], true)
    );
    run.invoke = Some("f".to_string());
    run.profile = guest_profile();
    run.coredump_on_trap = Some("core".to_string());
    let (done, result) = drive(&run, &everything(), &raised);
    assert_eq!(result, failed(&["failed to invoke `f`", MAIN], true));
    assert!(position(&done, "CallFunction([])") < position(&done, "WriteProfile(\"p.json\")"));
}

fn drive_trap(
    run: &RunCommand,
    backtrace: bool,
    created: bool,
    written: bool,
) -> (Vec<String>, Result<(), Failure>) {
    let engine = wasmtime::Engine::default();
    drive(run, &everything(), &|op| match op {
        Op::CallFunction(_) => Event::Raised {
            trap: true,
            backtrace: if backtrace {
                Some(vec![Frame {
                    func_index: 3,
                    func_offset: Some(17),
                }])
            } else {
                None
            },
        },
        Op::CreateCoredump { .. } => {
            if created {
                Event::Done
            } else {
                Event::Failed("denied".to_string())
            }
        }
        Op::WriteCoredump { .. } => {
            if written {
                Event::Done
            } else {
                Event::Failed("disk full".to_string())
            }
        }
        _ => well(op, &engine),
    })
}

#[test]
fn traps_are_dumped() {
    let mut run = command(&["dir/a.wasm"]);
    run.profile = guest_profile();
    let (done, result) = drive_trap(&run, true, true, true);
    assert_eq!(
        result,
        failed(&["failed to invoke command default", MAIN], true)
    );
    assert!(!done.iter().any(|op| op.starts_with("CreateCoredump")));
    run.coredump_on_trap = Some("core".to_string());
    let (done, result) = drive_trap(&run, true, true, true);
    assert_eq!(
        result,
        failed(
            &[
                "failed to invoke command default",
                "core dumped at core",
                MAIN
            ],
            true
        )
    );
    let i = position(&done, "CallFunction([])");
    assert!(done[i + 1].starts_with("CreateCoredump { path: \"core\""));
    assert!(done[i + 2].starts_with("WriteCoredump { path: \"core\""));
    assert_eq!(done[i + 3], "WriteProfile(\"p.json\")");
}

#[test]
fn core_dumps_that_fail_are_reported() {
    let mut run = command(&["dir/a.wasm"]);
    run.coredump_on_trap = Some("core".to_string());
    let end = failed(&["failed to invoke command default", MAIN], true);
    let (done, result) = drive_trap(&run, false, true, true);
    assert_eq!(result, end);
    assert_eq!(
        done.last().unwrap(),
        "Say(\"warning: coredump failed to generate: no wasm backtrace found to generate coredump with\")"
    );
    let (done, result) = drive_trap(&run, true, false, true);
    assert_eq!(result, end);
    assert_eq!(
        done.last().unwrap(),
        "Say(\"warning: coredump failed to generate: failed to create file at `core`\")"
    );
    let (done, result) = drive_trap(&run, true, true, false);
    assert_eq!(result, end);
    assert_eq!(
        done.last().unwrap(),
        "Say(\"warning: coredump failed to generate: failed to write coredump file at `core`\")"
    );
}

#[test]
fn core_dumps_name_the_module() {
    let mut run = command(&["dir/a.wasm"]);
    assert_eq!(run.show_source_name(), "dir/a.wasm");
    run.module_and_args[0].whole = broken_text("dir/a.wasm");
    assert_eq!(run.show_source_name(), "unknown");
}

#[test]
fn components_that_end_badly_exit() {
    let engine = wasmtime::Engine::default();
    let mut run = component(&["dir/a.wasm"]);
    run.profile = guest_profile();
    let (done, result) = drive(&run, &everything(), &|op| match op {
        Op::CallRun => Event::Ran(false),
        _ => well_for_component(op, &engine),
    });
    assert_eq!(
        result,
        Err(Failure {
            cause: Cause::Exit(1),
            contexts: vec![MAIN.to_string()],
            in_main: true,
        })
    );
    assert!(position(&done, "CallRun") < position(&done, "WriteProfile(\"p.json\")"));
    let (_, result) = drive(&run, &everything(), &|op| match op {
        Op::CallRun => Event::Raised {
            trap: true,
            backtrace: None,
        },
        _ => well_for_component(op, &engine),
    });
    assert_eq!(
        result,
        failed(&["failed to invoke `run` function", MAIN], true)
    );
}

#[test]
fn variables_are_set_or_inherited() {
    let engine = wasmtime::Engine::default();
    let mut run = command(&["dir/a.wasm"]);
    run.vars = vec![
        ("A".to_string(), Some("1".to_string())),
        ("B".to_string(), None),
    ];
    let (done, result) = drive_well(&run);
    assert_eq!(result, Ok(()));
    let i = position(&done, "SetArgs([\"a.wasm\"])");
    assert_eq!(
        done[i + 1..i + 5],
        vec![
            "SetVar(\"A\", \"1\")",
            "ReadVar(\"B\")",
            "SetVar(\"B\", \"inherited\")",
            "FinishPreview1",
        ]
    );
    let (_, result) = drive(&run, &everything(), &|op| match op {
        Op::ReadVar(_) => Event::Failed("not set".to_string()),
        _ => well(op, &engine),
    });
    let e: Reason = Problem::NoVariable("B".to_string());
    assert_eq!(e.message(), "environment varialbe `B` not found");
    assert_eq!(result, refused(e));
}

#[test]
fn sockets_are_bound_and_numbered() {
    let mut run = command(&["dir/a.wasm"]);
    run.tcplisten = vec!["127.0.0.1:1".to_string(), "127.0.0.1:2".to_string()];
    run.dirs = vec![".".to_string()];
    run.map_dirs = vec![("/g".to_string(), "/h".to_string())];
    let (done, result) = drive_well(&run);
    assert_eq!(result, Ok(()));
    let i = position(&done, "SetArgs([\"a.wasm\"])");
    assert_eq!(
        done[i + 1..i + 12],
        vec![
            "BindSocket(\"127.0.0.1:1\")",
            "UnblockSocket",
            "BindSocket(\"127.0.0.1:2\")",
            "UnblockSocket",
            "PreopenSocket { index: 0, fd: 3 }",
            "PreopenSocket { index: 1, fd: 4 }",
            "OpenDir(\".\")",
            "OpenDir(\"/h\")",
            "PreopenDir { index: 0, guest: \".\", permissions: None }",
            "PreopenDir { index: 1, guest: \"/g\", permissions: None }",
            "FinishPreview1",
        ]
    );
}

#[test]
fn sockets_and_directories_that_cannot_be_had() {
    let engine = wasmtime::Engine::default();
    let mut run = command(&["dir/a.wasm"]);
    run.tcplisten = vec!["127.0.0.1:1".to_string()];
    run.dirs = vec!["/none".to_string()];
    let (_, result) = drive(&run, &everything(), &|op| match op {
        Op::BindSocket(_) => Event::Failed("in use".to_string()),
        _ => well(op, &engine),
    });
    assert_eq!(
        result,
        failed(&["failed to bind to address '127.0.0.1:1'"], false)
    );
    let (_, result) = drive(&run, &everything(), &|op| match op {
        Op::OpenDir(_) => Event::Failed("not found".to_string()),
        _ => well(op, &engine),
    });
    assert_eq!(
        result,
        failed(&["failed to open directory '/none'"], false)
    );
    let (_, result) = drive(&run, &everything(), &|op| match op {
        Op::UnblockSocket => Event::Failed("no".to_string()),
        _ => well(op, &engine),
    });
    assert_eq!(result, failed(&[], false));
}

#[test]
fn inherited_sockets_come_first() {
    let engine = wasmtime::Engine::default();
    let mut run = command(&["dir/a.wasm"]);
    run.listenfd = true;
    run.tcplisten = vec!["127.0.0.1:1".to_string()];
    let answer = |op: &Op| match op {
        Op::ForwardVar(_) => Event::Text("3".to_string()),
        Op::OpenListenFds => Event::Count(3),
        Op::TakeListener { index, .. } => Event::Taken(*index != 1),
        _ => well(op, &engine),
    };
    let (done, result) = drive(&run, &everything(), &answer);
    assert_eq!(result, Ok(()));
    let i = position(&done, "SetArgs([\"a.wasm\"])");
    assert_eq!(
        done[i + 1..i + 17],
        vec![
            "ForwardVar(\"LISTEN_FDS\")",
            "SetVar(\"LISTEN_FDS\", \"3\")",
            "ForwardVar(\"LISTEN_FDNAMES\")",
            "SetVar(\"LISTEN_FDNAMES\", \"3\")",
            "OpenListenFds",
            "TakeListener { index: 0, count: 3, last: None }",
            "UnblockListener",
            "PreopenListener(3)",
            "TakeListener { index: 1, count: 3, last: Some(0) }",
            "TakeListener { index: 2, count: 3, last: Some(0) }",
            "UnblockListener",
            "PreopenListener(5)",
            "BindSocket(\"127.0.0.1:1\")",
            "UnblockSocket",
            "PreopenSocket { index: 0, fd: 6 }",
            "FinishPreview1",
        ]
    );
    let (done, result) = drive(&run, &everything(), &|op| match op {
        Op::TakeListener { .. } => Event::Taken(false),
        _ => answer(op),
    });
    assert_eq!(result, Ok(()));
    position(&done, "PreopenSocket { index: 0, fd: 3 }");
    assert!(!done.iter().any(|op| op == "UnblockListener"));
    let (done, result) = drive(&run, &everything(), &|op| match op {
        Op::UnblockListener => Event::Failed("no".to_string()),
        _ => answer(op),
    });
    assert_eq!(result, failed(&[], false));
    assert_eq!(done.last().unwrap(), "UnblockListener");
    let mut other = everything();
    other.unix = false;
    let (done, result) = drive(&run, &other, &answer);
    assert_eq!(result, Ok(()));
    assert!(!done.iter().any(|op| op == "OpenListenFds"));
}

#[test]
fn inherited_and_bound_sockets_have_their_own_numbers() {
    let engine = wasmtime::Engine::default();
    let mut run = command(&["dir/a.wasm"]);
    run.listenfd = true;
    run.tcplisten = vec!["127.0.0.1:1".to_string(), "127.0.0.1:2".to_string()];
    let (done, result) = drive(&run, &everything(), &|op| match op {
        Op::OpenListenFds => Event::Count(1),
        _ => well(op, &engine),
    });
    assert_eq!(result, Ok(()));
    position(&done, "PreopenListener(3)");
    position(&done, "PreopenSocket { index: 0, fd: 4 }");
    position(&done, "PreopenSocket { index: 1, fd: 5 }");
}

#[test]
fn texts_that_are_read_outside_are_refused_alike() {
    let engine = wasmtime::Engine::default();
    let run = command(&["dir/a.wat"]);
    let (done, result) = drive(&run, &everything(), &|op| match op {
        Op::MapFile { .. } => Event::Malformed("why".to_string()),
        _ => well(op, &engine),
    });
    assert_eq!(result, refused(Problem::TextFormat("why".to_string())));
    assert_eq!(
        done.last().unwrap(),
        "MapFile { target: Main, location: Given }"
    );
    let (_, result) = drive(&run, &everything(), &|op| match op {
        Op::MapFile { .. } => Event::Failed("no map".to_string()),
        Op::ReadFile { .. } => Event::Malformed("why".to_string()),
        _ => well(op, &engine),
    });
    assert_eq!(result, refused(Problem::TextFormat("why".to_string())));
}

const NAMED_ITEM: &str =
    "(component (core type (module (type $t (func)) (import \"a\" \"b\" (global (ref $t))))))";

#[test]
fn a_run_does_not_go_on_with_what_cannot_be_parsed() {
    let engine = wasmtime::Engine::default();
    let run = component(&["dir/a.wat"]);
    let map = Op::MapFile {
        target: Target::Main,
        location: Location::Given,
    };
    let read = Op::ReadFile {
        target: Target::Main,
        location: Location::Given,
    };
    for op in [&map, &read] {
        assert!(!run.admits(op, &Event::contents(&engine, NAMED_ITEM.as_bytes())));
        assert!(run.admits(op, &Event::contents(&engine, &EMPTY_COMPONENT)));
        assert!(run.admits(op, &Event::contents(&engine, b"(component)")));
        assert!(run.admits(op, &Event::Failed("no".to_string())));
    }
    assert!(run.admits(&Op::CreateStore, &Event::contents(&engine, NAMED_ITEM.as_bytes())));
}

#[test]
fn the_second_form_of_wasi_has_no_sockets() {
    let mut run = component(&["dir/a.wasm"]);
    run.listenfd = true;
    let (_, result) = drive_component(&run);
    assert_eq!(result, refused(Problem::ListenFdForComponent));
    let e: Reason = Problem::ListenFdForComponent;
    assert_eq!(e.message(), "components do not support --listenfd");
    run.listenfd = false;
    run.tcplisten = vec!["127.0.0.1:1".to_string()];
    let (done, result) = drive_component(&run);
    assert_eq!(result, refused(Problem::TcpListenForComponent));
    assert_eq!(done.last().unwrap(), "UnblockSocket");
    let e: Reason = Problem::TcpListenForComponent;
    assert_eq!(e.message(), "components do not support --tcplisten");
    run.preview2 = true;
    let (done, result) = drive_well(&run);
    assert_eq!(result, refused(Problem::TcpListenForComponent));
    assert!(position(&done, "AddPreview1Adapter") < position(&done, "Enter(Preview2)"));
}

#[test]
fn both_forms_of_wasi_give_the_same() {
    let mut run = command(&["dir/a.wasm", "x"]);
    run.dirs = vec![".".to_string()];
    run.map_dirs = vec![("/g".to_string(), "/h".to_string())];
    run.vars = vec![
        ("A".to_string(), Some("1".to_string())),
        ("B".to_string(), None),
    ];
    let (first, result) = drive_well(&run);
    assert_eq!(result, Ok(()));
    run.preview2 = true;
    let (second, result) = drive_well(&run);
    assert_eq!(result, Ok(()));
    let i = position(&first, "NewPreview1");
    let j = position(&second, "NewPreview2");
    let all = "Some(Permissions { read_dir: true, mutate_dir: true, read_files: true, write_files: true })";
    let n = position(&first, "FinishPreview1") - i;
    assert_eq!(position(&second, "FinishPreview2") - j, n);
    assert_eq!(n, 9);
    for k in 1..n {
        let given = first[i + k].replace("permissions: None", &format!("permissions: {}", all));
        assert_eq!(given, second[j + k]);
    }
    assert!(second[j + n - 1].contains(all));
}

#[test]
fn a_file_that_cannot_be_read_is_named() {
    let engine = wasmtime::Engine::default();
    let run = command(&["-"]);
    let (done, result) = drive(&run, &everything(), &|op| match op {
        Op::MapFile { .. } => Event::Failed("no map".to_string()),
        Op::ReadFile { .. } => Event::Failed("no file".to_string()),
        _ => well(op, &engine),
    });
    assert_eq!(
        done[done.len() - 2..],
        vec![
            "MapFile { target: Main, location: Stdin }",
            "ReadFile { target: Main, location: Stdin }",
        ]
    );
    assert_eq!(result, failed(&["failed to read file: /dev/stdin"], false));
}

#[test]
fn arguments_are_checked_in_a_run() {
    let mut run = command(&["dir/a.wasm", "x"]);
    run.module_and_args[1].whole = broken_text("x?");
    let (done, result) = drive_well(&run);
    assert_eq!(
        result,
        refused(Problem::ArgumentForProgram("\"x?\"".to_string()))
    );
    assert_eq!(done.last().unwrap(), "Enter(Preview1)");
}

fn with_wasi(common: bool, nn: bool, threads: bool, http: bool) -> RunCommand {
    let mut run = component(&["dir/a.wasm"]);
    run.common.wasi_modules = Some(WasiModules {
        wasi_common: common,
        wasi_nn: nn,
        wasi_threads: threads,
        wasi_http: http,
    });
    run
}

#[test]
fn more_modules_of_wasi() {
    let mut run = with_wasi(false, true, true, false);
    run.graphs = vec![
        ("openvino".to_string(), "/foo/bar".to_string()),
        ("openvino".to_string(), "/baz".to_string()),
    ];
    let (done, result) = drive_well(&run);
    assert_eq!(result, Ok(()));
    assert_eq!(
        done[8..12],
        vec![
            "CreateStore",
            "AddWasiNn(Core)",
            "PreloadGraphs([(\"openvino\", \"/foo/bar\"), (\"openvino\", \"/baz\")])",
            "AddWasiThreads",
        ]
    );
    let engine = wasmtime::Engine::default();
    let (done, result) = drive(&run, &everything(), &|op| match op {
        Op::PreloadGraphs(_) => Event::Failed("no such graph".to_string()),
        _ => well(op, &engine),
    });
    assert_eq!(result, failed(&[], false));
    assert!(done.last().unwrap().starts_with("PreloadGraphs"));
    let (_, result) = drive_component(&with_wasi(false, false, true, false));
    assert_eq!(result, refused(Problem::WasiThreadsForComponent));
    let e: Reason = Problem::WasiThreadsForComponent;
    assert_eq!(e.message(), "wasi-threads does not support components yet");
}

#[test]
fn modules_of_wasi_that_are_not_built_in() {
    let engine = wasmtime::Engine::default();
    let nothing = Features {
        unix: true,
        component_model: false,
        wasi_nn: false,
        wasi_threads: false,
        wasi_http: false,
    };
    let mut http = nothing;
    http.wasi_http = true;
    let cases: Vec<(RunCommand, Features, Reason, &str)> = vec![
        (
            with_wasi(true, true, false, false),
            nothing,
            Problem::WasiNnNotBuiltIn,
            "Cannot enable wasi-nn when the binary is not compiled with this feature.",
        ),
        (
            with_wasi(true, false, true, false),
            nothing,
            Problem::WasiThreadsNotBuiltIn,
            "Cannot enable wasi-threads when the binary is not compiled with this feature.",
        ),
        (
            with_wasi(true, false, false, true),
            nothing,
            Problem::WasiHttpNotBuiltIn,
            "Cannot enable wasi-http when the binary is not compiled with this feature.",
        ),
        (
            with_wasi(true, false, false, true),
            http,
            Problem::WasiHttpReplaced,
            "wasi-http support will be swapped over to component CLI support soon",
        ),
    ];
    for (run, features, e, message) in cases {
        let (_, result) = drive(&run, &features, &|op| well(op, &engine));
        assert_eq!(e.message(), message);
        assert_eq!(result, refused(e));
    }
}

#[test]
fn failures_before_the_main_module_name_nothing() {
    let engine = wasmtime::Engine::default();
    let run = command(&["dir/a.wasm"]);
    let (done, result) = drive(&run, &everything(), &|op| match op {
        Op::CreateEngine => Event::Failed("no such setting".to_string()),
        _ => well(op, &engine),
    });
    assert_eq!(result, failed(&[], false));
    assert_eq!(done.last().unwrap(), "CreateEngine");
}

#[test]
fn some_runs_cannot_go_on() {
    let mut run = command(&["dir/a.wasm"]);
    assert!(run.admits(&Op::Enter(Stage::Preview1), &Event::Done));
    run.module_and_args[0].components = vec![];
    assert!(!run.admits(&Op::Enter(Stage::Preview1), &Event::Done));
    assert!(!run.admits(&Op::Enter(Stage::Preview2), &Event::Done));
    assert!(run.admits(&Op::Enter(Stage::Main(ModuleKind::Core)), &Event::Done));
    run.wasm_timeout = Some(seconds(0));
    assert!(run.admits(&Op::Enter(Stage::EpochHandler), &Event::Done));
    run.profile = guest_profile();
    assert!(!run.admits(&Op::Enter(Stage::EpochHandler), &Event::Done));
    assert!(run.admits(&Op::OpenListenFds, &Event::Count(5)));
    assert!(!run.admits(&Op::OpenListenFds, &Event::Count(usize::MAX)));
    let far = |trap: bool| Event::Raised {
        trap,
        backtrace: Some(vec![Frame {
            func_index: 0,
            func_offset: Some(usize::MAX),
        }]),
    };
    assert!(run.admits(&Op::CallRun, &far(true)));
    run.coredump_on_trap = Some("core".to_string());
    assert!(!run.admits(&Op::CallRun, &far(true)));
    assert!(!run.admits(&Op::CallFunction(vec![]), &far(true)));
    assert!(run.admits(&Op::CallFunction(vec![]), &far(false)));
}

#[test]
fn runs_end() {
    let mut run = command(&["dir/a.wasm"]);
    run.listenfd = true;
    run.tcplisten = vec!["127.0.0.1:1".to_string()];
    run.preloads = vec![("x".to_string(), "x.wasm".to_string())];
    let engine = wasmtime::Engine::default();
    let n = 20;
    let (done, result) = drive(&run, &everything(), &|op| match op {
        Op::OpenListenFds => Event::Count(n),
        Op::CallFunction(_) => Event::Returned(vec![Val::I32(0); n]),
        _ => well(op, &engine),
    });
    assert_eq!(result, Ok(()));
    let rest = 3 + 1;
    let context = 2 * n + rest + 8;
    assert!(done.len() <= context + 9 + n + 36 + 12);
}
