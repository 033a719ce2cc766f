//! What can go wrong with a run, and what is said about it.

use crate::text::{join, join3};
use crate::value::{val_type_text, ValType};
use vstd::prelude::*;

verus! {

/// A reason to refuse an option or to stop a run. `S` is the type of the
/// texts that it carries.
#[derive(Debug, PartialEq, Eq)]
pub enum Problem<S> {
    /// A pair of names is not separated by one double colon.
    DoubleColon,
    /// A pair of names is not separated by an equals sign.
    Equals,
    /// A text is no duration; the text says why.
    Duration(S),
    /// No profiling strategy has this name.
    UnknownProfile(S),
    /// A path for core dumps holds a pattern.
    CoredumpPattern,
    /// Unknown exports were allowed for a component.
    UnknownExportsOfComponent,
    /// A component was to be loaded before the main module.
    PreloadedComponent,
    /// A module was to be loaded before a component.
    PreloadForComponent,
    /// An argument of the program is not text; it is shown escaped.
    ArgumentForProgram(S),
    /// Unknown imports of a component were to trap.
    TrapImportsOfComponent,
    /// Unknown imports of a component were to return default values.
    DefaultImportsOfComponent,
    /// The main module exports nothing under this name.
    NoExport(S),
    /// What the main module exports under this name is no function.
    NotFunction(S),
    /// A function of a component was to be invoked.
    InvokeOfComponent,
    /// A function, named unless it is the default one, takes more arguments
    /// than there are.
    NotEnoughArguments(Option<S>),
    /// An argument of a function is not text; it is shown escaped.
    ArgumentForFunction(S),
    /// No argument can be written for a parameter of this type.
    UnsupportedType(ValType),
    /// An argument is no integer of the parameter's type; the text says why.
    Integer(S),
    /// A precompiled module is not allowed.
    PrecompiledNotAllowed,
    /// A component is not allowed.
    ComponentNotAllowed,
    /// Components are not supported at all.
    ComponentsNotSupported,
    /// The text format of a module is malformed; the text says where.
    TextFormat(S),
    /// The neural network modules of WASI are not built in.
    WasiNnNotBuiltIn,
    /// The thread modules of WASI are not built in.
    WasiThreadsNotBuiltIn,
    /// A component asked for the thread modules of WASI.
    WasiThreadsForComponent,
    /// The HTTP modules of WASI are not built in.
    WasiHttpNotBuiltIn,
    /// The HTTP modules of WASI are being replaced.
    WasiHttpReplaced,
    /// A variable to inherit is not set.
    NoVariable(S),
    /// A component was to inherit sockets.
    ListenFdForComponent,
    /// A component was to listen on sockets.
    TcpListenForComponent,
    /// There is no stack to dump.
    NoBacktrace,
    /// The time for a run is up.
    Timeout,
}

/// A reason as it is returned.
pub type Reason = Problem<String>;

/// A reason as contracts speak of it.
pub type ReasonView = Problem<Seq<char>>;

impl View for Problem<String> {
    type V = Problem<Seq<char>>;

    open spec fn view(&self) -> Problem<Seq<char>> {
        match self {
            Problem::DoubleColon => Problem::DoubleColon,
            Problem::Equals => Problem::Equals,
            Problem::Duration(s) => Problem::Duration(s@),
            Problem::UnknownProfile(s) => Problem::UnknownProfile(s@),
            Problem::CoredumpPattern => Problem::CoredumpPattern,
            Problem::UnknownExportsOfComponent => Problem::UnknownExportsOfComponent,
            Problem::PreloadedComponent => Problem::PreloadedComponent,
            Problem::PreloadForComponent => Problem::PreloadForComponent,
            Problem::ArgumentForProgram(s) => Problem::ArgumentForProgram(s@),
            Problem::TrapImportsOfComponent => Problem::TrapImportsOfComponent,
            Problem::DefaultImportsOfComponent => Problem::DefaultImportsOfComponent,
            Problem::NoExport(s) => Problem::NoExport(s@),
            Problem::NotFunction(s) => Problem::NotFunction(s@),
            Problem::InvokeOfComponent => Problem::InvokeOfComponent,
            Problem::NotEnoughArguments(name) => Problem::NotEnoughArguments(
                match name {
                    Some(s) => Some(s@),
                    None => None,
                },
            ),
            Problem::ArgumentForFunction(s) => Problem::ArgumentForFunction(s@),
            Problem::UnsupportedType(ty) => Problem::UnsupportedType(*ty),
            Problem::Integer(s) => Problem::Integer(s@),
            Problem::PrecompiledNotAllowed => Problem::PrecompiledNotAllowed,
            Problem::ComponentNotAllowed => Problem::ComponentNotAllowed,
            Problem::ComponentsNotSupported => Problem::ComponentsNotSupported,
            Problem::TextFormat(s) => Problem::TextFormat(s@),
            Problem::WasiNnNotBuiltIn => Problem::WasiNnNotBuiltIn,
            Problem::WasiThreadsNotBuiltIn => Problem::WasiThreadsNotBuiltIn,
            Problem::WasiThreadsForComponent => Problem::WasiThreadsForComponent,
            Problem::WasiHttpNotBuiltIn => Problem::WasiHttpNotBuiltIn,
            Problem::WasiHttpReplaced => Problem::WasiHttpReplaced,
            Problem::NoVariable(s) => Problem::NoVariable(s@),
            Problem::ListenFdForComponent => Problem::ListenFdForComponent,
            Problem::TcpListenForComponent => Problem::TcpListenForComponent,
            Problem::NoBacktrace => Problem::NoBacktrace,
            Problem::Timeout => Problem::Timeout,
        }
    }
}

/// What is said about a reason.
pub open spec fn message_of(problem: ReasonView) -> Seq<char> {
    match problem {
        Problem::DoubleColon => "must contain exactly one double colon ('::')"@,
        Problem::Equals => "must contain exactly one equals character ('=')"@,
        Problem::Duration(s) => s,
        Problem::UnknownProfile(s) => "unknown profiling strategy: "@ + s,
        Problem::CoredumpPattern => "the coredump-on-trap path does not support patterns yet."@,
        Problem::UnknownExportsOfComponent =>
            "--allow-unknown-exports not supported with components"@,
        Problem::PreloadedComponent => "components cannot be loaded with `--preload`"@,
        Problem::PreloadForComponent => "--preload cannot be used with components"@,
        Problem::ArgumentForProgram(s) => "failed to convert "@ + s + " to utf-8"@,
        Problem::TrapImportsOfComponent =>
            "cannot use `--trap-unknown-imports` with components"@,
        Problem::DefaultImportsOfComponent =>
            "cannot use `--default-values-unknown-imports` with components"@,
        Problem::NoExport(s) => "no export named `"@ + s + "` found"@,
        Problem::NotFunction(s) => "export of `"@ + s + "` wasn't a function"@,
        Problem::InvokeOfComponent => "using `--invoke` with components is not supported"@,
        Problem::NotEnoughArguments(name) => match name {
            Some(s) => "not enough arguments for `"@ + s + "`"@,
            None => "not enough arguments for command default"@,
        },
        Problem::ArgumentForFunction(s) => "argument is not valid utf-8: "@ + s,
        Problem::UnsupportedType(ty) => "unsupported argument type "@ + val_type_text(ty),
        Problem::Integer(s) => s,
        Problem::PrecompiledNotAllowed =>
            "running a precompiled module requires the `--allow-precompiled` flag"@,
        Problem::ComponentNotAllowed =>
            "cannot execute a component without `--wasm-features component-model`"@,
        Problem::ComponentsNotSupported =>
            "support for components was not enabled at compile time"@,
        Problem::TextFormat(s) => s,
        Problem::WasiNnNotBuiltIn =>
            "Cannot enable wasi-nn when the binary is not compiled with this feature."@,
        Problem::WasiThreadsNotBuiltIn =>
            "Cannot enable wasi-threads when the binary is not compiled with this feature."@,
        Problem::WasiThreadsForComponent => "wasi-threads does not support components yet"@,
        Problem::WasiHttpNotBuiltIn =>
            "Cannot enable wasi-http when the binary is not compiled with this feature."@,
        Problem::WasiHttpReplaced =>
            "wasi-http support will be swapped over to component CLI support soon"@,
        Problem::NoVariable(s) => "environment varialbe `"@ + s + "` not found"@,
        Problem::ListenFdForComponent => "components do not support --listenfd"@,
        Problem::TcpListenForComponent => "components do not support --tcplisten"@,
        Problem::NoBacktrace => "no wasm backtrace found to generate coredump with"@,
        Problem::Timeout => "timeout exceeded"@,
    }
}

impl Problem<String> {
    /// What is said about the reason.
    pub fn message(&self) -> (r: String)
        ensures
            r@ == message_of(self@),
    {
        match self {
            Problem::DoubleColon => "must contain exactly one double colon ('::')".to_owned(),
            Problem::Equals => "must contain exactly one equals character ('=')".to_owned(),
            Problem::Duration(s) => s.clone(),
            Problem::UnknownProfile(s) => join("unknown profiling strategy: ", s.as_str()),
            Problem::CoredumpPattern =>
                "the coredump-on-trap path does not support patterns yet.".to_owned(),
            Problem::UnknownExportsOfComponent =>
                "--allow-unknown-exports not supported with components".to_owned(),
            Problem::PreloadedComponent =>
                "components cannot be loaded with `--preload`".to_owned(),
            Problem::PreloadForComponent =>
                "--preload cannot be used with components".to_owned(),
            Problem::ArgumentForProgram(s) => join3("failed to convert ", s.as_str(), " to utf-8"),
            Problem::TrapImportsOfComponent =>
                "cannot use `--trap-unknown-imports` with components".to_owned(),
            Problem::DefaultImportsOfComponent =>
                "cannot use `--default-values-unknown-imports` with components".to_owned(),
            Problem::NoExport(s) => join3("no export named `", s.as_str(), "` found"),
            Problem::NotFunction(s) => join3("export of `", s.as_str(), "` wasn't a function"),
            Problem::InvokeOfComponent =>
                "using `--invoke` with components is not supported".to_owned(),
            Problem::NotEnoughArguments(name) => match name {
                Some(s) => join3("not enough arguments for `", s.as_str(), "`"),
                None => "not enough arguments for command default".to_owned(),
            },
            Problem::ArgumentForFunction(s) => join("argument is not valid utf-8: ", s.as_str()),
            Problem::UnsupportedType(ty) => join(
                "unsupported argument type ",
                ty.name().as_str(),
            ),
            Problem::Integer(s) => s.clone(),
            Problem::PrecompiledNotAllowed =>
                "running a precompiled module requires the `--allow-precompiled` flag".to_owned(),
            Problem::ComponentNotAllowed =>
                "cannot execute a component without `--wasm-features component-model`".to_owned(),
            Problem::ComponentsNotSupported =>
                "support for components was not enabled at compile time".to_owned(),
            Problem::TextFormat(s) => s.clone(),
            Problem::WasiNnNotBuiltIn =>
                "Cannot enable wasi-nn when the binary is not compiled with this feature.".to_owned(),
            Problem::WasiThreadsNotBuiltIn =>
                "Cannot enable wasi-threads when the binary is not compiled with this feature."
                    .to_owned(),
            Problem::WasiThreadsForComponent =>
                "wasi-threads does not support components yet".to_owned(),
            Problem::WasiHttpNotBuiltIn =>
                "Cannot enable wasi-http when the binary is not compiled with this feature."
                    .to_owned(),
            Problem::WasiHttpReplaced =>
                "wasi-http support will be swapped over to component CLI support soon".to_owned(),
            Problem::NoVariable(s) => join3("environment varialbe `", s.as_str(), "` not found"),
            Problem::ListenFdForComponent => "components do not support --listenfd".to_owned(),
            Problem::TcpListenForComponent => "components do not support --tcplisten".to_owned(),
            Problem::NoBacktrace =>
                "no wasm backtrace found to generate coredump with".to_owned(),
            Problem::Timeout => "timeout exceeded".to_owned(),
        }
    }
}

} // verus!
