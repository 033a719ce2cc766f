//! The outside work of a run: what is asked for, what comes back, and lists
//! of what is to be done.

use crate::error::{Reason, ReasonView};
use crate::limits::GivenLimits;
use crate::parse::ProfilingStrategy;
use crate::span::Span;
use crate::text::{pairs, texts};
use crate::value::{Val, ValType};
use vstd::prelude::*;

verus! {

/// The two kinds of binaries that can be run.
#[derive(Clone, Copy, Debug, PartialEq, Eq, Structural)]
pub enum ModuleKind {
    /// A core WebAssembly module.
    Core,
    /// A component.
    Component,
}

/// Which of the modules of a command is meant.
#[derive(Clone, Copy, Debug, PartialEq, Eq, Structural)]
pub enum Target {
    /// The module to run.
    Main,
    /// A module to load before, by its position among them.
    Preload(usize),
}

/// Where a module is read from.
#[derive(Clone, Copy, Debug, PartialEq, Eq, Structural)]
pub enum Location {
    /// The standard input, as `/dev/stdin`.
    Stdin,
    /// The path that the command gives.
    Given,
}

/// What a module is made from.
#[derive(Debug, PartialEq, Eq)]
pub enum Source {
    /// Machine code in the file that the module was read from.
    PrecompiledFile,
    /// Machine code in the bytes that were read.
    PrecompiledBytes,
    /// A WebAssembly binary.
    Wasm(Vec<u8>),
}

/// What a module is made from, as contracts speak of it.
pub enum SourceView {
    PrecompiledFile,
    PrecompiledBytes,
    Wasm(Seq<u8>),
}

impl View for Source {
    type V = SourceView;

    open spec fn view(&self) -> SourceView {
        match self {
            Source::PrecompiledFile => SourceView::PrecompiledFile,
            Source::PrecompiledBytes => SourceView::PrecompiledBytes,
            Source::Wasm(bytes) => SourceView::Wasm(bytes@),
        }
    }
}

/// What a program may do with a directory and with the files in it.
#[derive(Clone, Copy, Debug, PartialEq, Eq, Structural)]
pub struct Permissions {
    pub read_dir: bool,
    pub mutate_dir: bool,
    pub read_files: bool,
    pub write_files: bool,
}

/// All there is to permit.
pub open spec fn all_permissions() -> Permissions {
    Permissions { read_dir: true, mutate_dir: true, read_files: true, write_files: true }
}

/// A part of a run whose work is listed only when it is reached.
#[derive(Clone, Copy, Debug, PartialEq, Eq, Structural)]
pub enum Stage {
    /// The whole run.
    Run,
    /// The context of WASI in its first form.
    Preview1,
    /// The context of WASI in its second form.
    Preview2,
    /// The main module, of this kind.
    Main(ModuleKind),
    /// The handling of epochs, for timeouts and profiles.
    EpochHandler,
}

/// A frame of a stack, outermost last.
#[derive(Clone, Copy, Debug, PartialEq, Eq, Structural)]
pub struct Frame {
    pub func_index: u32,
    pub func_offset: Option<usize>,
}

/// Why a run failed.
#[derive(Debug, PartialEq, Eq)]
pub enum Cause {
    /// For a reason of its own.
    Own(Reason),
    /// Some outside work failed, with an error of its own.
    Outside,
    /// The program asked to exit with a status.
    Exit(i32),
}

/// Why a run failed, as contracts speak of it.
pub enum CauseView {
    Own(ReasonView),
    Outside,
    Exit(i32),
}

impl View for Cause {
    type V = CauseView;

    open spec fn view(&self) -> CauseView {
        match self {
            Cause::Own(e) => CauseView::Own(e@),
            Cause::Outside => CauseView::Outside,
            Cause::Exit(status) => CauseView::Exit(*status),
        }
    }
}

/// How a run failed: why, and in what contexts, from the innermost to the
/// outermost. A failure of the main module may end the process with the
/// status of the program.
#[derive(Debug, PartialEq, Eq)]
pub struct Failure {
    pub cause: Cause,
    pub contexts: Vec<String>,
    pub in_main: bool,
}

/// How a run failed, as contracts speak of it.
pub struct FailureView {
    pub cause: CauseView,
    pub contexts: Seq<Seq<char>>,
    pub in_main: bool,
}

impl View for Failure {
    type V = FailureView;

    open spec fn view(&self) -> FailureView {
        FailureView {
            cause: self.cause@,
            contexts: texts(self.contexts@),
            in_main: self.in_main,
        }
    }
}

/// One piece of outside work.
#[derive(Debug, PartialEq, Eq)]
pub enum Op {
    /// Nothing is done; the work of a stage is listed next.
    Enter(Stage),
    InitLogging,
    /// The configuration that the common options ask for.
    BuildConfig,
    EnableEpochInterruption,
    SetProfiler(ProfilingStrategy),
    SetWmemcheck(bool),
    CreateEngine,
    /// Maps the file of a module into memory.
    MapFile { target: Target, location: Location },
    /// Reads the file of a module.
    ReadFile { target: Target, location: Location },
    /// Makes a module ready to be linked.
    LoadModule { target: Target, location: Location, kind: ModuleKind, source: Source },
    CreateLinker(ModuleKind),
    AllowUnknownExports,
    CreateStore,
    /// Adds the first form of WASI to the linker.
    AddPreview1,
    /// Adds the first form of WASI, backed by the second, to the linker.
    AddPreview1Adapter,
    /// Adds the second form of WASI to the linker.
    AddCommandWorld,
    /// Starts a context of the first form, with the streams of the process.
    NewPreview1,
    /// Starts a context of the second form, with the streams of the process.
    NewPreview2,
    /// Sets the arguments of the program.
    SetArgs(Vec<String>),
    /// Looks a variable of the process up.
    ReadVar(String),
    /// Looks a variable of the process up that need not be set.
    ForwardVar(String),
    /// Sets a variable of the program.
    SetVar(String, String),
    /// Takes the sockets over that the process inherited.
    OpenListenFds,
    /// Takes one of `count` inherited sockets; the position of the last that
    /// was taken is carried along.
    TakeListener { index: usize, count: usize, last: Option<usize> },
    /// Makes the socket that was taken nonblocking.
    UnblockListener,
    /// Hands the socket that was taken to the program.
    PreopenListener(u32),
    /// Listens on an address.
    BindSocket(String),
    /// Makes the socket that was bound last nonblocking.
    UnblockSocket,
    /// Hands the bound socket with this position to the program.
    PreopenSocket { index: usize, fd: u32 },
    /// Opens a directory.
    OpenDir(String),
    /// Hands the opened directory with this position to the program, with
    /// permissions in the form of WASI that has them.
    PreopenDir { index: usize, guest: String, permissions: Option<Permissions> },
    /// Finishes the context of the first form.
    FinishPreview1,
    /// Finishes the context of the second form.
    FinishPreview2,
    /// Adds the neural network modules of WASI to the linker.
    AddWasiNn(ModuleKind),
    /// Loads graphs, each given by its format and its directory.
    PreloadGraphs(Vec<(String, String)>),
    /// Adds the thread modules of WASI to the linker.
    AddWasiThreads,
    /// Puts the limits of the command in place.
    InstallLimits(GivenLimits),
    AddFuel(u64),
    /// Keeps a core module for the profile, under a name.
    KeepModule { target: Target, name: String },
    /// Adds what a module exports to the linker, under a name.
    LinkPreload { index: usize, name: String, path: String },
    DefineTraps,
    DefineDefaults,
    /// Starts the profile of a module.
    StartProfile { name: String, interval: Span },
    /// Does at each epoch what is to be done then, with so many epochs left at
    /// first, or without end.
    WatchEpochs(Option<u64>),
    SetEpochDeadline(u64),
    /// Starts a new epoch in each interval.
    SpawnTicker(Span),
    /// Starts a new epoch when the time is up.
    SpawnTimer(Span),
    InstantiateMain,
    LookupExport(String),
    LookupDefault,
    /// Asks for the type of the function that was found.
    InspectFunction,
    CallFunction(Vec<Val>),
    /// Prints a floating point number as a result.
    PrintResult(Val),
    /// Prints a line of text as a result.
    PrintText(String),
    InstantiateCommand,
    CallRun,
    /// Creates the file for a core dump of a failure with this context.
    CreateCoredump { path: String, bytes: Vec<u8>, context: String },
    /// Writes a core dump to the file that was created.
    WriteCoredump { path: String, bytes: Vec<u8>, context: String },
    /// Writes the profile to a file.
    WriteProfile(String),
    /// Prints a line as a message.
    Say(String),
    /// Ends the run.
    Fail(Failure),
}

/// One piece of outside work, as contracts speak of it.
pub enum OpView {
    Enter(Stage),
    InitLogging,
    BuildConfig,
    EnableEpochInterruption,
    SetProfiler(ProfilingStrategy),
    SetWmemcheck(bool),
    CreateEngine,
    MapFile { target: Target, location: Location },
    ReadFile { target: Target, location: Location },
    LoadModule { target: Target, location: Location, kind: ModuleKind, source: SourceView },
    CreateLinker(ModuleKind),
    AllowUnknownExports,
    CreateStore,
    AddPreview1,
    AddPreview1Adapter,
    AddCommandWorld,
    NewPreview1,
    NewPreview2,
    SetArgs(Seq<Seq<char>>),
    ReadVar(Seq<char>),
    ForwardVar(Seq<char>),
    SetVar(Seq<char>, Seq<char>),
    OpenListenFds,
    TakeListener { index: usize, count: usize, last: Option<usize> },
    UnblockListener,
    PreopenListener(u32),
    BindSocket(Seq<char>),
    UnblockSocket,
    PreopenSocket { index: usize, fd: u32 },
    OpenDir(Seq<char>),
    PreopenDir { index: usize, guest: Seq<char>, permissions: Option<Permissions> },
    FinishPreview1,
    FinishPreview2,
    AddWasiNn(ModuleKind),
    PreloadGraphs(Seq<(Seq<char>, Seq<char>)>),
    AddWasiThreads,
    InstallLimits(GivenLimits),
    AddFuel(u64),
    KeepModule { target: Target, name: Seq<char> },
    LinkPreload { index: usize, name: Seq<char>, path: Seq<char> },
    DefineTraps,
    DefineDefaults,
    StartProfile { name: Seq<char>, interval: Span },
    WatchEpochs(Option<u64>),
    SetEpochDeadline(u64),
    SpawnTicker(Span),
    SpawnTimer(Span),
    InstantiateMain,
    LookupExport(Seq<char>),
    LookupDefault,
    InspectFunction,
    CallFunction(Seq<Val>),
    PrintResult(Val),
    PrintText(Seq<char>),
    InstantiateCommand,
    CallRun,
    CreateCoredump { path: Seq<char>, bytes: Seq<u8>, context: Seq<char> },
    WriteCoredump { path: Seq<char>, bytes: Seq<u8>, context: Seq<char> },
    WriteProfile(Seq<char>),
    Say(Seq<char>),
    Fail(FailureView),
}

impl View for Op {
    type V = OpView;

    open spec fn view(&self) -> OpView {
        match self {
            Op::Enter(stage) => OpView::Enter(*stage),
            Op::InitLogging => OpView::InitLogging,
            Op::BuildConfig => OpView::BuildConfig,
            Op::EnableEpochInterruption => OpView::EnableEpochInterruption,
            Op::SetProfiler(strategy) => OpView::SetProfiler(*strategy),
            Op::SetWmemcheck(on) => OpView::SetWmemcheck(*on),
            Op::CreateEngine => OpView::CreateEngine,
            Op::MapFile { target, location } => OpView::MapFile {
                target: *target,
                location: *location,
            },
            Op::ReadFile { target, location } => OpView::ReadFile {
                target: *target,
                location: *location,
            },
            Op::LoadModule { target, location, kind, source } => OpView::LoadModule {
                target: *target,
                location: *location,
                kind: *kind,
                source: source@,
            },
            Op::CreateLinker(kind) => OpView::CreateLinker(*kind),
            Op::AllowUnknownExports => OpView::AllowUnknownExports,
            Op::CreateStore => OpView::CreateStore,
            Op::AddPreview1 => OpView::AddPreview1,
            Op::AddPreview1Adapter => OpView::AddPreview1Adapter,
            Op::AddCommandWorld => OpView::AddCommandWorld,
            Op::NewPreview1 => OpView::NewPreview1,
            Op::NewPreview2 => OpView::NewPreview2,
            Op::SetArgs(args) => OpView::SetArgs(texts(args@)),
            Op::ReadVar(key) => OpView::ReadVar(key@),
            Op::ForwardVar(key) => OpView::ForwardVar(key@),
            Op::SetVar(key, value) => OpView::SetVar(key@, value@),
            Op::OpenListenFds => OpView::OpenListenFds,
            Op::TakeListener { index, count, last } => OpView::TakeListener {
                index: *index,
                count: *count,
                last: *last,
            },
            Op::UnblockListener => OpView::UnblockListener,
            Op::PreopenListener(fd) => OpView::PreopenListener(*fd),
            Op::BindSocket(address) => OpView::BindSocket(address@),
            Op::UnblockSocket => OpView::UnblockSocket,
            Op::PreopenSocket { index, fd } => OpView::PreopenSocket { index: *index, fd: *fd },
            Op::OpenDir(host) => OpView::OpenDir(host@),
            Op::PreopenDir { index, guest, permissions } => OpView::PreopenDir {
                index: *index,
                guest: guest@,
                permissions: *permissions,
            },
            Op::FinishPreview1 => OpView::FinishPreview1,
            Op::FinishPreview2 => OpView::FinishPreview2,
            Op::AddWasiNn(kind) => OpView::AddWasiNn(*kind),
            Op::PreloadGraphs(graphs) => OpView::PreloadGraphs(pairs(graphs@)),
            Op::AddWasiThreads => OpView::AddWasiThreads,
            Op::InstallLimits(limits) => OpView::InstallLimits(*limits),
            Op::AddFuel(fuel) => OpView::AddFuel(*fuel),
            Op::KeepModule { target, name } => OpView::KeepModule { target: *target, name: name@ },
            Op::LinkPreload { index, name, path } => OpView::LinkPreload {
                index: *index,
                name: name@,
                path: path@,
            },
            Op::DefineTraps => OpView::DefineTraps,
            Op::DefineDefaults => OpView::DefineDefaults,
            Op::StartProfile { name, interval } => OpView::StartProfile {
                name: name@,
                interval: *interval,
            },
            Op::WatchEpochs(left) => OpView::WatchEpochs(*left),
            Op::SetEpochDeadline(count) => OpView::SetEpochDeadline(*count),
            Op::SpawnTicker(interval) => OpView::SpawnTicker(*interval),
            Op::SpawnTimer(timeout) => OpView::SpawnTimer(*timeout),
            Op::InstantiateMain => OpView::InstantiateMain,
            Op::LookupExport(name) => OpView::LookupExport(name@),
            Op::LookupDefault => OpView::LookupDefault,
            Op::InspectFunction => OpView::InspectFunction,
            Op::CallFunction(values) => OpView::CallFunction(values@),
            Op::PrintResult(value) => OpView::PrintResult(*value),
            Op::PrintText(text) => OpView::PrintText(text@),
            Op::InstantiateCommand => OpView::InstantiateCommand,
            Op::CallRun => OpView::CallRun,
            Op::CreateCoredump { path, bytes, context } => OpView::CreateCoredump {
                path: path@,
                bytes: bytes@,
                context: context@,
            },
            Op::WriteCoredump { path, bytes, context } => OpView::WriteCoredump {
                path: path@,
                bytes: bytes@,
                context: context@,
            },
            Op::WriteProfile(path) => OpView::WriteProfile(path@),
            Op::Say(line) => OpView::Say(line@),
            Op::Fail(failure) => OpView::Fail(failure@),
        }
    }
}

/// The end of a run for a reason of its own, before the main module is
/// reached.
pub open spec fn failure_for(e: ReasonView) -> OpView {
    OpView::Fail(
        FailureView { cause: CauseView::Own(e), contexts: Seq::empty(), in_main: false },
    )
}

impl Op {
    /// The end of a run for a reason of its own, before the main module is
    /// reached.
    pub fn fail(e: Reason) -> (r: Op)
        ensures
            r@ == failure_for(e@),
    {
        let contexts: Vec<String> = Vec::new();
        assert(texts(contexts@) =~= Seq::<Seq<char>>::empty());
        Op::Fail(Failure { cause: Cause::Own(e), contexts, in_main: false })
    }
}

/// What came of a piece of outside work.
pub enum Event<'a> {
    /// It was done.
    Done,
    /// It failed; the text is what the error says with all that caused it.
    Failed(String),
    /// The bytes of a module, and which kind of precompiled code they were
    /// detected to be, if any.
    Contents { detected: Option<ModuleKind>, bytes: &'a [u8] },
    /// The bytes of a module could be read as a binary or in the text format
    /// only outside, and stand for no binary; the text says why.
    Malformed(String),
    /// The value of a variable.
    Text(String),
    /// How many sockets there are.
    Count(usize),
    /// Whether there was a socket to take.
    Taken(bool),
    /// Nothing is exported under the name.
    Missing,
    /// What is exported under the name is no function.
    NotFunction,
    /// The types of the parameters of a function.
    Signature(Vec<ValType>),
    /// What a function returned.
    Returned(Vec<Val>),
    /// Whether the program of a component ended well.
    Ran(bool),
    /// A function failed: whether it was a trap, and the stack if it is
    /// known.
    Raised { trap: bool, backtrace: Option<Vec<Frame>> },
}

/// What came of a piece of outside work, as contracts speak of it.
pub enum EventView {
    Done,
    Failed(Seq<char>),
    Contents { detected: Option<ModuleKind>, bytes: Seq<u8> },
    Malformed(Seq<char>),
    Text(Seq<char>),
    Count(usize),
    Taken(bool),
    Missing,
    NotFunction,
    Signature(Seq<ValType>),
    Returned(Seq<Val>),
    Ran(bool),
    Raised { trap: bool, backtrace: Option<Seq<Frame>> },
}

impl<'a> View for Event<'a> {
    type V = EventView;

    open spec fn view(&self) -> EventView {
        match self {
            Event::Done => EventView::Done,
            Event::Failed(text) => EventView::Failed(text@),
            Event::Contents { detected, bytes } => EventView::Contents {
                detected: *detected,
                bytes: bytes@,
            },
            Event::Malformed(text) => EventView::Malformed(text@),
            Event::Text(text) => EventView::Text(text@),
            Event::Count(n) => EventView::Count(*n),
            Event::Taken(taken) => EventView::Taken(*taken),
            Event::Missing => EventView::Missing,
            Event::NotFunction => EventView::NotFunction,
            Event::Signature(params) => EventView::Signature(params@),
            Event::Returned(values) => EventView::Returned(values@),
            Event::Ran(ok) => EventView::Ran(*ok),
            Event::Raised { trap, backtrace } => EventView::Raised {
                trap: *trap,
                backtrace: match backtrace {
                    Some(frames) => Some(frames@),
                    None => None,
                },
            },
        }
    }
}

/// One piece of work, if there is one.
pub open spec fn optional(op: Option<OpView>) -> Seq<OpView> {
    match op {
        Some(op) => seq![op],
        None => Seq::empty(),
    }
}

/// A list of outside work, in the order in which it is done.
#[derive(Debug, PartialEq, Eq)]
pub struct Plan {
    ops: Vec<Op>,
}

impl View for Plan {
    type V = Seq<OpView>;

    closed spec fn view(&self) -> Seq<OpView> {
        Seq::new(self.ops@.len(), |i: int| self.ops@[i]@)
    }
}

impl Plan {
    /// Nothing to do.
    pub fn new() -> (r: Plan)
        ensures
            r@ == Seq::<OpView>::empty(),
    {
        let r = Plan { ops: Vec::new() };
        assert(r@ =~= Seq::<OpView>::empty());
        r
    }

    /// One piece of work.
    pub fn of(op: Op) -> (r: Plan)
        ensures
            r@ == seq![op@],
    {
        let mut r = Plan::new();
        r.push(op);
        assert(r@ =~= seq![op@]);
        r
    }

    /// Adds a piece of work at the end.
    pub fn push(&mut self, op: Op)
        ensures
            final(self)@ == old(self)@.push(op@),
    {
        self.ops.push(op);
        assert(self@ =~= old(self)@.push(op@));
    }

    /// Adds another list at the end.
    pub fn append(&mut self, other: Plan)
        ensures
            final(self)@ == old(self)@ + other@,
    {
        let mut other = other;
        let ghost added = other@;
        self.ops.append(&mut other.ops);
        assert(self@ =~= old(self)@ + added);
    }

    /// Takes the first piece of work out of the list, unless it is empty.
    pub fn next(&mut self) -> (r: Option<Op>)
        ensures
            match r {
                Some(op) => {
                    &&& old(self)@.len() > 0
                    &&& op@ == old(self)@[0]
                    &&& final(self)@ == old(self)@.skip(1)
                },
                None => old(self)@.len() == 0 && final(self)@ == old(self)@,
            },
    {
        if self.ops.len() == 0 {
            return None;
        }
        let op = self.ops.remove(0);
        assert(self@ =~= old(self)@.skip(1));
        Some(op)
    }
}

} // verus!
