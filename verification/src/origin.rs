//! Where the work of a run comes from: which work is listed after which.

use crate::command::{Features, RunCommand};
use crate::error::{Problem, ReasonView};
use crate::execute::is_main_work;
use crate::invoke::result_ops;
use crate::parse::Profile;
use crate::plan::{
    all_permissions, CauseView, EventView, ModuleKind, OpView, SourceView, Stage, Target,
};
use crate::text::pairs;
use crate::value::Val;
use crate::wasi::{fd_of, first_free_fd, FIRST_FD};
use vstd::prelude::*;

verus! {

/// The main module, of this kind, was made ready.
pub open spec fn main_loaded(current: OpView, event: EventView, kind: ModuleKind) -> bool {
    current matches OpView::LoadModule { target: Target::Main, kind: loaded, .. } && loaded == kind
        && event is Done
}

/// The main module was made ready.
pub open spec fn some_main_loaded(current: OpView, event: EventView) -> bool {
    current matches OpView::LoadModule { target: Target::Main, .. } && event is Done
}

/// Work that starts a context of WASI.
pub open spec fn makes_context(current: OpView) -> bool {
    current == OpView::Enter(Stage::Preview1) || current == OpView::Enter(Stage::Preview2)
}

/// Work after which sockets and directories may be added to a context of
/// WASI.
pub open spec fn fills_context(current: OpView) -> bool {
    makes_context(current) || hands_bound_sockets(current)
}

/// Work after which the bound sockets may be handed to the program.
pub open spec fn hands_bound_sockets(current: OpView) -> bool {
    current == OpView::Enter(Stage::Preview1) || current is OpenListenFds || current is TakeListener
}

impl RunCommand {
    /// `e` may be the reason for which a run ends after `current`, of which
    /// came `event`.
    pub open spec fn explains(
        &self,
        features: Features,
        current: OpView,
        event: EventView,
        e: ReasonView,
    ) -> bool {
        let for_component = main_loaded(current, event, ModuleKind::Component);
        let in_component = current == OpView::Enter(Stage::Main(ModuleKind::Component));
        match e {
            Problem::CoredumpPattern => some_main_loaded(current, event) && self.coredump_pattern(),
            Problem::UnknownExportsOfComponent => for_component && self.allow_unknown_exports,
            Problem::PreloadForComponent => for_component && self.preloads@.len() > 0,
            Problem::PreloadedComponent => {
                &&& current matches OpView::LoadModule { target, kind, .. } && target != Target::Main
                    && kind == ModuleKind::Component
                &&& event is Done
            },
            Problem::ArgumentForProgram(_) => makes_context(current) && self.argv() == Err::<
                Seq<Seq<char>>,
                ReasonView,
            >(e),
            Problem::TrapImportsOfComponent => in_component && self.trap_unknown_imports,
            Problem::DefaultImportsOfComponent => in_component
                && self.default_values_unknown_imports,
            Problem::InvokeOfComponent => in_component && self.invoke is Some,
            Problem::NoExport(name) => current == OpView::LookupExport(name) && !(event is Done)
                && !(event is NotFunction),
            Problem::NotFunction(name) => current == OpView::LookupExport(name)
                && event is NotFunction,
            Problem::NotEnoughArguments(_) => self.lacks_arguments(current, event, e),
            Problem::ArgumentForFunction(_) => self.lacks_arguments(current, event, e),
            Problem::UnsupportedType(_) => self.lacks_arguments(current, event, e),
            Problem::Integer(_) => self.lacks_arguments(current, event, e),
            Problem::PrecompiledNotAllowed => self.refuses_contents(features, current, event, e),
            Problem::ComponentNotAllowed => self.refuses_contents(features, current, event, e),
            Problem::ComponentsNotSupported => self.refuses_contents(features, current, event, e),
            Problem::TextFormat(text) => {
                ||| self.refuses_contents(features, current, event, e)
                ||| (current is MapFile || current is ReadFile) && event == EventView::Malformed(
                    text,
                )
            },
            Problem::WasiNnNotBuiltIn => some_main_loaded(current, event)
                && self.wasi_modules().wasi_nn && !features.wasi_nn,
            Problem::WasiThreadsNotBuiltIn => some_main_loaded(current, event)
                && self.wasi_modules().wasi_threads && !features.wasi_threads,
            Problem::WasiThreadsForComponent => for_component && self.wasi_modules().wasi_threads
                && features.wasi_threads,
            Problem::WasiHttpNotBuiltIn => some_main_loaded(current, event)
                && self.wasi_modules().wasi_http && !features.wasi_http,
            Problem::WasiHttpReplaced => some_main_loaded(current, event)
                && self.wasi_modules().wasi_http && features.wasi_http,
            Problem::NoVariable(key) => current == OpView::ReadVar(key) && !(event is Text),
            Problem::ListenFdForComponent => current == OpView::Enter(Stage::Preview2)
                && self.listenfd,
            Problem::TcpListenForComponent => current == OpView::Enter(Stage::Preview2)
                && !self.listenfd && self.tcplisten@.len() > 0,
            _ => false,
        }
    }

    /// There are no values for the parameters of a function, for a reason.
    pub open spec fn lacks_arguments(
        &self,
        current: OpView,
        event: EventView,
        e: ReasonView,
    ) -> bool {
        &&& current is InspectFunction
        &&& event matches EventView::Signature(params) && self.arguments(params) == Err::<
            Seq<Val>,
            ReasonView,
        >(e)
    }

    /// The bytes of a file are refused, for a reason.
    pub open spec fn refuses_contents(
        &self,
        features: Features,
        current: OpView,
        event: EventView,
        e: ReasonView,
    ) -> bool {
        match (current, event) {
            (
                OpView::MapFile { target, location },
                EventView::Contents { detected, bytes },
            ) => self.contents_of(features, detected, self.path_of(target, location), bytes, true)
                == Err::<(ModuleKind, SourceView), ReasonView>(e),
            (
                OpView::ReadFile { target, location },
                EventView::Contents { detected, bytes },
            ) => self.contents_of(features, detected, self.path_of(target, location), bytes, false)
                == Err::<(ModuleKind, SourceView), ReasonView>(e),
            _ => false,
        }
    }

    /// `op` may be listed after `current`, of which came `event`.
    pub open spec fn origin(
        &self,
        features: Features,
        current: OpView,
        event: EventView,
        op: OpView,
    ) -> bool {
        match op {
            OpView::Enter(stage) => match stage {
                Stage::Run => false,
                Stage::Preview1 => some_main_loaded(current, event),
                Stage::Preview2 => some_main_loaded(current, event),
                Stage::Main(kind) => main_loaded(current, event, kind),
                Stage::EpochHandler => current matches OpView::Enter(Stage::Main(_)),
            },
            OpView::MapFile { target, location } => {
                &&& location == self.location_of(features, target)
                &&& match target {
                    Target::Main => current == OpView::Enter(Stage::Run),
                    Target::Preload(i) => i < self.preloads@.len() && some_main_loaded(
                        current,
                        event,
                    ),
                }
            },
            OpView::ReadFile { target, location } => current == (OpView::MapFile {
                target,
                location,
            }),
            OpView::LoadModule { target, location, kind, source } => {
                &&& current == (OpView::MapFile { target, location }) || current == (
                OpView::ReadFile { target, location })
                &&& event matches EventView::Contents { detected, bytes } && self.contents_of(
                    features,
                    detected,
                    self.path_of(target, location),
                    bytes,
                    current is MapFile,
                ) == Ok::<(ModuleKind, SourceView), crate::error::ReasonView>((kind, source))
            },
            OpView::OpenListenFds => current == OpView::Enter(Stage::Preview1),
            OpView::TakeListener { index, count, last } => {
                ||| current is OpenListenFds && event == EventView::Count(count) && index == 0
                    && count > 0 && last is None
                ||| current matches OpView::TakeListener { index: position, count: all, last: before }
                    && all == count && index == (position + 1) as usize && index < count && (last
                    == before || last == Some(position))
            },
            OpView::UnblockListener => current is TakeListener,
            OpView::PreopenListener(fd) => {
                &&& current matches OpView::TakeListener { index, .. } && fd == fd_of(FIRST_FD + index)
                &&& event == EventView::Taken(true)
            },
            OpView::PreopenSocket { .. } => hands_bound_sockets(current),
            OpView::InitLogging => current == OpView::Enter(Stage::Run),
            OpView::BuildConfig => current == OpView::Enter(Stage::Run),
            OpView::EnableEpochInterruption => {
                &&& current == OpView::Enter(Stage::Run)
                &&& self.wasm_timeout is Some || (self.profile matches Some(Profile::Guest { .. }))
            },
            OpView::SetProfiler(strategy) => {
                &&& current == OpView::Enter(Stage::Run)
                &&& self.profile matches Some(Profile::Native(given)) && given == strategy
            },
            OpView::SetWmemcheck(on) => current == OpView::Enter(Stage::Run) && on == self.wmemcheck,
            OpView::CreateEngine => current == OpView::Enter(Stage::Run),
            OpView::CreateLinker(kind) => main_loaded(current, event, kind),
            OpView::AllowUnknownExports => self.allow_unknown_exports && main_loaded(
                current,
                event,
                ModuleKind::Core,
            ),
            OpView::CreateStore => some_main_loaded(current, event),
            OpView::AddPreview1 => {
                &&& main_loaded(current, event, ModuleKind::Core)
                &&& self.wasi_modules().wasi_common && !self.preview2
            },
            OpView::AddPreview1Adapter => {
                &&& main_loaded(current, event, ModuleKind::Core)
                &&& self.wasi_modules().wasi_common && self.preview2
            },
            OpView::AddCommandWorld => {
                &&& main_loaded(current, event, ModuleKind::Component)
                &&& self.wasi_modules().wasi_common
            },
            OpView::NewPreview1 => current == OpView::Enter(Stage::Preview1),
            OpView::NewPreview2 => current == OpView::Enter(Stage::Preview2),
            OpView::SetArgs(args) => makes_context(current) && self.argv() == Ok::<
                Seq<Seq<char>>,
                ReasonView,
            >(args),
            OpView::ReadVar(_) => makes_context(current),
            OpView::ForwardVar(_) => {
                &&& current == OpView::Enter(Stage::Preview1)
                &&& self.listenfd && features.unix
            },
            OpView::SetVar(key, value) => {
                ||| makes_context(current)
                ||| current == OpView::ReadVar(key) && event == EventView::Text(value)
                ||| current == OpView::ForwardVar(key) && event == EventView::Text(value)
            },
            OpView::BindSocket(_) => fills_context(current),
            OpView::UnblockSocket => fills_context(current),
            OpView::OpenDir(_) => fills_context(current),
            OpView::PreopenDir { .. } => fills_context(current),
            OpView::FinishPreview1 => hands_bound_sockets(current),
            OpView::FinishPreview2 => current == OpView::Enter(Stage::Preview2),
            OpView::AddWasiNn(kind) => {
                &&& main_loaded(current, event, kind)
                &&& self.wasi_modules().wasi_nn && features.wasi_nn
            },
            OpView::PreloadGraphs(graphs) => {
                &&& some_main_loaded(current, event) && graphs == pairs(self.graphs@)
                &&& self.wasi_modules().wasi_nn && features.wasi_nn
            },
            OpView::AddWasiThreads => {
                &&& main_loaded(current, event, ModuleKind::Core)
                &&& self.wasi_modules().wasi_threads && features.wasi_threads
            },
            OpView::InstallLimits(limits) => limits == self.limits() && some_main_loaded(
                current,
                event,
            ),
            OpView::AddFuel(fuel) => self.common.fuel == Some(fuel) && some_main_loaded(
                current,
                event,
            ),
            OpView::KeepModule { target, name } => match target {
                Target::Main => name.len() == 0 && main_loaded(current, event, ModuleKind::Core),
                Target::Preload(i) => {
                    &&& some_main_loaded(current, event)
                    &&& i < self.preloads@.len() && name == self.preloads@[i as int].0@
                },
            },
            OpView::LinkPreload { index, name, path } => {
                &&& main_loaded(current, event, ModuleKind::Core)
                &&& index < self.preloads@.len()
                &&& name == self.preloads@[index as int].0@
                &&& path == self.preloads@[index as int].1@
            },
            OpView::InstantiateMain => current == OpView::Enter(Stage::Main(ModuleKind::Core)),
            OpView::InspectFunction => current == OpView::Enter(Stage::Main(ModuleKind::Core)),
            OpView::InstantiateCommand => current == OpView::Enter(
                Stage::Main(ModuleKind::Component),
            ),
            OpView::CallRun => current == OpView::Enter(Stage::Main(ModuleKind::Component)),
            OpView::CallFunction(values) => {
                &&& current is InspectFunction
                &&& event matches EventView::Signature(params) && self.arguments(params) == Ok::<
                    Seq<Val>,
                    ReasonView,
                >(values)
            },
            OpView::DefineTraps => {
                &&& current == OpView::Enter(Stage::Main(ModuleKind::Core))
                &&& self.trap_unknown_imports
            },
            OpView::DefineDefaults => {
                &&& current == OpView::Enter(Stage::Main(ModuleKind::Core))
                &&& self.default_values_unknown_imports
            },
            OpView::LookupExport(name) => {
                &&& current == OpView::Enter(Stage::Main(ModuleKind::Core))
                &&& self.invoke matches Some(given) && given@ == name
            },
            OpView::LookupDefault => {
                &&& current == OpView::Enter(Stage::Main(ModuleKind::Core))
                &&& self.invoke is None
            },
            OpView::StartProfile { interval, .. } => {
                &&& current == OpView::Enter(Stage::EpochHandler)
                &&& self.profile matches Some(Profile::Guest { interval: given, .. }) && given
                    == interval
            },
            OpView::WatchEpochs(_) => {
                &&& current == OpView::Enter(Stage::EpochHandler)
                &&& self.profile matches Some(Profile::Guest { .. })
            },
            OpView::SetEpochDeadline(_) => {
                &&& current == OpView::Enter(Stage::EpochHandler)
                &&& self.wasm_timeout is Some || (self.profile matches Some(Profile::Guest { .. }))
            },
            OpView::SpawnTicker(interval) => {
                &&& current == OpView::Enter(Stage::EpochHandler)
                &&& self.profile matches Some(Profile::Guest { interval: given, .. }) && given
                    == interval
            },
            OpView::SpawnTimer(length) => {
                &&& current == OpView::Enter(Stage::EpochHandler)
                &&& self.wasm_timeout == Some(length)
                &&& !(self.profile matches Some(Profile::Guest { .. }))
            },
            OpView::PrintResult(_) => current is CallFunction && event is Returned,
            OpView::PrintText(_) => current is CallFunction && event is Returned,
            OpView::CreateCoredump { path, .. } => {
                &&& current is CallFunction || current is CallRun
                &&& self.coredump_on_trap matches Some(given) && given@ == path
                &&& event matches EventView::Raised { trap: true, backtrace: Some(_) }
            },
            OpView::WriteCoredump { path, bytes, context } => {
                &&& current == (OpView::CreateCoredump { path, bytes, context })
                &&& event is Done
            },
            OpView::WriteProfile(path) => {
                &&& is_main_work(current)
                &&& self.profile matches Some(Profile::Guest { path: given, .. }) && given@ == path
            },
            OpView::Say(_) => is_main_work(current),
            OpView::Fail(failure) => {
                &&& failure.in_main == is_main_work(current)
                &&& failure.in_main ==> failure.contexts.len() > 0 && failure.contexts.last()
                    == self.main_context()
                &&& match failure.cause {
                    CauseView::Own(e) => self.explains(features, current, event, e),
                    CauseView::Exit(status) => status == 1 && current is CallRun && event
                        == EventView::Ran(false),
                    CauseView::Outside => true,
                }
            },
        }
    }

    /// Every piece of a list may be listed after `current`.
    pub open spec fn originates(
        &self,
        features: Features,
        current: OpView,
        event: EventView,
        ops: Seq<OpView>,
    ) -> bool {
        forall|i: int|
            0 <= i < ops.len() ==> self.origin(features, current, event, #[trigger] ops[i])
    }

    /// Two lists may be listed one after the other.
    proof fn lemma_originates_joined(
        &self,
        features: Features,
        current: OpView,
        event: EventView,
        first: Seq<OpView>,
        second: Seq<OpView>,
    )
        requires
            self.originates(features, current, event, first),
            self.originates(features, current, event, second),
        ensures
            self.originates(features, current, event, first + second),
    {
    }

    /// The last part of a context of the first form may come before the main
    /// module.
    proof fn lemma_rest_originates(
        &self,
        features: Features,
        current: OpView,
        event: EventView,
        num_fd: usize,
    )
        requires
            fills_context(current),
        ensures
            hands_bound_sockets(current) ==> self.originates(
                features,
                current,
                event,
                self.preview1_rest(num_fd),
            ),
            self.originates(features, current, event, self.bind_ops()),
            self.originates(features, current, event, self.dir_ops(None)),
            self.originates(features, current, event, self.dir_ops(Some(all_permissions()))),
    {
        assert(self.originates(features, current, event, self.bind_ops()));
        assert(self.originates(features, current, event, self.dir_ops(None)));
        assert(self.originates(features, current, event, self.dir_ops(Some(all_permissions()))));
        if hands_bound_sockets(current) {
            assert(self.originates(features, current, event, self.socket_ops(num_fd)));
            self.lemma_originates_joined(
                features,
                current,
                event,
                self.bind_ops(),
                self.socket_ops(num_fd),
            );
            self.lemma_originates_joined(
                features,
                current,
                event,
                self.bind_ops() + self.socket_ops(num_fd),
                self.dir_ops(None),
            );
        }
    }

    /// The work on WASI may come once the main module is ready.
    proof fn lemma_wasi_originates(
        &self,
        features: Features,
        current: OpView,
        event: EventView,
        kind: ModuleKind,
    )
        requires
            main_loaded(current, event, kind),
        ensures
            self.originates(features, current, event, self.wasi_ops(features, kind)),
    {
        let common = self.wasi_common_ops(kind);
        let nn = self.wasi_nn_ops(features, kind);
        let threads = self.wasi_threads_ops(features, kind);
        let http = self.wasi_http_ops(features);
        assert(self.originates(features, current, event, common));
        assert(self.originates(features, current, event, nn));
        assert(self.originates(features, current, event, threads));
        assert(self.originates(features, current, event, http));
        self.lemma_originates_joined(features, current, event, common, nn);
        self.lemma_originates_joined(features, current, event, common + nn, threads);
        self.lemma_originates_joined(features, current, event, common + nn + threads, http);
    }

    /// The limits may be set once the main module is ready.
    proof fn lemma_limits_originate(
        &self,
        features: Features,
        current: OpView,
        event: EventView,
    )
        requires
            some_main_loaded(current, event),
        ensures
            self.originates(features, current, event, self.limit_ops()),
    {
    }

    /// The work between loading the main module and running it comes then.
    proof fn lemma_setup_originates(
        &self,
        features: Features,
        current: OpView,
        event: EventView,
        kind: ModuleKind,
    )
        requires
            main_loaded(current, event, kind),
        ensures
            self.originates(features, current, event, self.setup_ops(features, kind)),
    {
        if !self.coredump_pattern() {
            let linker = seq![OpView::CreateLinker(kind)] + self.export_ops(kind) + seq![
                OpView::CreateStore,
            ];
            let wasi = self.wasi_ops(features, kind);
            let limits = self.limit_ops();
            let keep = self.keep_ops(kind);
            let preloads = self.preload_ops(features, kind);
            self.lemma_wasi_originates(features, current, event, kind);
            self.lemma_limits_originate(features, current, event);
            assert(self.originates(features, current, event, linker));
            assert(self.originates(features, current, event, keep));
            assert forall|i: int| 0 <= i < preloads.len() implies self.origin(
                features,
                current,
                event,
                #[trigger] preloads[i],
            ) by {
                assert(0 <= i / 3 < self.preloads.len());
                assert((i / 3) as usize as int == i / 3);
            }
            self.lemma_originates_joined(features, current, event, linker, wasi);
            self.lemma_originates_joined(features, current, event, linker + wasi, limits);
            self.lemma_originates_joined(features, current, event, linker + wasi + limits, keep);
            self.lemma_originates_joined(
                features,
                current,
                event,
                linker + wasi + limits + keep,
                preloads,
            );
        }
    }

    /// The work of a stage comes when it is entered.
    proof fn lemma_stage_originates(&self, features: Features, event: EventView, stage: Stage)
        ensures
            self.originates(
                features,
                OpView::Enter(stage),
                event,
                self.stage_ops(features, stage),
            ),
    {
        let current = OpView::Enter(stage);
        match stage {
            Stage::Run => {},
            Stage::Preview1 => {
                self.lemma_rest_originates(features, current, event, FIRST_FD);
                assert(self.originates(features, current, event, self.var_ops()));
                if let Ok(args) = self.argv() {
                    let front = seq![OpView::NewPreview1, OpView::SetArgs(args)];
                    self.lemma_originates_joined(
                        features,
                        current,
                        event,
                        front,
                        self.var_ops(),
                    );
                    self.lemma_originates_joined(
                        features,
                        current,
                        event,
                        front + self.var_ops(),
                        self.preview1_rest(FIRST_FD),
                    );
                }
            },
            Stage::Preview2 => {
                self.lemma_rest_originates(features, current, event, FIRST_FD);
                assert(self.originates(features, current, event, self.var_ops()));
                if let Ok(args) = self.argv() {
                    let front = seq![OpView::NewPreview2, OpView::SetArgs(args)];
                    self.lemma_originates_joined(
                        features,
                        current,
                        event,
                        front,
                        self.var_ops(),
                    );
                }
            },
            Stage::Main(kind) => {
                assert(self.originates(features, current, event, self.import_ops(kind)));
                assert(self.originates(features, current, event, self.call_ops(kind)));
            },
            Stage::EpochHandler => {},
        }
    }

    /// The end of a run after a function failed may come after a call, or
    /// after the work on its core dump.
    proof fn lemma_raised_originates(
        &self,
        features: Features,
        current: OpView,
        event: EventView,
        contexts: Seq<Seq<char>>,
    )
        requires
            is_main_work(current),
        ensures
            self.originates(features, current, event, self.raised_end(contexts)),
            self.originates(features, current, event, self.finish_ops()),
    {
    }

    /// The work after a call comes then.
    proof fn lemma_call_originates(&self, features: Features, current: OpView, event: EventView)
        requires
            match current {
                OpView::InspectFunction => true,
                OpView::CallFunction(_) => true,
                OpView::CallRun => true,
                OpView::CreateCoredump { .. } => true,
                OpView::WriteCoredump { .. } => true,
                OpView::WriteProfile(_) => true,
                _ => false,
            },
        ensures
            self.originates(features, current, event, self.reaction(features, current, event)),
    {
        match current {
            OpView::InspectFunction => {
                self.lemma_raised_originates(features, current, event, Seq::empty());
            },
            OpView::CallFunction(_) => {
                self.lemma_raised_originates(
                    features,
                    current,
                    event,
                    seq![self.invoke_context()],
                );
                if let EventView::Returned(values) = event {
                    assert(self.originates(features, current, event, result_ops(values)));
                }
            },
            OpView::CallRun => {
                self.lemma_raised_originates(
                    features,
                    current,
                    event,
                    seq!["failed to invoke `run` function"@],
                );
            },
            OpView::CreateCoredump { path, context, .. } => {
                self.lemma_raised_originates(features, current, event, seq![context]);
            },
            OpView::WriteCoredump { path, context, .. } => {
                self.lemma_raised_originates(features, current, event, seq![context]);
                self.lemma_raised_originates(
                    features,
                    current,
                    event,
                    seq![context, "core dumped at "@ + path],
                );
            },
            _ => {},
        }
    }

    /// Work that is done or not lists nothing, or the end of the run.
    proof fn lemma_simple_originates(&self, features: Features, current: OpView, event: EventView)
        requires
            !(current is Fail),
        ensures
            self.originates(features, current, event, seq![self.outside_failure(current)]),
    {
    }

    /// Every piece of work is listed after work from which it may come.
    pub proof fn lemma_reaction_originates(
        &self,
        features: Features,
        current: OpView,
        event: EventView,
    )
        requires
            !(current is Fail),
        ensures
            self.originates(features, current, event, self.reaction(features, current, event)),
    {
        match current {
            OpView::Enter(stage) => {
                self.lemma_stage_originates(features, event, stage);
            },
            OpView::LoadModule { target, kind, .. } => {
                if target == Target::Main && event is Done {
                    self.lemma_setup_originates(features, current, event, kind);
                }
            },
            OpView::OpenListenFds => {
                self.lemma_rest_originates(features, current, event, FIRST_FD);
            },
            OpView::TakeListener { index, count, last } => {
                self.lemma_rest_originates(features, current, event, first_free_fd(last));
                self.lemma_rest_originates(
                    features,
                    current,
                    event,
                    first_free_fd(Some(index)),
                );
            },
            OpView::InspectFunction => {
                self.lemma_call_originates(features, current, event);
            },
            OpView::CallFunction(_) => {
                self.lemma_call_originates(features, current, event);
            },
            OpView::CallRun => {
                self.lemma_call_originates(features, current, event);
            },
            OpView::CreateCoredump { .. } => {
                self.lemma_call_originates(features, current, event);
            },
            OpView::WriteCoredump { .. } => {
                self.lemma_call_originates(features, current, event);
            },
            OpView::WriteProfile(_) => {
                self.lemma_call_originates(features, current, event);
            },
            _ => {
                self.lemma_simple_originates(features, current, event);
            },
        }
    }
}

} // verus!
