//! A run as a whole: from what was done and what came of it to what is done
//! next.

use crate::command::{Features, RunCommand};
use crate::coredump::{dumpable, is_dumpable};
use crate::error::Problem;
use crate::format::{is_parsable, parsable};
use crate::parse::Profile;
use crate::plan::{
    failure_for, optional, Cause, CauseView, Event, EventView, Failure, FailureView, Location,
    ModuleKind, Op, OpView, Plan, Stage, Target,
};
use crate::text::{contains, join, join3, occurs, texts};
use crate::wasi::{fd_of, FIRST_FD};
use vstd::prelude::*;

verus! {

/// A run that is going on: the outside work being done, and what follows if
/// nothing fails.
#[derive(Debug, PartialEq, Eq)]
pub struct Progress {
    pub current: Op,
    pub pending: Plan,
}

/// A run that is going on, as contracts speak of it.
pub struct ProgressView {
    pub current: OpView,
    pub pending: Seq<OpView>,
}

impl View for Progress {
    type V = ProgressView;

    open spec fn view(&self) -> ProgressView {
        ProgressView { current: self.current@, pending: self.pending@ }
    }
}

/// How a run goes on.
#[derive(Debug, PartialEq, Eq)]
pub enum Step {
    /// The current work is to be done.
    Perform(Progress),
    /// The run is over.
    Finished(Result<(), Failure>),
}

/// How a run goes on, as contracts speak of it.
pub enum StepView {
    Perform(ProgressView),
    Finished(Result<(), FailureView>),
}

impl View for Step {
    type V = StepView;

    open spec fn view(&self) -> StepView {
        match self {
            Step::Perform(progress) => StepView::Perform(progress@),
            Step::Finished(Ok(_)) => StepView::Finished(Ok(())),
            Step::Finished(Err(failure)) => StepView::Finished(Err(failure@)),
        }
    }
}

/// The state in which a run starts.
pub open spec fn start_of_run() -> ProgressView {
    ProgressView { current: OpView::Enter(Stage::Run), pending: Seq::empty() }
}

impl Progress {
    /// The state in which a run starts.
    pub fn start() -> (r: Progress)
        ensures
            r@ == start_of_run(),
    {
        Progress { current: Op::Enter(Stage::Run), pending: Plan::new() }
    }
}

/// How a run goes on with a list of work: the first piece is done, or ends
/// the run.
pub open spec fn advance(pending: Seq<OpView>) -> StepView {
    if pending.len() == 0 {
        StepView::Finished(Ok(()))
    } else {
        match pending[0] {
            OpView::Fail(failure) => StepView::Finished(Err(failure)),
            op => StepView::Perform(ProgressView { current: op, pending: pending.skip(1) }),
        }
    }
}

/// Work on the main module, from the point where it is reached. Failures of
/// it are failures of the program.
pub open spec fn is_main_work(op: OpView) -> bool {
    match op {
        OpView::Enter(Stage::Main(_)) => true,
        OpView::Enter(Stage::EpochHandler) => true,
        OpView::DefineTraps => true,
        OpView::DefineDefaults => true,
        OpView::StartProfile { .. } => true,
        OpView::WatchEpochs(_) => true,
        OpView::SetEpochDeadline(_) => true,
        OpView::SpawnTicker(_) => true,
        OpView::SpawnTimer(_) => true,
        OpView::InstantiateMain => true,
        OpView::LookupExport(_) => true,
        OpView::LookupDefault => true,
        OpView::InspectFunction => true,
        OpView::CallFunction(_) => true,
        OpView::PrintResult(_) => true,
        OpView::PrintText(_) => true,
        OpView::InstantiateCommand => true,
        OpView::CallRun => true,
        OpView::CreateCoredump { .. } => true,
        OpView::WriteCoredump { .. } => true,
        OpView::WriteProfile(_) => true,
        OpView::Say(_) => true,
        _ => false,
    }
}

impl RunCommand {
    /// What is done until the main module can be read.
    pub open spec fn engine_ops(&self, features: Features) -> Seq<OpView> {
        seq![OpView::InitLogging, OpView::BuildConfig] + (if self.wasm_timeout is Some {
            seq![OpView::EnableEpochInterruption]
        } else {
            Seq::empty()
        }) + (match self.profile {
            Some(Profile::Native(strategy)) => seq![OpView::SetProfiler(strategy)],
            Some(Profile::Guest { .. }) => seq![OpView::EnableEpochInterruption],
            None => Seq::empty(),
        }) + seq![
            OpView::SetWmemcheck(self.wmemcheck),
            OpView::CreateEngine,
            OpView::MapFile {
                target: Target::Main,
                location: self.location_of(features, Target::Main),
            },
        ]
    }

    /// The path for core dumps holds a pattern.
    pub open spec fn coredump_pattern(&self) -> bool {
        self.coredump_on_trap matches Some(path) && occurs(path@, "%"@)
    }

    /// What is done about unknown exports.
    pub open spec fn export_ops(&self, kind: ModuleKind) -> Seq<OpView> {
        if !self.allow_unknown_exports {
            Seq::empty()
        } else {
            match kind {
                ModuleKind::Core => seq![OpView::AllowUnknownExports],
                ModuleKind::Component => seq![failure_for(Problem::UnknownExportsOfComponent)],
            }
        }
    }

    /// What limits the resources of the program.
    pub open spec fn limit_ops(&self) -> Seq<OpView> {
        seq![OpView::InstallLimits(self.limits())] + optional(
            match self.common.fuel {
                Some(fuel) => Some(OpView::AddFuel(fuel)),
                None => None,
            },
        )
    }

    /// What is done with the modules to load before: each is loaded, kept
    /// and linked before the next.
    pub open spec fn preload_ops(&self, features: Features, kind: ModuleKind) -> Seq<OpView> {
        Seq::new(
            3 * self.preloads@.len(),
            |i: int|
                if i % 3 == 0 {
                    OpView::MapFile {
                        target: Target::Preload((i / 3) as usize),
                        location: self.location_of(features, Target::Preload((i / 3) as usize)),
                    }
                } else if i % 3 == 1 {
                    OpView::KeepModule {
                        target: Target::Preload((i / 3) as usize),
                        name: self.preloads@[i / 3].0@,
                    }
                } else {
                    match kind {
                        ModuleKind::Core => OpView::LinkPreload {
                            index: (i / 3) as usize,
                            name: self.preloads@[i / 3].0@,
                            path: self.preloads@[i / 3].1@,
                        },
                        ModuleKind::Component => failure_for(Problem::PreloadForComponent),
                    }
                },
        )
    }

    /// The main module is kept, without a name, where it is a core module.
    pub open spec fn keep_ops(&self, kind: ModuleKind) -> Seq<OpView> {
        match kind {
            ModuleKind::Core => seq![
                OpView::KeepModule { target: Target::Main, name: Seq::empty() },
            ],
            ModuleKind::Component => Seq::empty(),
        }
    }

    /// What is done between loading the main module and running it.
    pub open spec fn setup_ops(&self, features: Features, kind: ModuleKind) -> Seq<OpView> {
        if self.coredump_pattern() {
            seq![failure_for(Problem::CoredumpPattern)]
        } else {
            seq![OpView::CreateLinker(kind)] + self.export_ops(kind) + seq![OpView::CreateStore]
                + self.wasi_ops(features, kind) + self.limit_ops() + self.keep_ops(kind)
                + self.preload_ops(features, kind) + seq![OpView::Enter(Stage::Main(kind))]
        }
    }

    /// What is done in a stage.
    pub open spec fn stage_ops(&self, features: Features, stage: Stage) -> Seq<OpView> {
        match stage {
            Stage::Run => self.engine_ops(features),
            Stage::Preview1 => self.preview1_ops(features),
            Stage::Preview2 => self.preview2_ops(),
            Stage::Main(kind) => self.main_ops(kind),
            Stage::EpochHandler => self.epoch_ops(),
        }
    }

    /// The contexts of a failure of outside work, but for that of the main
    /// module.
    pub open spec fn contexts_of(&self, op: OpView) -> Seq<Seq<char>> {
        match op {
            OpView::ReadFile { target, location } => seq![
                "failed to read file: "@ + self.path_of(target, location).lossy,
            ],
            OpView::BindSocket(address) => seq![
                "failed to bind to address '"@ + address + "'"@,
            ],
            OpView::OpenDir(host) => seq!["failed to open directory '"@ + host + "'"@],
            OpView::LinkPreload { name, path, .. } => seq![
                "failed to process preload `"@ + name + "` at `"@ + path + "`"@,
            ],
            OpView::InstantiateMain => seq![
                "failed to instantiate "@ + self.main_arg().whole.quoted@,
            ],
            _ => Seq::empty(),
        }
    }

    /// The end of a run after outside work failed.
    pub open spec fn outside_failure(&self, op: OpView) -> OpView {
        if is_main_work(op) {
            self.main_failure(CauseView::Outside, self.contexts_of(op))
        } else {
            OpView::Fail(
                FailureView {
                    cause: CauseView::Outside,
                    contexts: self.contexts_of(op),
                    in_main: false,
                },
            )
        }
    }

    /// What is done with the bytes of a file.
    pub open spec fn contents_ops(
        &self,
        features: Features,
        target: Target,
        location: Location,
        detected: Option<ModuleKind>,
        bytes: Seq<u8>,
        mapped: bool,
    ) -> Seq<OpView> {
        match self.contents_of(
            features,
            detected,
            self.path_of(target, location),
            bytes,
            mapped,
        ) {
            Ok(contents) => seq![
                OpView::LoadModule { target, location, kind: contents.0, source: contents.1 },
            ],
            Err(e) => seq![failure_for(e)],
        }
    }

    /// What is done once a module is loaded.
    pub open spec fn loaded_ops(&self, features: Features, target: Target, kind: ModuleKind) -> Seq<
        OpView,
    > {
        match (target, kind) {
            (Target::Main, _) => self.setup_ops(features, kind),
            (Target::Preload(_), ModuleKind::Core) => Seq::empty(),
            (Target::Preload(_), ModuleKind::Component) => seq![
                failure_for(Problem::PreloadedComponent),
            ],
        }
    }

    /// What is done after an inherited socket was taken or was not there. A
    /// socket that was taken is made nonblocking and keeps its place.
    pub open spec fn taken_ops(
        &self,
        index: usize,
        count: usize,
        last: Option<usize>,
        taken: bool,
    ) -> Seq<OpView> {
        if taken {
            seq![
                OpView::UnblockListener,
                OpView::PreopenListener(fd_of(FIRST_FD + index)),
            ] + self.listener_ops(count, (index + 1) as usize, Some(index))
        } else {
            self.listener_ops(count, (index + 1) as usize, last)
        }
    }

    /// What is done once a profile was written or was not.
    pub open spec fn profile_ops(&self, path: Seq<char>, event: EventView) -> Seq<OpView> {
        match event {
            EventView::Failed(text) => seq![
                OpView::Say("failed writing profile at "@ + path + ": "@ + text),
            ],
            _ => seq![
                OpView::Say(Seq::empty()),
                OpView::Say("Profile written to: "@ + path),
                OpView::Say("View this profile at https://profiler.firefox.com/."@),
            ],
        }
    }

    /// What is done after a piece of work, before what is pending. Printing
    /// does not fail.
    pub open spec fn reaction(&self, features: Features, current: OpView, event: EventView) -> Seq<
        OpView,
    > {
        match current {
            OpView::Enter(stage) => self.stage_ops(features, stage),
            OpView::MapFile { target, location } => match event {
                EventView::Contents { detected, bytes } => self.contents_ops(
                    features,
                    target,
                    location,
                    detected,
                    bytes,
                    true,
                ),
                EventView::Malformed(text) => seq![failure_for(Problem::TextFormat(text))],
                _ => seq![OpView::ReadFile { target, location }],
            },
            OpView::ReadFile { target, location } => match event {
                EventView::Contents { detected, bytes } => self.contents_ops(
                    features,
                    target,
                    location,
                    detected,
                    bytes,
                    false,
                ),
                EventView::Malformed(text) => seq![failure_for(Problem::TextFormat(text))],
                _ => seq![self.outside_failure(current)],
            },
            OpView::LoadModule { target, kind, .. } => match event {
                EventView::Done => self.loaded_ops(features, target, kind),
                _ => seq![self.outside_failure(current)],
            },
            OpView::ReadVar(key) => match event {
                EventView::Text(value) => seq![OpView::SetVar(key, value)],
                _ => seq![failure_for(Problem::NoVariable(key))],
            },
            OpView::ForwardVar(key) => match event {
                EventView::Text(value) => seq![OpView::SetVar(key, value)],
                _ => Seq::empty(),
            },
            OpView::OpenListenFds => match event {
                EventView::Count(n) => self.listener_ops(n, 0, None),
                _ => seq![self.outside_failure(current)],
            },
            OpView::TakeListener { index, count, last } => match event {
                EventView::Taken(taken) => self.taken_ops(index, count, last, taken),
                _ => seq![self.outside_failure(current)],
            },
            OpView::LookupExport(name) => match event {
                EventView::Done => Seq::empty(),
                EventView::NotFunction => seq![
                    self.main_failure(CauseView::Own(Problem::NotFunction(name)), Seq::empty()),
                ],
                _ => seq![
                    self.main_failure(CauseView::Own(Problem::NoExport(name)), Seq::empty()),
                ],
            },
            OpView::InspectFunction => match event {
                EventView::Signature(params) => self.invoke_ops(params),
                _ => seq![self.outside_failure(current)],
            },
            OpView::CallFunction(_) => match event {
                EventView::Returned(values) => self.returned_ops(values),
                EventView::Raised { trap, backtrace } => self.raised_ops(
                    self.invoke_context(),
                    trap,
                    backtrace,
                ),
                _ => self.raised_ops(self.invoke_context(), false, None),
            },
            OpView::CallRun => match event {
                EventView::Ran(true) => self.finish_ops(),
                EventView::Ran(false) => self.finish_ops() + seq![
                    self.main_failure(CauseView::Exit(1), Seq::empty()),
                ],
                EventView::Raised { trap, backtrace } => self.raised_ops(
                    "failed to invoke `run` function"@,
                    trap,
                    backtrace,
                ),
                _ => self.raised_ops("failed to invoke `run` function"@, false, None),
            },
            OpView::CreateCoredump { path, bytes, context } => match event {
                EventView::Done => seq![OpView::WriteCoredump { path, bytes, context }],
                _ => seq![
                    self.coredump_warning("failed to create file at `"@ + path + "`"@),
                ] + self.raised_end(seq![context]),
            },
            OpView::WriteCoredump { path, bytes, context } => match event {
                EventView::Done => self.raised_end(seq![context, "core dumped at "@ + path]),
                _ => seq![
                    self.coredump_warning("failed to write coredump file at `"@ + path + "`"@),
                ] + self.raised_end(seq![context]),
            },
            OpView::WriteProfile(path) => self.profile_ops(path, event),
            OpView::PrintResult(_) => Seq::empty(),
            OpView::PrintText(_) => Seq::empty(),
            OpView::Say(_) => Seq::empty(),
            OpView::Fail(_) => seq![current],
            _ => match event {
                EventView::Done => Seq::empty(),
                _ => seq![self.outside_failure(current)],
            },
        }
    }

    /// How a run goes on after the current work.
    pub open spec fn next_step(
        &self,
        features: Features,
        progress: ProgressView,
        event: EventView,
    ) -> StepView {
        advance(self.reaction(features, progress.current, event) + progress.pending)
    }

    /// A piece of work speaks of modules that the command names, and of
    /// sockets that can be counted.
    pub open spec fn op_wf(&self, op: OpView) -> bool {
        match op {
            OpView::MapFile { target, .. } => self.has_target(target),
            OpView::ReadFile { target, .. } => self.has_target(target),
            OpView::LoadModule { target, .. } => self.has_target(target),
            OpView::TakeListener { index, count, last } => {
                &&& index < count
                &&& FIRST_FD + count + self.tcplisten@.len() <= usize::MAX
                &&& last matches Some(position) ==> position < index
            },
            _ => true,
        }
    }

    /// Every piece of work of a list is of that sort.
    pub open spec fn ops_wf(&self, ops: Seq<OpView>) -> bool {
        forall|i: int| 0 <= i < ops.len() ==> self.op_wf(#[trigger] ops[i])
    }

    /// The state of a run of this command.
    pub open spec fn progress_wf(&self, progress: ProgressView) -> bool {
        self.op_wf(progress.current) && self.ops_wf(progress.pending)
    }

    /// A run can go on: the bytes of a module can be parsed, its path has a
    /// last component where a program is told its name, there is time to
    /// count, sockets can be counted, and a core dump can be written.
    pub open spec fn can_go_on(&self, current: OpView, event: EventView) -> bool {
        match (current, event) {
            (OpView::Enter(Stage::Preview1), _) => {
                &&& self.main_arg().components@.len() > 0
                &&& FIRST_FD + self.tcplisten@.len() <= usize::MAX
            },
            (OpView::Enter(Stage::Preview2), _) => self.main_arg().components@.len() > 0,
            (OpView::Enter(Stage::EpochHandler), _) => self.countable(),
            (OpView::MapFile { .. }, EventView::Contents { detected, bytes }) => detected is None
                ==> parsable(bytes),
            (OpView::ReadFile { .. }, EventView::Contents { detected, bytes }) => detected is None
                ==> parsable(bytes),
            (OpView::OpenListenFds, EventView::Count(n)) => FIRST_FD + n + self.tcplisten@.len()
                <= usize::MAX,
            (OpView::CallFunction(_), EventView::Raised { trap, backtrace }) => self.dumps(
                trap,
                backtrace,
            ) ==> dumpable(self.source_name(), backtrace->0),
            (OpView::CallRun, EventView::Raised { trap, backtrace }) => self.dumps(
                trap,
                backtrace,
            ) ==> dumpable(self.source_name(), backtrace->0),
            _ => true,
        }
    }

    /// What is done until the main module can be read.
    pub fn plan_engine(&self, features: &Features) -> (r: Plan)
        requires
            self.wf(),
        ensures
            r@ == self.engine_ops(*features),
    {
        let mut plan = Plan::new();
        plan.push(Op::InitLogging);
        plan.push(Op::BuildConfig);
        if self.wasm_timeout.is_some() {
            plan.push(Op::EnableEpochInterruption);
        }
        match &self.profile {
            Some(Profile::Native(strategy)) => plan.push(Op::SetProfiler(*strategy)),
            Some(Profile::Guest { .. }) => plan.push(Op::EnableEpochInterruption),
            None => {},
        }
        plan.push(Op::SetWmemcheck(self.wmemcheck));
        plan.push(Op::CreateEngine);
        let location = self.load_module(features, Target::Main);
        plan.push(Op::MapFile { target: Target::Main, location });
        assert(plan@ =~= self.engine_ops(*features));
        plan
    }

    /// What limits the resources of the program.
    pub fn plan_limits(&self) -> (r: Plan)
        ensures
            r@ == self.limit_ops(),
    {
        let mut plan = Plan::of(Op::InstallLimits(self.given_limits()));
        let ghost installed = plan@;
        if let Some(fuel) = self.common.fuel {
            plan.push(Op::AddFuel(fuel));
        }
        assert(plan@ =~= installed + optional(
            match self.common.fuel {
                Some(fuel) => Some(OpView::AddFuel(fuel)),
                None => None,
            },
        ));
        plan
    }

    /// Adds what is done with the modules to load before.
    fn plan_preloads(&self, plan: &mut Plan, features: &Features, kind: ModuleKind)
        ensures
            final(plan)@ == old(plan)@ + self.preload_ops(*features, kind),
    {
        let mut i: usize = 0;
        assert(plan@ =~= old(plan)@ + self.preload_ops(*features, kind).take(0));
        while i < self.preloads.len()
            invariant
                i <= self.preloads@.len(),
                plan@ == old(plan)@ + self.preload_ops(*features, kind).take(3 * i),
            decreases self.preloads@.len() - i,
        {
            let target = Target::Preload(i);
            let location = self.load_module(features, target);
            let name: String = self.preloads[i].0.clone();
            plan.push(Op::MapFile { target, location });
            plan.push(Op::KeepModule { target, name });
            match kind {
                ModuleKind::Core => plan.push(
                    Op::LinkPreload {
                        index: i,
                        name: self.preloads[i].0.clone(),
                        path: self.preloads[i].1.clone(),
                    },
                ),
                ModuleKind::Component => plan.push(Op::fail(Problem::PreloadForComponent)),
            }
            i += 1;
            assert(plan@ =~= old(plan)@ + self.preload_ops(*features, kind).take(3 * i));
        }
        assert(self.preload_ops(*features, kind).take(3 * i) =~= self.preload_ops(
            *features,
            kind,
        ));
    }

    /// What is done between loading the main module and running it.
    pub fn plan_setup(&self, features: &Features, kind: ModuleKind) -> (r: Plan)
        ensures
            r@ == self.setup_ops(*features, kind),
    {
        if let Some(path) = &self.coredump_on_trap {
            if contains(path.as_str(), "%") {
                return Plan::of(Op::fail(Problem::CoredumpPattern));
            }
        }
        let mut plan = Plan::of(Op::CreateLinker(kind));
        if self.allow_unknown_exports {
            match kind {
                ModuleKind::Core => plan.push(Op::AllowUnknownExports),
                ModuleKind::Component => plan.push(
                    Op::fail(Problem::UnknownExportsOfComponent),
                ),
            }
        }
        assert(plan@ =~= seq![OpView::CreateLinker(kind)] + self.export_ops(kind));
        plan.push(Op::CreateStore);
        plan.append(self.populate_with_wasi(features, kind));
        plan.append(self.plan_limits());
        let ghost limited = plan@;
        match kind {
            ModuleKind::Core => plan.push(
                Op::KeepModule { target: Target::Main, name: String::new() },
            ),
            ModuleKind::Component => {},
        }
        assert(plan@ =~= limited + self.keep_ops(kind));
        self.plan_preloads(&mut plan, features, kind);
        plan.push(Op::Enter(Stage::Main(kind)));
        assert(plan@ =~= self.setup_ops(*features, kind));
        plan
    }

    /// What is done in a stage.
    fn plan_stage(&self, features: &Features, stage: Stage) -> (r: Plan)
        requires
            self.wf(),
            self.can_go_on(OpView::Enter(stage), EventView::Done),
        ensures
            r@ == self.stage_ops(*features, stage),
    {
        match stage {
            Stage::Run => self.plan_engine(features),
            Stage::Preview1 => self.set_preview1_ctx(features),
            Stage::Preview2 => self.set_preview2_ctx(),
            Stage::Main(kind) => self.load_main_module(kind),
            Stage::EpochHandler => self.setup_epoch_handler(),
        }
    }

    /// What is done with the bytes of a file.
    fn plan_contents(
        &self,
        features: &Features,
        target: Target,
        location: Location,
        detected: Option<ModuleKind>,
        bytes: &[u8],
        mapped: bool,
    ) -> (r: Plan)
        requires
            self.has_target(target),
            detected is None ==> parsable(bytes@),
        ensures
            r@ == self.contents_ops(*features, target, location, detected, bytes@, mapped),
    {
        let path = self.show_path(target, location);
        match self.load_detected(features, detected, &path, bytes, mapped) {
            Ok((kind, source)) => Plan::of(Op::LoadModule { target, location, kind, source }),
            Err(e) => Plan::of(Op::fail(e)),
        }
    }

    /// What is done once a module is loaded.
    fn plan_loaded(&self, features: &Features, target: Target, kind: ModuleKind) -> (r: Plan)
        ensures
            r@ == self.loaded_ops(*features, target, kind),
    {
        match target {
            Target::Main => self.plan_setup(features, kind),
            Target::Preload(_) => match kind {
                ModuleKind::Core => Plan::new(),
                ModuleKind::Component => Plan::of(Op::fail(Problem::PreloadedComponent)),
            },
        }
    }

    /// What is done after an inherited socket was taken or was not there.
    fn plan_taken(
        &self,
        index: usize,
        count: usize,
        last: Option<usize>,
        taken: bool,
    ) -> (r: Plan)
        requires
            self.op_wf(OpView::TakeListener { index, count, last }),
        ensures
            r@ == self.taken_ops(index, count, last, taken),
    {
        if taken {
            let number: usize = FIRST_FD + index;
            let fd: u32 = #[verifier::truncate]
            (number as u32);
            let mut plan = Plan::of(Op::UnblockListener);
            plan.push(Op::PreopenListener(fd));
            assert(plan@ =~= seq![
                OpView::UnblockListener,
                OpView::PreopenListener(fd_of(FIRST_FD + index)),
            ]);
            plan.append(self.ctx_set_listenfd(count, index + 1, Some(index)));
            plan
        } else {
            self.ctx_set_listenfd(count, index + 1, last)
        }
    }

    /// The contexts of a failure of outside work, but for that of the main
    /// module.
    fn describe(&self, op: &Op) -> (r: Vec<String>)
        requires
            self.wf(),
            self.op_wf(op@),
        ensures
            texts(r@) == self.contexts_of(op@),
    {
        let mut contexts: Vec<String> = Vec::new();
        match op {
            Op::ReadFile { target, location } => {
                let path = self.show_path(*target, *location);
                contexts.push(join("failed to read file: ", path.lossy.as_str()));
            },
            Op::BindSocket(address) => {
                contexts.push(join3("failed to bind to address '", address.as_str(), "'"));
            },
            Op::OpenDir(host) => {
                contexts.push(join3("failed to open directory '", host.as_str(), "'"));
            },
            Op::LinkPreload { index: _, name, path } => {
                let front: String = join3("failed to process preload `", name.as_str(), "` at `");
                contexts.push(join3(front.as_str(), path.as_str(), "`"));
            },
            Op::InstantiateMain => {
                contexts.push(
                    join(
                        "failed to instantiate ",
                        self.module_and_args[0].whole.quoted.as_str(),
                    ),
                );
            },
            _ => {},
        }
        assert(texts(contexts@) =~= self.contexts_of(op@));
        contexts
    }

    /// The end of a run after outside work failed.
    fn fail_outside(&self, op: &Op) -> (r: Op)
        requires
            self.wf(),
            self.op_wf(op@),
        ensures
            r@ == self.outside_failure(op@),
    {
        let contexts: Vec<String> = self.describe(op);
        let in_main: bool = match op {
            Op::Enter(Stage::Main(_)) => true,
            Op::Enter(Stage::EpochHandler) => true,
            Op::DefineTraps => true,
            Op::DefineDefaults => true,
            Op::StartProfile { .. } => true,
            Op::WatchEpochs(_) => true,
            Op::SetEpochDeadline(_) => true,
            Op::SpawnTicker(_) => true,
            Op::SpawnTimer(_) => true,
            Op::InstantiateMain => true,
            Op::LookupExport(_) => true,
            Op::LookupDefault => true,
            Op::InspectFunction => true,
            Op::CallFunction(_) => true,
            Op::PrintResult(_) => true,
            Op::PrintText(_) => true,
            Op::InstantiateCommand => true,
            Op::CallRun => true,
            Op::CreateCoredump { .. } => true,
            Op::WriteCoredump { .. } => true,
            Op::WriteProfile(_) => true,
            Op::Say(_) => true,
            _ => false,
        };
        if in_main {
            self.fail_main(Cause::Outside, contexts)
        } else {
            Op::Fail(Failure { cause: Cause::Outside, contexts, in_main: false })
        }
    }

    /// What is done once a profile was written or was not.
    fn plan_profile(&self, path: &str, event: &Event) -> (r: Plan)
        ensures
            r@ == self.profile_ops(path@, event@),
    {
        match event {
            Event::Failed(text) => {
                let front: String = join3("failed writing profile at ", path, ": ");
                Plan::of(Op::Say(join(front.as_str(), text.as_str())))
            },
            _ => {
                let mut plan = Plan::new();
                plan.push(Op::Say(String::new()));
                plan.push(Op::Say(join("Profile written to: ", path)));
                plan.push(
                    Op::Say("View this profile at https://profiler.firefox.com/.".to_owned()),
                );
                assert(plan@ =~= self.profile_ops(path@, event@));
                plan
            },
        }
    }

    /// The end of a run in the main module for a reason of its own.
    fn plan_main_failure(&self, cause: Cause) -> (r: Plan)
        requires
            self.wf(),
        ensures
            r@ == seq![self.main_failure(cause@, Seq::empty())],
    {
        let contexts: Vec<String> = Vec::new();
        assert(texts(contexts@) =~= Seq::<Seq<char>>::empty());
        Plan::of(self.fail_main(cause, contexts))
    }

    /// What is done after the program of a component ended.
    fn plan_ran(&self, ok: bool) -> (r: Plan)
        requires
            self.wf(),
        ensures
            r@ == self.finish_ops() + (if ok {
                Seq::empty()
            } else {
                seq![self.main_failure(CauseView::Exit(1), Seq::empty())]
            }),
    {
        let mut plan = self.plan_finish();
        if !ok {
            plan.append(self.plan_main_failure(Cause::Exit(1)));
        }
        assert(plan@ =~= self.finish_ops() + (if ok {
            Seq::empty()
        } else {
            seq![self.main_failure(CauseView::Exit(1), Seq::empty())]
        }));
        plan
    }

    /// What is done after the file for a core dump was created or was not.
    fn plan_created(&self, path: String, bytes: Vec<u8>, context: String, event: &Event) -> (r: Plan)
        requires
            self.wf(),
        ensures
            forall|features: Features|
                r@ == #[trigger] self.reaction(
                    features,
                    OpView::CreateCoredump { path: path@, bytes: bytes@, context: context@ },
                    event@,
                ),
    {
        match event {
            Event::Done => Plan::of(Op::WriteCoredump { path, bytes, context }),
            _ => {
                let reason: String = join3("failed to create file at `", path.as_str(), "`");
                let mut plan = Plan::of(self.warn_coredump(reason.as_str()));
                plan.append(self.end_with(context));
                plan
            },
        }
    }

    /// What is done after a core dump was written or was not.
    fn plan_written(&self, path: String, bytes: Vec<u8>, context: String, event: &Event) -> (r: Plan)
        requires
            self.wf(),
        ensures
            forall|features: Features|
                r@ == #[trigger] self.reaction(
                    features,
                    OpView::WriteCoredump { path: path@, bytes: bytes@, context: context@ },
                    event@,
                ),
    {
        match event {
            Event::Done => {
                let mut contexts: Vec<String> = Vec::new();
                let dumped: String = join("core dumped at ", path.as_str());
                contexts.push(context);
                contexts.push(dumped);
                assert(texts(contexts@) =~= seq![context@, "core dumped at "@ + path@]);
                self.end_raised(contexts)
            },
            _ => {
                let reason: String = join3(
                    "failed to write coredump file at `",
                    path.as_str(),
                    "`",
                );
                let mut plan = Plan::of(self.warn_coredump(reason.as_str()));
                plan.append(self.end_with(context));
                plan
            },
        }
    }

    /// What is done after a piece of work, before what is pending.
    pub fn react(&self, features: &Features, current: Op, event: Event) -> (r: Plan)
        requires
            self.wf(),
            self.op_wf(current@),
            self.can_go_on(current@, event@),
        ensures
            r@ == self.reaction(*features, current@, event@),
    {
        match current {
            Op::Enter(stage) => self.plan_stage(features, stage),
            Op::MapFile { target, location } => match event {
                Event::Contents { detected, bytes } => self.plan_contents(
                    features,
                    target,
                    location,
                    detected,
                    bytes,
                    true,
                ),
                Event::Malformed(text) => Plan::of(Op::fail(Problem::TextFormat(text))),
                _ => Plan::of(Op::ReadFile { target, location }),
            },
            Op::ReadFile { target, location } => match event {
                Event::Contents { detected, bytes } => self.plan_contents(
                    features,
                    target,
                    location,
                    detected,
                    bytes,
                    false,
                ),
                Event::Malformed(text) => Plan::of(Op::fail(Problem::TextFormat(text))),
                _ => Plan::of(self.fail_outside(&Op::ReadFile { target, location })),
            },
            Op::LoadModule { target, location, kind, source } => match event {
                Event::Done => self.plan_loaded(features, target, kind),
                _ => Plan::of(
                    self.fail_outside(&Op::LoadModule { target, location, kind, source }),
                ),
            },
            Op::ReadVar(key) => match event {
                Event::Text(value) => Plan::of(Op::SetVar(key, value)),
                _ => Plan::of(Op::fail(Problem::NoVariable(key))),
            },
            Op::ForwardVar(key) => match event {
                Event::Text(value) => Plan::of(Op::SetVar(key, value)),
                _ => Plan::new(),
            },
            Op::OpenListenFds => match event {
                Event::Count(n) => self.ctx_set_listenfd(n, 0, None),
                _ => Plan::of(self.fail_outside(&Op::OpenListenFds)),
            },
            Op::TakeListener { index, count, last } => match event {
                Event::Taken(taken) => self.plan_taken(index, count, last, taken),
                _ => Plan::of(self.fail_outside(&Op::TakeListener { index, count, last })),
            },
            Op::LookupExport(name) => match event {
                Event::Done => Plan::new(),
                Event::NotFunction => self.plan_main_failure(
                    Cause::Own(Problem::NotFunction(name)),
                ),
                _ => self.plan_main_failure(Cause::Own(Problem::NoExport(name))),
            },
            Op::InspectFunction => match event {
                Event::Signature(params) => self.invoke_func(&params),
                _ => Plan::of(self.fail_outside(&Op::InspectFunction)),
            },
            Op::CallFunction(_) => match event {
                Event::Returned(results) => self.print_results(&results),
                Event::Raised { trap, backtrace } => self.handle_coredump(
                    self.describe_invoke(),
                    trap,
                    &backtrace,
                ),
                _ => self.handle_coredump(self.describe_invoke(), false, &None),
            },
            Op::CallRun => match event {
                Event::Ran(ok) => {
                    let plan = self.plan_ran(ok);
                    assert(plan@ =~= self.reaction(*features, OpView::CallRun, EventView::Ran(ok)));
                    plan
                },
                Event::Raised { trap, backtrace } => self.handle_coredump(
                    "failed to invoke `run` function".to_owned(),
                    trap,
                    &backtrace,
                ),
                _ => self.handle_coredump(
                    "failed to invoke `run` function".to_owned(),
                    false,
                    &None,
                ),
            },
            Op::CreateCoredump { path, bytes, context } => self.plan_created(
                path,
                bytes,
                context,
                &event,
            ),
            Op::WriteCoredump { path, bytes, context } => self.plan_written(
                path,
                bytes,
                context,
                &event,
            ),
            Op::WriteProfile(path) => self.plan_profile(path.as_str(), &event),
            Op::PrintResult(_) => Plan::new(),
            Op::PrintText(_) => Plan::new(),
            Op::Say(_) => Plan::new(),
            Op::Fail(failure) => Plan::of(Op::Fail(failure)),
            other => match event {
                Event::Done => Plan::new(),
                _ => Plan::of(self.fail_outside(&other)),
            },
        }
    }

    /// Two lists of sound work are one.
    proof fn lemma_joined_wf(&self, first: Seq<OpView>, second: Seq<OpView>)
        requires
            self.ops_wf(first),
            self.ops_wf(second),
        ensures
            self.ops_wf(first + second),
    {
    }

    /// What is done after sound work is sound.
    proof fn lemma_reaction_wf(&self, features: Features, current: OpView, event: EventView)
        requires
            self.wf(),
            self.op_wf(current),
            self.can_go_on(current, event),
        ensures
            self.ops_wf(self.reaction(features, current, event)),
    {
        if !(current is Fail) {
            self.lemma_reaction_originates(features, current, event);
            let ops = self.reaction(features, current, event);
            assert forall|i: int| 0 <= i < ops.len() implies self.op_wf(#[trigger] ops[i]) by {
                assert(self.origin(features, current, event, ops[i]));
            }
        }
    }

    /// Whether a run can go on after a piece of work.
    pub fn admits(&self, current: &Op, event: &Event) -> (r: bool)
        requires
            self.wf(),
        ensures
            r == self.can_go_on(current@, event@),
    {
        let sockets: usize = self.tcplisten.len();
        match current {
            Op::Enter(Stage::Preview1) => self.module_and_args[0].components.len() > 0 && sockets
                <= usize::MAX - FIRST_FD,
            Op::Enter(Stage::Preview2) => self.module_and_args[0].components.len() > 0,
            Op::Enter(Stage::EpochHandler) => match (&self.profile, self.wasm_timeout) {
                (Some(Profile::Guest { .. }), Some(timeout)) => timeout.total() > 0,
                _ => true,
            },
            Op::MapFile { .. } => admits_contents(event),
            Op::ReadFile { .. } => admits_contents(event),
            Op::OpenListenFds => match event {
                Event::Count(n) => sockets <= usize::MAX - FIRST_FD && *n <= usize::MAX - FIRST_FD
                    - sockets,
                _ => true,
            },
            Op::CallFunction(_) => self.admits_dump(event),
            Op::CallRun => self.admits_dump(event),
            _ => true,
        }
    }

    /// Whether a core dump can be written, if one is asked for.
    fn admits_dump(&self, event: &Event) -> (r: bool)
        requires
            self.wf(),
        ensures
            r == match event@ {
                EventView::Raised { trap, backtrace } => self.dumps(trap, backtrace) ==> dumpable(
                    self.source_name(),
                    backtrace->0,
                ),
                _ => true,
            },
    {
        match event {
            Event::Raised { trap, backtrace } => match backtrace {
                Some(frames) => {
                    if self.coredump_on_trap.is_some() && *trap {
                        let name: String = self.show_source_name();
                        is_dumpable(name.as_str(), frames)
                    } else {
                        true
                    }
                },
                None => true,
            },
            _ => true,
        }
    }

    /// Executes the command, one piece of outside work after the other: from
    /// the work that was done and what came of it to the work to do next, or
    /// to the end of the run.
    pub fn execute(&self, features: &Features, progress: Progress, event: Event) -> (r: Step)
        requires
            self.wf(),
            self.progress_wf(progress@),
            self.can_go_on(progress@.current, event@),
        ensures
            r@ == self.next_step(*features, progress@, event@),
            r@ matches StepView::Perform(next) ==> self.progress_wf(next),
    {
        let Progress { current, pending } = progress;
        let ghost reaction = self.reaction(*features, current@, event@);
        proof {
            self.lemma_reaction_wf(*features, current@, event@);
            self.lemma_joined_wf(reaction, pending@);
        }
        let mut plan = self.react(features, current, event);
        plan.append(pending);
        match plan.next() {
            None => Step::Finished(Ok(())),
            Some(Op::Fail(failure)) => Step::Finished(Err(failure)),
            Some(op) => Step::Perform(Progress { current: op, pending: plan }),
        }
    }
}

/// Whether the bytes of a module can be parsed, if they have to be.
fn admits_contents(event: &Event) -> (r: bool)
    ensures
        r == match event@ {
            EventView::Contents { detected, bytes } => detected is None ==> parsable(bytes),
            _ => true,
        },
{
    match event {
        Event::Contents { detected, bytes } => match detected {
            Some(_) => true,
            None => is_parsable(bytes),
        },
        _ => true,
    }
}

} // verus!
