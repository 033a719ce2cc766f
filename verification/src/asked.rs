//! What a command asks for: nothing else is done in its runs, and they end
//! for no reason but one that it gives.

use crate::command::{Features, RunCommand};
use crate::error::{Problem, ReasonView};
use crate::execute::StepView;
use crate::parse::Profile;
use crate::plan::{CauseView, EventView, FailureView, ModuleKind, OpView, Stage, Target};
use crate::run::{all_have, lemma_all_have_joined, remaining, Run};
use crate::invoke::law_arguments_are_what_they_denote;
use crate::number::numeral;
use crate::span::law_samples_are_as_few_as_cover_the_timeout;
use crate::text::occurs_at;
use crate::value::{Val, ValType};
use vstd::prelude::*;

verus! {

impl RunCommand {
    /// A piece of work was listed by what was done before a state.
    pub open spec fn was_listed(&self, features: Features, run: Run, i: int, op: OpView) -> bool {
        exists|j: int|
            0 <= j < i && self.origin(
                features,
                (#[trigger] run.states[j]).current,
                run.events[j],
                op,
            )
    }

    /// All work of a run but its start was listed before.
    pub proof fn lemma_work_was_listed(&self, features: Features, run: Run, i: int)
        requires
            self.is_run(features, run),
            0 <= i < run.states.len(),
        ensures
            i > 0 ==> all_have(
                remaining(run.states[i]),
                |op: OpView| self.was_listed(features, run, i, op),
            ),
            i > 0 ==> self.was_listed(features, run, i, run.states[i].current),
            i == 0 ==> run.states[i].current == OpView::Enter(Stage::Run),
        decreases i,
    {
        if i > 0 {
            let s = run.states[i - 1];
            let event = run.events[i - 1];
            let ops = self.reaction(features, s.current, event);
            let earlier = |op: OpView| self.was_listed(features, run, i - 1, op);
            let listed = |op: OpView| self.was_listed(features, run, i, op);
            self.lemma_work_was_listed(features, run, i - 1);
            self.lemma_step(features, run, i - 1);
            self.lemma_current_goes_on(features, run, i - 1);
            self.lemma_reaction_originates(features, s.current, event);
            assert forall|p: int| 0 <= p < ops.len() implies listed(#[trigger] ops[p]) by {
                assert(self.origin(
                    features,
                    run.states[i - 1].current,
                    run.events[i - 1],
                    ops[p],
                ));
            }
            assert forall|p: int| 0 <= p < s.pending.len() implies listed(
                #[trigger] s.pending[p],
            ) by {
                if i - 1 > 0 {
                    assert(remaining(s)[p + 1] == s.pending[p]);
                    assert(earlier(s.pending[p]));
                    let j = choose|j: int|
                        0 <= j < i - 1 && self.origin(
                            features,
                            (#[trigger] run.states[j]).current,
                            run.events[j],
                            s.pending[p],
                        );
                    assert(0 <= j < i && self.origin(
                        features,
                        run.states[j].current,
                        run.events[j],
                        s.pending[p],
                    ));
                }
            }
            lemma_all_have_joined(ops, s.pending, listed);
            assert(remaining(run.states[i])[0] == run.states[i].current);
            assert(listed(remaining(run.states[i])[0]));
        }
    }

    /// Of what a piece of work was listed by.
    proof fn lemma_listed_by(&self, features: Features, run: Run, i: int) -> (j: int)
        requires
            self.is_run(features, run),
            0 < i < run.states.len(),
        ensures
            0 <= j < i,
            self.origin(
                features,
                run.states[j].current,
                run.events[j],
                run.states[i].current,
            ),
    {
        self.lemma_work_was_listed(features, run, i);
        choose|j: int|
            0 <= j < i && self.origin(
                features,
                (#[trigger] run.states[j]).current,
                run.events[j],
                run.states[i].current,
            )
    }

    /// The engine is set up as the command says, and in no other way.
    pub proof fn law_engine_is_as_asked_for(&self, features: Features, run: Run, i: int)
        requires
            self.is_run(features, run),
            0 <= i < run.states.len(),
        ensures
            match run.states[i].current {
                OpView::EnableEpochInterruption => self.wasm_timeout is Some || (
                self.profile matches Some(Profile::Guest { .. })),
                OpView::SetProfiler(strategy) => self.profile matches Some(Profile::Native(given))
                    && given == strategy,
                OpView::SetWmemcheck(on) => on == self.wmemcheck,
                _ => true,
            },
    {
        if i > 0 {
            let j = self.lemma_listed_by(features, run, i);
        }
    }

    /// The program is linked with what the command asks for, and is limited
    /// by what it gives, and by nothing else.
    pub proof fn law_program_is_linked_as_asked_for(&self, features: Features, run: Run, i: int)
        requires
            self.is_run(features, run),
            0 <= i < run.states.len(),
        ensures
            match run.states[i].current {
                OpView::AllowUnknownExports => self.allow_unknown_exports,
                OpView::AddPreview1 => self.wasi_modules().wasi_common && !self.preview2,
                OpView::AddPreview1Adapter => self.wasi_modules().wasi_common && self.preview2,
                OpView::AddCommandWorld => self.wasi_modules().wasi_common,
                OpView::AddWasiNn(_) => self.wasi_modules().wasi_nn && features.wasi_nn,
                OpView::AddWasiThreads => self.wasi_modules().wasi_threads && features.wasi_threads,
                OpView::PreloadGraphs(graphs) => {
                    &&& self.wasi_modules().wasi_nn && features.wasi_nn
                    &&& graphs.len() == self.graphs@.len()
                    &&& forall|k: int|
                        0 <= k < graphs.len() ==> (#[trigger] graphs[k]).0 == self.graphs@[k].0@
                            && graphs[k].1 == self.graphs@[k].1@
                },
                OpView::InstallLimits(limits) => {
                    &&& limits.memory_size == self.max_memory_size
                    &&& limits.table_elements == self.max_table_elements
                    &&& limits.instances == self.max_instances
                    &&& limits.tables == self.max_tables
                    &&& limits.memories == self.max_memories
                    &&& limits.trap_on_grow_failure == self.trap_on_grow_failure
                },
                OpView::AddFuel(fuel) => self.common.fuel == Some(fuel),
                OpView::KeepModule { target, name } => match target {
                    Target::Main => name.len() == 0,
                    Target::Preload(k) => k < self.preloads@.len() && name
                        == self.preloads@[k as int].0@,
                },
                OpView::LinkPreload { index, name, path } => {
                    &&& index < self.preloads@.len()
                    &&& name == self.preloads@[index as int].0@
                    &&& path == self.preloads@[index as int].1@
                },
                OpView::DefineTraps => self.trap_unknown_imports,
                OpView::DefineDefaults => self.default_values_unknown_imports,
                _ => true,
            },
    {
        if i > 0 {
            let j = self.lemma_listed_by(features, run, i);
        }
    }

    /// Time is measured and the program is profiled as the command asks for,
    /// and in no other way: without a guest profile by a timer that runs for
    /// the whole timeout, with one by a sample in each interval and as many of
    /// them as cover the timeout.
    pub proof fn law_time_is_measured_as_asked_for(&self, features: Features, run: Run, i: int)
        requires
            self.is_run(features, run),
            0 <= i < run.states.len(),
        ensures
            match run.states[i].current {
                OpView::SpawnTimer(length) => {
                    &&& !(self.profile matches Some(Profile::Guest { .. }))
                    &&& self.wasm_timeout is Some
                    &&& length.secs == self.wasm_timeout->0.secs
                    &&& length.nanos == self.wasm_timeout->0.nanos
                    &&& length.nanoseconds() == self.wasm_timeout->0.nanoseconds()
                },
                OpView::SpawnTicker(length) => self.profile matches Some(
                    Profile::Guest { interval, .. },
                ) && length == interval,
                OpView::StartProfile { name, interval } => {
                    &&& self.profile matches Some(Profile::Guest { interval: given, .. }) && interval
                        == given
                    &&& name == match self.module_and_args@[0].whole.utf8 {
                        Some(text) => text@,
                        None => "<main module>"@,
                    }
                },
                OpView::SetEpochDeadline(count) => {
                    &&& count == 1
                    &&& self.wasm_timeout is Some || (self.profile matches Some(
                        Profile::Guest { .. },
                    ))
                },
                OpView::WatchEpochs(left) => self.profile matches Some(
                    Profile::Guest { interval, .. },
                ) && match self.wasm_timeout {
                    None => left is None,
                    Some(timeout) => {
                        let step = interval.nanoseconds();
                        &&& left matches Some(count) && count > 0 && {
                            ||| step == 0 && count == u64::MAX
                            ||| step > 0 && (count - 1) * step < timeout.nanoseconds() && (
                            timeout.nanoseconds() <= count * step || count == u64::MAX)
                        }
                    },
                },
                OpView::WriteProfile(path) => self.profile matches Some(
                    Profile::Guest { path: given, .. },
                ) && given@ == path,
                _ => true,
            },
    {
        let op = run.states[i].current;
        if op is StartProfile || op is WatchEpochs || op is SetEpochDeadline {
            self.lemma_epoch_work_is_listed(features, run, i);
            self.lemma_epoch_work(op);
        } else if i > 0 {
            let j = self.lemma_listed_by(features, run, i);
        }
    }

    /// What is listed about time and profiles.
    proof fn lemma_epoch_work(&self, op: OpView)
        requires
            self.epoch_ops().contains(op),
            self.countable(),
        ensures
            match op {
                OpView::StartProfile { name, interval } => {
                    &&& self.profile matches Some(Profile::Guest { interval: given, .. }) && interval
                        == given
                    &&& name == match self.module_and_args@[0].whole.utf8 {
                        Some(text) => text@,
                        None => "<main module>"@,
                    }
                },
                OpView::SetEpochDeadline(count) => {
                    &&& count == 1
                    &&& self.wasm_timeout is Some || (self.profile matches Some(
                        Profile::Guest { .. },
                    ))
                },
                OpView::WatchEpochs(left) => self.profile matches Some(
                    Profile::Guest { interval, .. },
                ) && match self.wasm_timeout {
                    None => left is None,
                    Some(timeout) => {
                        let step = interval.nanoseconds();
                        &&& left matches Some(count) && count > 0 && {
                            ||| step == 0 && count == u64::MAX
                            ||| step > 0 && (count - 1) * step < timeout.nanoseconds() && (
                            timeout.nanoseconds() <= count * step || count == u64::MAX)
                        }
                    },
                },
                _ => true,
            },
    {
        if let Some(Profile::Guest { interval, .. }) = self.profile {
            if let Some(timeout) = self.wasm_timeout {
                law_samples_are_as_few_as_cover_the_timeout(timeout, interval);
            }
        }
    }

    /// What is done about time is listed among it, and only where there is
    /// time to count.
    proof fn lemma_epoch_work_is_listed(&self, features: Features, run: Run, i: int)
        requires
            self.is_run(features, run),
            0 <= i < run.states.len(),
            match run.states[i].current {
                OpView::StartProfile { .. } => true,
                OpView::WatchEpochs(_) => true,
                OpView::SetEpochDeadline(_) => true,
                _ => false,
            },
        ensures
            self.epoch_ops().contains(run.states[i].current),
            self.countable(),
        decreases i,
    {
        self.lemma_epoch_work_remains(features, run, i);
        assert(remaining(run.states[i])[0] == run.states[i].current);
    }

    /// What is left to be done about time was listed among it.
    proof fn lemma_epoch_work_remains(&self, features: Features, run: Run, i: int)
        requires
            self.is_run(features, run),
            0 <= i < run.states.len(),
        ensures
            all_have(
                remaining(run.states[i]),
                |op: OpView|
                    (match op {
                        OpView::StartProfile { .. } => true,
                        OpView::WatchEpochs(_) => true,
                        OpView::SetEpochDeadline(_) => true,
                        _ => false,
                    } ==> self.epoch_ops().contains(op) && self.countable()),
            ),
        decreases i,
    {
        let property = |op: OpView|
            (match op {
                OpView::StartProfile { .. } => true,
                OpView::WatchEpochs(_) => true,
                OpView::SetEpochDeadline(_) => true,
                _ => false,
            } ==> self.epoch_ops().contains(op) && self.countable());
        if i == 0 {
            assert(remaining(run.states[0]) =~= seq![OpView::Enter(Stage::Run)]);
        } else {
            let s = run.states[i - 1];
            let event = run.events[i - 1];
            let ops = self.reaction(features, s.current, event);
            self.lemma_epoch_work_remains(features, run, i - 1);
            self.lemma_step(features, run, i - 1);
            self.lemma_current_goes_on(features, run, i - 1);
            self.lemma_reaction_originates(features, s.current, event);
            assert(self.follows(features, run.states[i - 1], event, run.states[i]));
            assert forall|p: int| 0 <= p < ops.len() implies property(#[trigger] ops[p]) by {
                assert(self.origin(features, s.current, event, ops[p]));
                if s.current == OpView::Enter(Stage::EpochHandler) {
                    assert(self.epoch_ops()[p] == ops[p]);
                }
            }
            assert forall|p: int| 0 <= p < s.pending.len() implies property(
                #[trigger] s.pending[p],
            ) by {
                assert(remaining(s)[p + 1] == s.pending[p]);
            }
            lemma_all_have_joined(ops, s.pending, property);
        }
    }

    /// The command gives a value for the parameter with position `k`: the
    /// argument behind the module and those before it is a text that denotes
    /// it.
    pub open spec fn gives_argument(&self, k: int, ty: ValType, v: Val) -> bool {
        &&& k + 1 < self.module_and_args@.len()
        &&& self.module_and_args@[k + 1].whole.utf8 matches Some(text) && reads_as(text@, ty, v)
    }

    /// The command gives a value for each parameter.
    pub open spec fn gives_arguments(&self, params: Seq<ValType>, values: Seq<Val>) -> bool {
        &&& params.len() == values.len()
        &&& forall|k: int|
            0 <= k < values.len() ==> self.gives_argument(k, params[k], #[trigger] values[k])
    }

    /// What is looked up and called is what the command names, and a function
    /// gets the arguments that the command gives, read as its parameters ask
    /// for: one for each, sign and all.
    pub proof fn law_functions_are_called_as_asked_for(
        &self,
        features: Features,
        run: Run,
        i: int,
    )
        requires
            self.is_run(features, run),
            0 <= i < run.states.len(),
        ensures
            match run.states[i].current {
                OpView::LookupExport(name) => self.invoke matches Some(given) && given@ == name,
                OpView::LookupDefault => self.invoke is None,
                OpView::CallFunction(values) => exists|j: int|
                    {
                        &&& 0 <= j < i
                        &&& (#[trigger] run.states[j]).current is InspectFunction
                        &&& run.events[j] matches EventView::Signature(params)
                            && self.gives_arguments(params, values)
                    },
                _ => true,
            },
    {
        if i > 0 {
            let j = self.lemma_listed_by(features, run, i);
            if let OpView::CallFunction(values) = run.states[i].current {
                self.lemma_arguments_denote(run.events[j]->Signature_0, values);
                assert(run.states[j].current is InspectFunction);
            }
        }
    }

    /// The values for the parameters of a function are what the arguments
    /// denote.
    proof fn lemma_arguments_denote(&self, params: Seq<ValType>, values: Seq<Val>)
        requires
            self.arguments(params) == Ok::<Seq<Val>, ReasonView>(values),
        ensures
            self.gives_arguments(params, values),
    {
        self.law_function_gets_its_arguments(params);
        assert forall|k: int| 0 <= k < values.len() implies self.gives_argument(
            k,
            params[k],
            #[trigger] values[k],
        ) by {
            assert(self.argument(k, params[k]) is Ok);
            law_arguments_are_what_they_denote(
                self.module_and_args@[k + 1].whole.utf8->0@,
                values[k],
                params[k],
            );
        }
    }

    /// A run that ends for a reason of its own ends for one that is there.
    pub proof fn law_reasons_are_true(
        &self,
        features: Features,
        run: Run,
        event: EventView,
        failure: FailureView,
    )
        requires
            self.is_run(features, run),
            self.can_go_on(run.states.last().current, event),
            self.next_step(features, run.states.last(), event) == StepView::Finished(Err(failure)),
        ensures
            match failure.cause {
                CauseView::Own(e) => match e {
                    Problem::CoredumpPattern => self.coredump_on_trap matches Some(path)
                        && path@.contains('%'),
                    Problem::UnknownExportsOfComponent => self.allow_unknown_exports,
                    Problem::PreloadForComponent => self.preloads@.len() > 0,
                    Problem::PreloadedComponent => self.preloads@.len() > 0,
                    Problem::TrapImportsOfComponent => self.trap_unknown_imports,
                    Problem::DefaultImportsOfComponent => self.default_values_unknown_imports,
                    Problem::InvokeOfComponent => self.invoke is Some,
                    Problem::NoExport(name) => self.invoke matches Some(given) && given@ == name,
                    Problem::NotFunction(name) => self.invoke matches Some(given) && given@ == name,
                    Problem::PrecompiledNotAllowed => !self.allow_precompiled,
                    Problem::ComponentNotAllowed => !self.components_allowed(),
                    Problem::ComponentsNotSupported => !features.component_model,
                    Problem::WasiNnNotBuiltIn => self.wasi_modules().wasi_nn && !features.wasi_nn,
                    Problem::WasiThreadsNotBuiltIn => self.wasi_modules().wasi_threads
                        && !features.wasi_threads,
                    Problem::WasiThreadsForComponent => self.wasi_modules().wasi_threads,
                    Problem::WasiHttpNotBuiltIn => self.wasi_modules().wasi_http
                        && !features.wasi_http,
                    Problem::WasiHttpReplaced => self.wasi_modules().wasi_http,
                    Problem::ListenFdForComponent => self.listenfd,
                    Problem::TcpListenForComponent => self.tcplisten@.len() > 0,
                    Problem::ArgumentForProgram(_) => true,
                    Problem::NotEnoughArguments(_) => true,
                    Problem::ArgumentForFunction(_) => true,
                    Problem::UnsupportedType(_) => true,
                    Problem::Integer(_) => true,
                    Problem::TextFormat(_) => true,
                    Problem::NoVariable(_) => true,
                    _ => false,
                },
                CauseView::Exit(status) => status == 1,
                CauseView::Outside => true,
            },
    {
        let n = run.states.len() - 1;
        let s = run.states[n];
        let ops = self.reaction(features, s.current, event);
        let list = ops + s.pending;
        let end = OpView::Fail(failure);
        assert(list[0] == end);
        self.lemma_current_goes_on(features, run, n);
        self.lemma_reaction_originates(features, s.current, event);
        self.lemma_work_was_listed(features, run, n);
        reveal_strlit("%");
        if ops.len() > 0 {
            assert(self.origin(features, s.current, event, ops[0]));
            self.lemma_reason_is_true(features, run, n, s.current, event, failure);
        } else {
            let earlier = |op: OpView| self.was_listed(features, run, n, op);
            if n == 0 {
                assert(s.pending.len() == 0);
            }
            assert(remaining(s)[1] == s.pending[0]);
            assert(earlier(remaining(s)[1]));
            let j = choose|j: int|
                0 <= j < n && self.origin(
                    features,
                    (#[trigger] run.states[j]).current,
                    run.events[j],
                    end,
                );
            self.lemma_reason_is_true(
                features,
                run,
                j,
                run.states[j].current,
                run.events[j],
                failure,
            );
        }
    }

    /// What explains an end is true of the command.
    proof fn lemma_reason_is_true(
        &self,
        features: Features,
        run: Run,
        i: int,
        current: OpView,
        event: EventView,
        failure: FailureView,
    )
        requires
            self.is_run(features, run),
            0 <= i < run.states.len(),
            run.states[i].current == current,
            self.origin(features, current, event, OpView::Fail(failure)),
        ensures
            match failure.cause {
                CauseView::Own(e) => match e {
                    Problem::CoredumpPattern => self.coredump_on_trap matches Some(path)
                        && path@.contains('%'),
                    Problem::PreloadedComponent => self.preloads@.len() > 0,
                    Problem::NoExport(name) => self.invoke matches Some(given) && given@ == name,
                    Problem::NotFunction(name) => self.invoke matches Some(given) && given@ == name,
                    Problem::PrecompiledNotAllowed => !self.allow_precompiled,
                    Problem::ComponentNotAllowed => !self.components_allowed(),
                    Problem::ComponentsNotSupported => !features.component_model,
                    _ => self.explains(features, current, event, e),
                },
                CauseView::Exit(status) => status == 1,
                CauseView::Outside => true,
            },
    {
        reveal_strlit("%");
        if let CauseView::Own(e) = failure.cause {
            match e {
                Problem::CoredumpPattern => {
                    let path = self.coredump_on_trap->0@;
                    let k = choose|k: int| occurs_at(path, "%"@, k);
                    assert(path.subrange(k, k + 1)[0] == path[k]);
                },
                Problem::PreloadedComponent => {
                    self.lemma_targets_exist(features, run, i);
                },
                Problem::NoExport(_) => {
                    if i > 0 {
                        let j = self.lemma_listed_by(features, run, i);
                    }
                    self.lemma_work_was_listed(features, run, i);
                },
                Problem::NotFunction(_) => {
                    if i > 0 {
                        let j = self.lemma_listed_by(features, run, i);
                    }
                    self.lemma_work_was_listed(features, run, i);
                },
                _ => {},
            }
        }
    }

    /// The modules that work speaks of exist.
    proof fn lemma_targets_exist(&self, features: Features, run: Run, i: int)
        requires
            self.is_run(features, run),
            0 <= i < run.states.len(),
        ensures
            match run.states[i].current {
                OpView::MapFile { target: Target::Preload(k), .. } => k < self.preloads@.len(),
                OpView::ReadFile { target: Target::Preload(k), .. } => k < self.preloads@.len(),
                OpView::LoadModule { target: Target::Preload(k), .. } => k < self.preloads@.len(),
                _ => true,
            },
        decreases i,
    {
        if i > 0 {
            let j = self.lemma_listed_by(features, run, i);
            self.lemma_targets_exist(features, run, j);
        }
    }
}

/// An argument denotes a value of a type: an integer, or the bits of a
/// floating point number.
pub open spec fn reads_as(text: Seq<char>, ty: ValType, v: Val) -> bool {
    match (ty, v) {
        (ValType::I32, Val::I32(n)) => numeral(
            text,
            true,
        ) == Some(n as int),
        (ValType::I64, Val::I64(n)) => numeral(
            text,
            true,
        ) == Some(n as int),
        (ValType::F32, Val::F32(n)) => numeral(
            text,
            false,
        ) == Some(n as int),
        (ValType::F64, Val::F64(n)) => numeral(
            text,
            false,
        ) == Some(n as int),
        _ => false,
    }
}

} // verus!
