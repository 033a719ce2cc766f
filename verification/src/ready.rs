//! What is ready before code runs: the engine, what the program is linked
//! with, and the watch over its time.

use crate::command::{Features, RunCommand};
use crate::laws::{runs_code, runs_code_of};
use crate::parse::Profile;
use crate::plan::{EventView, ModuleKind, OpView, Stage, Target};
use crate::run::{guarded, has_rows, history, some_has, Run};
use crate::span::Span;
use crate::text::pairs;
use vstd::prelude::*;

verus! {

/// Work that runs code of the main module.
pub open spec fn runs_main(op: OpView) -> bool {
    match op {
        OpView::InstantiateMain => true,
        OpView::CallFunction(_) => true,
        OpView::InstantiateCommand => true,
        OpView::CallRun => true,
        _ => false,
    }
}

/// Work that is done or ends the run, and lists nothing else.
pub open spec fn is_simple(op: OpView) -> bool {
    match op {
        OpView::Enter(_) => false,
        OpView::MapFile { .. } => false,
        OpView::ReadFile { .. } => false,
        OpView::LoadModule { .. } => false,
        OpView::ReadVar(_) => false,
        OpView::ForwardVar(_) => false,
        OpView::OpenListenFds => false,
        OpView::TakeListener { .. } => false,
        OpView::InspectFunction => false,
        OpView::CallFunction(_) => false,
        OpView::CallRun => false,
        OpView::CreateCoredump { .. } => false,
        OpView::WriteCoredump { .. } => false,
        OpView::WriteProfile(_) => false,
        OpView::PrintResult(_) => false,
        OpView::PrintText(_) => false,
        OpView::Say(_) => false,
        OpView::Fail(_) => false,
        _ => true,
    }
}

impl RunCommand {
    /// How many pieces of work set the engine up before the main module is
    /// read.
    spec fn engine_work(&self) -> nat {
        4 + (if self.wasm_timeout is Some {
            1nat
        } else {
            0nat
        }) + (if self.profile is Some {
            1nat
        } else {
            0nat
        })
    }

    /// The main module is read with an engine that was made from the
    /// configuration of the common options, to which this was added in this
    /// order: epochs where the time is limited, the profiler or the epochs
    /// that the profile needs, and the checks of memory as the command says.
    pub proof fn law_engine_is_set_up_in_order(&self, features: Features, run: Run, i: int)
        requires
            self.is_run(features, run),
            0 <= i < run.states.len(),
            run.states[i].current matches OpView::MapFile { target, .. } && target == Target::Main,
        ensures
            i >= 4,
            run.states[i - 1].current == OpView::CreateEngine,
            run.states[i - 2].current == OpView::SetWmemcheck(self.wmemcheck),
            ({
                let timed: int = if self.wasm_timeout is Some {
                    1
                } else {
                    0
                };
                let profiled: int = if self.profile is Some {
                    1
                } else {
                    0
                };
                let first = i - 4 - timed - profiled;
                &&& first >= 0
                &&& run.states[first].current == OpView::InitLogging
                &&& run.states[first + 1].current == OpView::BuildConfig
                &&& timed == 1 ==> run.states[first + 2].current
                    == OpView::EnableEpochInterruption
                &&& match self.profile {
                    Some(Profile::Native(strategy)) => run.states[i - 3].current
                        == OpView::SetProfiler(strategy),
                    Some(Profile::Guest { .. }) => run.states[i - 3].current
                        == OpView::EnableEpochInterruption,
                    None => true,
                }
            }),
            forall|j: int| i - 4 <= j < i ==> (#[trigger] run.events[j]) == EventView::Done,
    {
        let list = self.engine_ops(features);
        let m = self.engine_work();
        let late = |op: OpView|
            op matches OpView::MapFile { target, .. } && target == Target::Main;
        let fits = |row: Seq<OpView>| row == list.take(m as int);
        self.lemma_engine_work(features);
        assert forall|current: OpView, event: EventView| !(current is Fail) implies has_rows(
            #[trigger] self.reaction(features, current, event),
            late,
            m,
            fits,
        ) by {
            let ops = self.reaction(features, current, event);
            assert forall|p: int| 0 <= p < ops.len() && late(#[trigger] ops[p]) implies m <= p
                && fits(ops.subrange(p - m, p)) by {
                self.lemma_main_is_mapped_last(features, current, event, p);
                assert(ops.subrange(0, p) =~= list.take(m as int));
            }
        }
        assert forall|row: Seq<OpView>, k: int|
            #![trigger fits(row), row[k]]
            row.len() == m && fits(row) && 0 <= k < m implies self.is_plain(features, row[k]) by {
            assert(row[k] == list[k]);
            self.lemma_simple_work(features, row[k]);
        }
        self.lemma_row_is_done(features, run, late, m, fits, i);
        let row = history(run, i).subrange(i - m, i);
        assert forall|k: int| 0 <= k < m implies run.states[i - m + k].current
            == #[trigger] list[k] by {
            assert(row[k] == list.take(m as int)[k]);
        }
        assert(list[0] == OpView::InitLogging);
        assert(list[1] == OpView::BuildConfig);
        assert(list[m - 1] == OpView::CreateEngine);
        assert(list[m - 2] == OpView::SetWmemcheck(self.wmemcheck));
        assert forall|j: int| i - 4 <= j < i implies (#[trigger] run.events[j])
            == EventView::Done by {
            let k = j - (i - m);
            assert(run.states[i - m + k].current == list[k]);
            assert(self.reaction(features, run.states[j].current, run.events[j]).len() == 0);
            self.lemma_simple_work(features, list[k]);
            self.lemma_simple_work_is_done(features, list[k], run.events[j]);
        }
    }

    /// What sets the engine up, piece by piece.
    proof fn lemma_engine_work(&self, features: Features)
        ensures
            ({
                let list = self.engine_ops(features);
                let m = self.engine_work() as int;
                &&& list.len() == m + 1
                &&& list[0] == OpView::InitLogging
                &&& list[1] == OpView::BuildConfig
                &&& list[m - 1] == OpView::CreateEngine
                &&& list[m - 2] == OpView::SetWmemcheck(self.wmemcheck)
                &&& self.wasm_timeout is Some ==> list[2] == OpView::EnableEpochInterruption
                &&& match self.profile {
                    Some(Profile::Native(strategy)) => list[m - 3] == OpView::SetProfiler(strategy),
                    Some(Profile::Guest { .. }) => list[m - 3] == OpView::EnableEpochInterruption,
                    None => true,
                }
                &&& forall|k: int| 0 <= k < m ==> is_simple(#[trigger] list[k])
            }),
    {
    }

    /// The main module is mapped behind the work that sets the engine up.
    proof fn lemma_main_is_mapped_last(
        &self,
        features: Features,
        current: OpView,
        event: EventView,
        p: int,
    )
        requires
            !(current is Fail),
            0 <= p < self.reaction(features, current, event).len(),
            self.reaction(features, current, event)[p] matches OpView::MapFile { target, .. }
                && target == Target::Main,
        ensures
            self.reaction(features, current, event) == self.engine_ops(features),
            p == self.engine_work(),
    {
        self.lemma_reaction_originates(features, current, event);
        self.lemma_engine_work(features);
        assert(self.origin(
            features,
            current,
            event,
            self.reaction(features, current, event)[p],
        ));
        if p < self.engine_work() {
            assert(is_simple(self.engine_ops(features)[p]));
        }
    }

    /// Work that is listed right behind a row of simple work is done right
    /// behind it, once all of that was done.
    pub proof fn lemma_simple_row_is_done(
        &self,
        features: Features,
        run: Run,
        late: spec_fn(OpView) -> bool,
        m: nat,
        fits: spec_fn(Seq<OpView>) -> bool,
        i: int,
    )
        requires
            self.is_run(features, run),
            0 <= i < run.states.len(),
            !late(OpView::Enter(Stage::Run)),
            late(run.states[i].current),
            forall|current: OpView, event: EventView|
                !(current is Fail) ==> has_rows(
                    #[trigger] self.reaction(features, current, event),
                    late,
                    m,
                    fits,
                ),
            forall|row: Seq<OpView>, k: int|
                #![trigger fits(row), row[k]]
                row.len() == m && fits(row) && 0 <= k < m ==> is_simple(row[k]),
        ensures
            m <= i,
            fits(history(run, i).subrange(i - m, i)),
            forall|j: int| i - m <= j < i ==> (#[trigger] run.events[j]) == EventView::Done,
    {
        assert forall|row: Seq<OpView>, k: int|
            #![trigger fits(row), row[k]]
            row.len() == m && fits(row) && 0 <= k < m implies self.is_plain(features, row[k]) by {
            self.lemma_simple_work(features, row[k]);
        }
        self.lemma_row_is_done(features, run, late, m, fits, i);
        let row = history(run, i).subrange(i - m, i);
        assert forall|j: int| i - m <= j < i implies (#[trigger] run.events[j])
            == EventView::Done by {
            let op = run.states[j].current;
            assert(row[j - (i - m)] == op);
            assert(self.reaction(features, op, run.events[j]).len() == 0);
            self.lemma_simple_work_is_done(features, op, run.events[j]);
        }
    }

    /// Simple work is plain.
    pub proof fn lemma_simple_work(&self, features: Features, op: OpView)
        requires
            is_simple(op),
        ensures
            self.is_plain(features, op),
    {
    }

    /// After simple work nothing is listed only where it was done.
    pub proof fn lemma_simple_work_is_done(&self, features: Features, op: OpView, event: EventView)
        requires
            is_simple(op),
            self.reaction(features, op, event).len() == 0,
        ensures
            event == EventView::Done,
    {
    }

    /// No code runs before the program is linked with all that the command
    /// asks for: a linker of its kind, unknown exports where they are allowed,
    /// a store, the form of WASI that it names, neural networks with all their
    /// graphs, and threads. The main module is kept for the profile where it
    /// is a core module.
    pub proof fn law_program_is_linked_before_code(
        &self,
        features: Features,
        run: Run,
        i: int,
        kind: ModuleKind,
    )
        requires
            self.is_run(features, run),
            0 <= i < run.states.len(),
            runs_code_of(run.states[i].current, kind),
        ensures
            history(run, i).contains(OpView::CreateLinker(kind)),
            history(run, i).contains(OpView::CreateStore),
            kind == ModuleKind::Core && self.allow_unknown_exports ==> history(run, i).contains(
                OpView::AllowUnknownExports,
            ),
            self.wasi_modules().wasi_common ==> history(run, i).contains(
                match kind {
                    ModuleKind::Core => if self.preview2 {
                        OpView::AddPreview1Adapter
                    } else {
                        OpView::AddPreview1
                    },
                    ModuleKind::Component => OpView::AddCommandWorld,
                },
            ),
            self.wasi_modules().wasi_common ==> history(run, i).contains(
                if kind == ModuleKind::Core && !self.preview2 {
                    OpView::FinishPreview1
                } else {
                    OpView::FinishPreview2
                },
            ),
            self.wasi_modules().wasi_nn && features.wasi_nn ==> history(run, i).contains(
                OpView::AddWasiNn(kind),
            ) && history(run, i).contains(OpView::PreloadGraphs(pairs(self.graphs@))),
            kind == ModuleKind::Core && self.wasi_modules().wasi_threads && features.wasi_threads
                ==> history(run, i).contains(OpView::AddWasiThreads),
            kind == ModuleKind::Core ==> history(run, i).contains(
                OpView::KeepModule { target: Target::Main, name: Seq::empty() },
            ),
    {
        let linker = seq![OpView::CreateLinker(kind)] + self.export_ops(kind) + seq![
            OpView::CreateStore,
        ];
        let common = self.wasi_common_ops(kind);
        let nn = self.wasi_nn_ops(features, kind);
        let threads = self.wasi_threads_ops(features, kind);
        let http = self.wasi_http_ops(features);
        let wasi = self.wasi_ops(features, kind);
        let limits = self.limit_ops();
        let keep = self.keep_ops(kind);
        let first = self.first_ops(features, kind);
        let w = linker.len() as int;
        assert(first[0] == OpView::CreateLinker(kind));
        self.lemma_first_before_code(features, run, i, kind, first[0]);
        assert(first[w - 1] == OpView::CreateStore);
        self.lemma_first_before_code(features, run, i, kind, first[w - 1]);
        if kind == ModuleKind::Core && self.allow_unknown_exports {
            assert(first[1] == OpView::AllowUnknownExports);
            self.lemma_first_before_code(features, run, i, kind, first[1]);
        }
        if self.wasi_modules().wasi_common {
            assert(wasi[0] == common[0]);
            assert(first[w] == common[0]);
            self.lemma_first_before_code(features, run, i, kind, first[w]);
            self.law_wasi_is_ready_before_code(features, run, i, kind);
        }
        if self.wasi_modules().wasi_nn && features.wasi_nn {
            let n = w + common.len();
            assert(wasi[common.len() as int] == nn[0]);
            assert(first[n] == nn[0]);
            self.lemma_first_before_code(features, run, i, kind, first[n]);
            self.law_graphs_are_loaded_before_code(features, run, i, kind);
        }
        if kind == ModuleKind::Core && self.wasi_modules().wasi_threads && features.wasi_threads {
            let n = w + common.len() + nn.len();
            assert(wasi[(common.len() + nn.len()) as int] == threads[0]);
            assert(first[n] == threads[0]);
            self.lemma_first_before_code(features, run, i, kind, first[n]);
        }
        if kind == ModuleKind::Core {
            let n = w + wasi.len() + limits.len();
            assert(first[n] == keep[0]);
            self.lemma_first_before_code(features, run, i, kind, first[n]);
        }
    }

    /// No code runs before limits are in place that are, each for itself,
    /// those of the command, and before its fuel is there.
    pub proof fn law_limits_of_the_command_come_before_code(
        &self,
        features: Features,
        run: Run,
        i: int,
    )
        requires
            self.is_run(features, run),
            0 <= i < run.states.len(),
            runs_code(run.states[i].current),
        ensures
            exists|j: int|
                0 <= j < i && ((#[trigger] run.states[j]).current matches OpView::InstallLimits(
                    limits,
                ) && limits.memory_size == self.max_memory_size && limits.table_elements
                    == self.max_table_elements && limits.instances == self.max_instances
                    && limits.tables == self.max_tables && limits.memories == self.max_memories
                    && limits.trap_on_grow_failure == self.trap_on_grow_failure),
            self.common.fuel matches Some(fuel) ==> exists|j: int|
                0 <= j < i && (#[trigger] run.states[j]).current == OpView::AddFuel(fuel),
    {
        let install = OpView::InstallLimits(self.limits());
        self.law_limits_come_before_code(features, run, i);
        let q = history(run, i).index_of(install);
        assert(run.states[q].current == install);
        if let Some(fuel) = self.common.fuel {
            let r = history(run, i).index_of(OpView::AddFuel(fuel));
            assert(run.states[r].current == OpView::AddFuel(fuel));
        }
    }

    /// Without a guest profile, the timer for the whole of a timeout runs
    /// before any code of the main module does, and the first epoch stops it.
    pub proof fn law_timer_runs_before_main(
        &self,
        features: Features,
        run: Run,
        i: int,
        timeout: Span,
    )
        requires
            self.is_run(features, run),
            0 <= i < run.states.len(),
            runs_main(run.states[i].current),
            self.wasm_timeout == Some(timeout),
            !(self.profile matches Some(Profile::Guest { .. })),
        ensures
            exists|j: int|
                0 <= j < i && ((#[trigger] run.states[j]).current matches OpView::SpawnTimer(length)
                    && length.nanoseconds() == timeout.nanoseconds() && length.secs == timeout.secs
                    && length.nanos == timeout.nanos),
            exists|j: int|
                0 <= j < i && (#[trigger] run.states[j]).current == OpView::SetEpochDeadline(1),
    {
        let list = self.epoch_ops();
        let timer = OpView::SpawnTimer(timeout);
        let deadline = OpView::SetEpochDeadline(1);
        assert(list[0] == deadline && list[1] == timer);
        self.law_time_is_set_up_before_main(features, run, i, timer);
        self.law_time_is_set_up_before_main(features, run, i, deadline);
        let q = history(run, i).index_of(timer);
        assert(run.states[q].current == timer);
        let r = history(run, i).index_of(deadline);
        assert(run.states[r].current == deadline);
    }

    /// With a guest profile, the profile is started with its interval, a tick
    /// comes in each interval, and what is done at ticks is in place, before
    /// any code of the main module runs.
    pub proof fn law_profile_runs_before_main(
        &self,
        features: Features,
        run: Run,
        i: int,
        length: Span,
    )
        requires
            self.is_run(features, run),
            0 <= i < run.states.len(),
            runs_main(run.states[i].current),
            self.profile matches Some(Profile::Guest { interval, .. }) && interval == length,
        ensures
            exists|j: int|
                0 <= j < i && ((#[trigger] run.states[j]).current matches OpView::StartProfile {
                    interval,
                    ..
                } && interval == length),
            exists|j: int|
                0 <= j < i && (#[trigger] run.states[j]).current == OpView::SpawnTicker(length),
            exists|j: int|
                0 <= j < i && (#[trigger] run.states[j]).current == OpView::SetEpochDeadline(1),
            exists|j: int| 0 <= j < i && (#[trigger] run.states[j]).current is WatchEpochs,
    {
        let list = self.epoch_ops();
        assert(list[0] is StartProfile);
        assert(list[1] is WatchEpochs);
        assert(list[2] == OpView::SetEpochDeadline(1));
        assert(list[3] == OpView::SpawnTicker(length));
        self.lemma_epoch_work_was_done(features, run, i, 0);
        self.lemma_epoch_work_was_done(features, run, i, 1);
        self.lemma_epoch_work_was_done(features, run, i, 2);
        self.lemma_epoch_work_was_done(features, run, i, 3);
    }

    /// What is listed about time was done before the main module runs.
    proof fn lemma_epoch_work_was_done(&self, features: Features, run: Run, i: int, k: int)
        requires
            self.is_run(features, run),
            0 <= i < run.states.len(),
            runs_main(run.states[i].current),
            0 <= k < self.epoch_ops().len(),
        ensures
            exists|j: int| 0 <= j < i && (#[trigger] run.states[j]).current == self.epoch_ops()[k],
    {
        let op = self.epoch_ops()[k];
        self.law_time_is_set_up_before_main(features, run, i, op);
        let q = history(run, i).index_of(op);
        assert(run.states[q].current == op);
    }

    /// Before the main module is instantiated, its unknown imports are defined
    /// as the command asks for.
    pub proof fn law_imports_are_defined_before_main(&self, features: Features, run: Run, i: int)
        requires
            self.is_run(features, run),
            0 <= i < run.states.len(),
            run.states[i].current is InstantiateMain || run.states[i].current is CallFunction,
        ensures
            self.trap_unknown_imports ==> history(run, i).contains(OpView::DefineTraps),
            self.default_values_unknown_imports ==> history(run, i).contains(OpView::DefineDefaults),
    {
        let imports = self.import_ops(ModuleKind::Core);
        if self.trap_unknown_imports {
            assert(imports[0] == OpView::DefineTraps);
            self.lemma_import_before_main(features, run, i, OpView::DefineTraps);
        }
        if self.default_values_unknown_imports {
            assert(imports[imports.len() - 1] == OpView::DefineDefaults);
            self.lemma_import_before_main(features, run, i, OpView::DefineDefaults);
        }
    }

    /// What is done about unknown imports comes before the main module.
    proof fn lemma_import_before_main(&self, features: Features, run: Run, i: int, early: OpView)
        requires
            self.is_run(features, run),
            0 <= i < run.states.len(),
            run.states[i].current is InstantiateMain || run.states[i].current is CallFunction,
            self.import_ops(ModuleKind::Core).contains(early),
        ensures
            history(run, i).contains(early),
    {
        let late = |op: OpView| op is InstantiateMain || op is InspectFunction || op is CallFunction;
        let front = |op: OpView| op == early;
        let imports = self.import_ops(ModuleKind::Core);
        let n = imports.index_of(early);
        assert forall|current: OpView, event: EventView|
            !late(current) && !(current is Fail) implies guarded(
            #[trigger] self.reaction(features, current, event),
            late,
            front,
        ) by {
            let ops = self.reaction(features, current, event);
            self.lemma_reaction_originates(features, current, event);
            assert forall|p: int| 0 <= p < ops.len() && late(#[trigger] ops[p]) implies some_has(
                ops.take(p),
                front,
            ) by {
                assert(self.origin(features, current, event, ops[p]));
                if p < imports.len() {
                    assert(ops[p] == imports[p]);
                }
                assert(ops.take(p)[n] == early);
            }
        }
        self.lemma_before(features, run, late, front, front, i);
    }

    /// A function is called only once the main module was instantiated and
    /// the function was found in it: the one that the command names, or the
    /// default one where it names none.
    pub proof fn law_function_is_found_before_it_is_called(
        &self,
        features: Features,
        run: Run,
        i: int,
    )
        requires
            self.is_run(features, run),
            0 <= i < run.states.len(),
            run.states[i].current is InspectFunction,
        ensures
            i >= 2,
            run.states[i - 2].current == OpView::InstantiateMain,
            run.events[i - 2] == EventView::Done,
            run.states[i - 1].current == (match self.invoke {
                Some(name) => OpView::LookupExport(name@),
                None => OpView::LookupDefault,
            }),
            run.events[i - 1] == EventView::Done,
    {
        let late = |op: OpView| op is InspectFunction;
        let lookup = match self.invoke {
            Some(name) => OpView::LookupExport(name@),
            None => OpView::LookupDefault,
        };
        let wanted = seq![OpView::InstantiateMain, lookup];
        let fits = |row: Seq<OpView>| row == wanted;
        assert forall|current: OpView, event: EventView| !(current is Fail) implies has_rows(
            #[trigger] self.reaction(features, current, event),
            late,
            2,
            fits,
        ) by {
            let ops = self.reaction(features, current, event);
            assert forall|p: int| 0 <= p < ops.len() && late(#[trigger] ops[p]) implies 2 <= p
                && fits(ops.subrange(p - 2, p)) by {
                self.lemma_calls_are_listed_last(features, current, event, p);
                assert(ops.subrange(p - 2, p) =~= wanted);
            }
        }
        assert forall|row: Seq<OpView>, k: int|
            #![trigger fits(row), row[k]]
            row.len() == 2 && fits(row) && 0 <= k < 2 implies self.is_plain(features, row[k]) by {
            self.lemma_simple_work(features, row[k]);
        }
        self.lemma_row_is_done(features, run, late, 2, fits, i);
        let row = history(run, i).subrange(i - 2, i);
        assert(row[0] == run.states[i - 2].current && row[1] == run.states[i - 1].current);
        assert(self.reaction(features, run.states[i - 2].current, run.events[i - 2]).len() == 0);
        assert(self.reaction(features, run.states[i - 1].current, run.events[i - 1]).len() == 0);
        self.lemma_simple_work_is_done(features, run.states[i - 2].current, run.events[i - 2]);
        self.lemma_simple_work_is_done(features, run.states[i - 1].current, run.events[i - 1]);
    }

    /// What is called in the main module is listed last, behind what it takes.
    proof fn lemma_calls_are_listed_last(
        &self,
        features: Features,
        current: OpView,
        event: EventView,
        p: int,
    )
        requires
            !(current is Fail),
            0 <= p < self.reaction(features, current, event).len(),
            self.reaction(features, current, event)[p] is InspectFunction || self.reaction(
                features,
                current,
                event,
            )[p] is CallRun,
        ensures
            ({
                let ops = self.reaction(features, current, event);
                &&& p == ops.len() - 1
                &&& ops[p] is InspectFunction ==> p >= 2 && ops[p - 2] == OpView::InstantiateMain
                    && ops[p - 1] == (match self.invoke {
                    Some(name) => OpView::LookupExport(name@),
                    None => OpView::LookupDefault,
                })
                &&& ops[p] is CallRun ==> p >= 1 && ops[p - 1] == OpView::InstantiateCommand
            }),
    {
        let ops = self.reaction(features, current, event);
        self.lemma_reaction_originates(features, current, event);
        assert(self.origin(features, current, event, ops[p]));
        let kind = if ops[p] is CallRun {
            ModuleKind::Component
        } else {
            ModuleKind::Core
        };
        let imports = self.import_ops(kind);
        let calls = self.call_ops(kind);
        assert(ops == self.main_ops(kind));
        if p < imports.len() {
            assert(ops[p] == imports[p]);
        } else if p > imports.len() {
            assert(ops[p] == calls[p - imports.len() - 1]);
            assert(ops[p - 1] == (imports + seq![OpView::Enter(Stage::EpochHandler)] + calls)[p
                - 1]);
        }
    }

    /// The program of a component is run right after it was instantiated.
    pub proof fn law_component_is_instantiated_before_it_runs(
        &self,
        features: Features,
        run: Run,
        i: int,
    )
        requires
            self.is_run(features, run),
            0 <= i < run.states.len(),
            run.states[i].current is CallRun,
        ensures
            i >= 1,
            run.states[i - 1].current == OpView::InstantiateCommand,
            run.events[i - 1] == EventView::Done,
    {
        let late = |op: OpView| op is CallRun;
        let wanted = seq![OpView::InstantiateCommand];
        let fits = |row: Seq<OpView>| row == wanted;
        assert forall|current: OpView, event: EventView| !(current is Fail) implies has_rows(
            #[trigger] self.reaction(features, current, event),
            late,
            1,
            fits,
        ) by {
            let ops = self.reaction(features, current, event);
            assert forall|p: int| 0 <= p < ops.len() && late(#[trigger] ops[p]) implies 1 <= p
                && fits(ops.subrange(p - 1, p)) by {
                self.lemma_calls_are_listed_last(features, current, event, p);
                assert(ops.subrange(p - 1, p) =~= wanted);
            }
        }
        assert forall|row: Seq<OpView>, k: int|
            #![trigger fits(row), row[k]]
            row.len() == 1 && fits(row) && 0 <= k < 1 implies self.is_plain(features, row[k]) by {
            self.lemma_simple_work(features, row[k]);
        }
        self.lemma_row_is_done(features, run, late, 1, fits, i);
        let row = history(run, i).subrange(i - 1, i);
        assert(row[0] == run.states[i - 1].current);
        assert(self.reaction(features, run.states[i - 1].current, run.events[i - 1]).len() == 0);
        self.lemma_simple_work_is_done(features, run.states[i - 1].current, run.events[i - 1]);
    }

    /// A module is linked before the main one right after it was kept under
    /// the name that the command gives it, and once it was made ready.
    pub proof fn law_preloads_are_loaded_before_they_are_linked(
        &self,
        features: Features,
        run: Run,
        i: int,
        k: usize,
    )
        requires
            self.is_run(features, run),
            0 <= i < run.states.len(),
            run.states[i].current matches OpView::LinkPreload { index, .. } && index == k,
        ensures
            i >= 1,
            run.states[i - 1].current == (OpView::KeepModule {
                target: Target::Preload(k),
                name: self.preloads@[k as int].0@,
            }),
            exists|j: int|
                0 <= j < i && ((#[trigger] run.states[j]).current matches OpView::LoadModule {
                    target,
                    kind,
                    ..
                } && target == Target::Preload(k) && kind == ModuleKind::Core && run.events[j]
                    == EventView::Done),
    {
        let late = |op: OpView| op matches OpView::LinkPreload { index, .. } && index == k;
        let kept = OpView::KeepModule {
            target: Target::Preload(k),
            name: self.preloads@[k as int].0@,
        };
        let wanted = seq![kept];
        let fits = |row: Seq<OpView>| row == wanted;
        let preloads = self.preload_ops(features, ModuleKind::Core);
        let first = self.first_ops(features, ModuleKind::Core);
        assert forall|current: OpView, event: EventView| !(current is Fail) implies has_rows(
            #[trigger] self.reaction(features, current, event),
            late,
            1,
            fits,
        ) by {
            self.lemma_reaction_originates(features, current, event);
            let ops = self.reaction(features, current, event);
            assert forall|p: int| 0 <= p < ops.len() && late(#[trigger] ops[p]) implies 1 <= p
                && fits(ops.subrange(p - 1, p)) by {
                assert(self.origin(features, current, event, ops[p]));
                self.lemma_link_position(features, ops[p], p, k);
                assert(ops.subrange(p - 1, p) =~= wanted);
            }
        }
        self.lemma_row_is_done(features, run, late, 1, fits, i);
        let row = history(run, i).subrange(i - 1, i);
        assert(row[0] == run.states[i - 1].current);
        self.lemma_preload_is_loaded(features, run, i, k);
    }

    /// Where in the list a module is linked, and what stands before.
    proof fn lemma_link_position(&self, features: Features, op: OpView, p: int, k: usize)
        requires
            0 <= p < self.setup_ops(features, ModuleKind::Core).len(),
            self.setup_ops(features, ModuleKind::Core)[p] == op,
            op matches OpView::LinkPreload { index, .. } && index == k,
        ensures
            ({
                let setup = self.setup_ops(features, ModuleKind::Core);
                let first = self.first_ops(features, ModuleKind::Core);
                &&& p == first.len() + 3 * k + 2
                &&& k < self.preloads@.len()
                &&& setup[p - 1] == (OpView::KeepModule {
                    target: Target::Preload(k),
                    name: self.preloads@[k as int].0@,
                })
                &&& setup[p - 2] == (OpView::MapFile {
                    target: Target::Preload(k),
                    location: self.location_of(features, Target::Preload(k)),
                })
            }),
    {
        let kind = ModuleKind::Core;
        let setup = self.setup_ops(features, kind);
        let first = self.first_ops(features, kind);
        let preloads = self.preload_ops(features, kind);
        self.lemma_first_runs_no_code(features, kind);
        assert(!self.coredump_pattern());
        if p < first.len() {
            assert(setup[p] == first[p]);
        }
        let o = p - first.len();
        assert(setup[p] == preloads[o]);
        assert(0 <= o / 3 < self.preloads.len());
        assert((o / 3) as usize as int == o / 3);
        assert(setup[p - 1] == preloads[o - 1]);
        assert(setup[p - 2] == preloads[o - 2]);
    }

    /// A module is made ready before it is linked.
    proof fn lemma_preload_is_loaded(&self, features: Features, run: Run, i: int, k: usize)
        requires
            self.is_run(features, run),
            0 <= i < run.states.len(),
            run.states[i].current matches OpView::LinkPreload { index, .. } && index == k,
        ensures
            exists|j: int|
                0 <= j < i && ((#[trigger] run.states[j]).current matches OpView::LoadModule {
                    target,
                    kind,
                    ..
                } && target == Target::Preload(k) && kind == ModuleKind::Core && run.events[j]
                    == EventView::Done),
    {
        let late = |op: OpView| op matches OpView::LinkPreload { index, .. } && index == k;
        let early = |op: OpView|
            op matches OpView::LoadModule { target, kind, .. } && target == Target::Preload(k)
                && kind == ModuleKind::Core;
        let front = |op: OpView|
            match op {
                OpView::MapFile { target, .. } => target == Target::Preload(k),
                OpView::ReadFile { target, .. } => target == Target::Preload(k),
                OpView::LoadModule { target, .. } => target == Target::Preload(k),
                OpView::Fail(_) => true,
                _ => false,
            };
        assert forall|current: OpView, event: EventView|
            !late(current) && !early(current) && !(current is Fail) implies ({
            let reaction = #[trigger] self.reaction(features, current, event);
            guarded(reaction, late, front) && (front(current) ==> some_has(reaction, front))
        }) by {
            let ops = self.reaction(features, current, event);
            self.lemma_reaction_originates(features, current, event);
            assert forall|p: int| 0 <= p < ops.len() && late(#[trigger] ops[p]) implies some_has(
                ops.take(p),
                front,
            ) by {
                assert(self.origin(features, current, event, ops[p]));
                self.lemma_link_position(features, ops[p], p, k);
                assert(front(ops.take(p)[p - 2]));
            }
            if front(current) {
                assert(ops.len() == 1);
                assert(front(ops[0]));
            }
        }
        self.lemma_before(features, run, late, early, front, i);
        let q = choose|q: int|
            0 <= q < history(run, i).len() && early(#[trigger] history(run, i)[q]);
        assert(run.states[q].current == history(run, i)[q]);
        self.lemma_step(features, run, q);
        let reaction = self.reaction(features, run.states[q].current, run.events[q]);
        if !(run.events[q] is Done) {
            assert(reaction[0] is Fail);
            assert(crate::run::remaining(run.states[q + 1])[0] == reaction[0]);
        }
        assert(0 <= q < i && run.events[q] == EventView::Done);
    }
}

} // verus!
