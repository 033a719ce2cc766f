//! What holds of every run, whatever comes of the outside work.

use crate::command::{Features, RunCommand};
use crate::error::Problem;
use crate::limits::{count_or_default, in_force, is_refusal, memory_answer, table_answer};
use crate::origin::main_loaded;
use crate::plan::{failure_for, EventView, ModuleKind, OpView, Stage, Target};
use crate::run::{
    all_have, guarded, history, lemma_all_have_joined, lemma_guarded_by_more, remaining, some_has,
    Run,
};
use crate::text::pairs;
use crate::wasi::first_free_fd;
use vstd::prelude::*;

verus! {

impl RunCommand {
    /// Precompiled code is used only where the command allows it.
    pub proof fn law_precompiled_code_is_allowed(&self, features: Features, run: Run, i: int)
        requires
            self.is_run(features, run),
            0 <= i < run.states.len(),
        ensures
            run.states[i].current matches OpView::LoadModule { source, .. } && !(source is Wasm)
                ==> self.allow_precompiled,
    {
        let property = |op: OpView|
            (op matches OpView::LoadModule { source, .. } && !(source is Wasm))
                ==> self.allow_precompiled;
        assert forall|current: OpView, event: EventView|
            property(current) && !(current is Fail) implies all_have(
            #[trigger] self.reaction(features, current, event),
            property,
        ) by {
            self.lemma_reaction_originates(features, current, event);
            let ops = self.reaction(features, current, event);
            assert forall|p: int| 0 <= p < ops.len() implies property(#[trigger] ops[p]) by {
                assert(self.origin(features, current, event, ops[p]));
            }
        }
        self.lemma_everywhere(features, run, property, i);
    }

    /// No limits are put in place but those that the command gives.
    pub proof fn law_only_given_limits_are_set(&self, features: Features, run: Run, i: int)
        requires
            self.is_run(features, run),
            0 <= i < run.states.len(),
        ensures
            run.states[i].current matches OpView::InstallLimits(limits) ==> limits
                == self.limits(),
    {
        let property = |op: OpView|
            op matches OpView::InstallLimits(limits) ==> limits == self.limits();
        assert forall|current: OpView, event: EventView|
            property(current) && !(current is Fail) implies all_have(
            #[trigger] self.reaction(features, current, event),
            property,
        ) by {
            self.lemma_reaction_originates(features, current, event);
            let ops = self.reaction(features, current, event);
            assert forall|p: int| 0 <= p < ops.len() implies property(#[trigger] ops[p]) by {
                assert(self.origin(features, current, event, ops[p]));
            }
        }
        self.lemma_everywhere(features, run, property, i);
    }

    /// A component is made ready, linked or run only where the command allows
    /// components and they are built in.
    pub proof fn law_components_are_allowed(&self, features: Features, run: Run, i: int)
        requires
            self.is_run(features, run),
            0 <= i < run.states.len(),
        ensures
            match run.states[i].current {
                OpView::LoadModule { kind, .. } => kind == ModuleKind::Component,
                OpView::CreateLinker(kind) => kind == ModuleKind::Component,
                OpView::InstantiateCommand => true,
                OpView::CallRun => true,
                _ => false,
            } ==> self.components_allowed() && features.component_model,
    {
        let property = |op: OpView|
            match op {
                OpView::LoadModule { kind, .. } => kind == ModuleKind::Component,
                OpView::CreateLinker(kind) => kind == ModuleKind::Component,
                OpView::Enter(Stage::Main(kind)) => kind == ModuleKind::Component,
                OpView::InstantiateCommand => true,
                OpView::CallRun => true,
                _ => false,
            } ==> self.components_allowed() && features.component_model;
        assert forall|current: OpView, event: EventView|
            property(current) && !(current is Fail) implies all_have(
            #[trigger] self.reaction(features, current, event),
            property,
        ) by {
            self.lemma_reaction_originates(features, current, event);
            let ops = self.reaction(features, current, event);
            assert forall|p: int| 0 <= p < ops.len() implies property(#[trigger] ops[p]) by {
                assert(self.origin(features, current, event, ops[p]));
            }
        }
        self.lemma_everywhere(features, run, property, i);
    }

    /// Where the path for core dumps holds a pattern, no more is done than to
    /// make the main module ready: nothing is linked and nothing is run.
    pub proof fn law_nothing_runs_with_a_coredump_pattern(
        &self,
        features: Features,
        run: Run,
        i: int,
    )
        requires
            self.is_run(features, run),
            0 <= i < run.states.len(),
            self.coredump_pattern(),
        ensures
            match run.states[i].current {
                OpView::Enter(Stage::Run) => true,
                OpView::InitLogging => true,
                OpView::BuildConfig => true,
                OpView::EnableEpochInterruption => true,
                OpView::SetProfiler(_) => true,
                OpView::SetWmemcheck(_) => true,
                OpView::CreateEngine => true,
                OpView::MapFile { .. } => true,
                OpView::ReadFile { .. } => true,
                OpView::LoadModule { .. } => true,
                _ => false,
            },
    {
        let property = |op: OpView| comes_first(op);
        assert forall|current: OpView, event: EventView|
            property(current) && !(current is Fail) implies all_have(
            #[trigger] self.reaction(features, current, event),
            property,
        ) by {
            self.lemma_first_work_stays(features, current, event);
        }
        self.lemma_everywhere(features, run, property, i);
        self.lemma_current_goes_on(features, run, i);
    }

    /// With a pattern, the work that comes first is followed by such work
    /// only.
    proof fn lemma_first_work_stays(&self, features: Features, current: OpView, event: EventView)
        requires
            self.coredump_pattern(),
            comes_first(current),
            !(current is Fail),
        ensures
            all_have(self.reaction(features, current, event), |op: OpView| comes_first(op)),
    {
        let ops = self.reaction(features, current, event);
        match current {
            OpView::Enter(_) => {
                assert(all_have(self.engine_ops(features), |op: OpView| comes_first(op)));
            },
            OpView::LoadModule { kind, .. } => {
                assert(self.setup_ops(features, kind).len() == 1);
            },
            OpView::MapFile { .. } => {
                assert(ops.len() == 1);
            },
            OpView::ReadFile { .. } => {
                assert(ops.len() == 1);
            },
            _ => {
                assert(ops.len() <= 1);
            },
        }
    }
}

/// Work up to the point where the main module is ready, or an end there.
spec fn comes_first(op: OpView) -> bool {
    match op {
        OpView::Enter(Stage::Run) => true,
        OpView::InitLogging => true,
        OpView::BuildConfig => true,
        OpView::EnableEpochInterruption => true,
        OpView::SetProfiler(_) => true,
        OpView::SetWmemcheck(_) => true,
        OpView::CreateEngine => true,
        OpView::MapFile { target, .. } => target == Target::Main,
        OpView::ReadFile { target, .. } => target == Target::Main,
        OpView::LoadModule { target, .. } => target == Target::Main,
        OpView::Fail(_) => true,
        _ => false,
    }
}

/// Work that lets code run beside or in a main module of some kind, or leads
/// to it.
pub open spec fn runs_code_of(op: OpView, kind: ModuleKind) -> bool {
    match op {
        OpView::LinkPreload { .. } => kind == ModuleKind::Core,
        OpView::Enter(Stage::Main(entered)) => entered == kind,
        OpView::InstantiateMain => kind == ModuleKind::Core,
        OpView::InspectFunction => kind == ModuleKind::Core,
        OpView::CallFunction(_) => kind == ModuleKind::Core,
        OpView::InstantiateCommand => kind == ModuleKind::Component,
        OpView::CallRun => kind == ModuleKind::Component,
        _ => false,
    }
}

/// Work that lets code of a module run, or leads to it.
pub open spec fn runs_code(op: OpView) -> bool {
    runs_code_of(op, ModuleKind::Core) || runs_code_of(op, ModuleKind::Component)
}

impl RunCommand {
    /// What is done between loading the main module and the modules to load
    /// before it.
    pub open spec fn first_ops(&self, features: Features, kind: ModuleKind) -> Seq<OpView> {
        seq![OpView::CreateLinker(kind)] + self.export_ops(kind) + seq![OpView::CreateStore]
            + self.wasi_ops(features, kind) + self.limit_ops() + self.keep_ops(kind)
    }

    /// No code runs before the first module that is loaded before the main
    /// one.
    pub proof fn lemma_first_runs_no_code(&self, features: Features, kind: ModuleKind)
        ensures
            all_have(self.first_ops(features, kind), |op: OpView| !runs_code(op)),
            !self.coredump_pattern() ==> self.setup_ops(features, kind) == self.first_ops(
                features,
                kind,
            ) + self.preload_ops(features, kind) + seq![OpView::Enter(Stage::Main(kind))],
    {
        let quiet = |op: OpView| !runs_code(op);
        let linker = seq![OpView::CreateLinker(kind)] + self.export_ops(kind) + seq![
            OpView::CreateStore,
        ];
        let common = self.wasi_common_ops(kind);
        let nn = self.wasi_nn_ops(features, kind);
        let threads = self.wasi_threads_ops(features, kind);
        let http = self.wasi_http_ops(features);
        let wasi = self.wasi_ops(features, kind);
        let limits = self.limit_ops();
        let keep = self.keep_ops(kind);
        assert(all_have(linker, quiet));
        assert(all_have(common, quiet));
        assert(all_have(nn, quiet));
        assert(all_have(threads, quiet));
        assert(all_have(http, quiet));
        lemma_all_have_joined(common, nn, quiet);
        lemma_all_have_joined(common + nn, threads, quiet);
        lemma_all_have_joined(common + nn + threads, http, quiet);
        assert(all_have(limits, quiet));
        assert(all_have(keep, quiet));
        lemma_all_have_joined(linker, wasi, quiet);
        lemma_all_have_joined(linker + wasi, limits, quiet);
        lemma_all_have_joined(linker + wasi + limits, keep, quiet);
    }

    /// What runs code is listed only once the main module is ready, or by
    /// work that runs code itself.
    proof fn lemma_code_follows_loading(
        &self,
        features: Features,
        current: OpView,
        event: EventView,
        kind: ModuleKind,
    )
        requires
            !runs_code_of(current, kind),
            !(current is Fail),
        ensures
            all_have(
                self.reaction(features, current, event),
                |op: OpView| !runs_code_of(op, kind),
            ) || (!self.coredump_pattern() && self.reaction(features, current, event)
                == self.setup_ops(features, kind)),
    {
        let ops = self.reaction(features, current, event);
        self.lemma_reaction_originates(features, current, event);
        if main_loaded(current, event, kind) {
            assert(ops == self.setup_ops(features, kind));
            if self.coredump_pattern() {
                assert(ops =~= seq![failure_for(Problem::CoredumpPattern)]);
            }
        } else {
            assert forall|p: int| 0 <= p < ops.len() implies !runs_code_of(
                #[trigger] ops[p],
                kind,
            ) by {
                assert(self.origin(features, current, event, ops[p]));
            }
        }
    }

    /// What is done with certainty before the first module that is loaded
    /// before the main one, is done before code runs.
    pub proof fn lemma_first_before_code(
        &self,
        features: Features,
        run: Run,
        i: int,
        kind: ModuleKind,
        early: OpView,
    )
        requires
            self.is_run(features, run),
            0 <= i < run.states.len(),
            runs_code_of(run.states[i].current, kind),
            self.first_ops(features, kind).contains(early),
        ensures
            history(run, i).contains(early),
    {
        let late = |op: OpView| runs_code_of(op, kind);
        let front = |op: OpView| op == early;
        let first = self.first_ops(features, kind);
        let n = first.index_of(early);
        self.lemma_first_runs_no_code(features, kind);
        assert forall|current: OpView, event: EventView|
            !late(current) && !(current is Fail) implies guarded(
            #[trigger] self.reaction(features, current, event),
            late,
            front,
        ) by {
            let ops = self.reaction(features, current, event);
            self.lemma_code_follows_loading(features, current, event, kind);
            if !all_have(ops, |op: OpView| !runs_code_of(op, kind)) {
                assert forall|p: int| 0 <= p < ops.len() && late(#[trigger] ops[p]) implies some_has(
                    ops.take(p),
                    front,
                ) by {
                    if p < first.len() {
                        assert(ops[p] == first[p]);
                    }
                    assert(ops.take(p)[n] == early);
                }
            }
        }
        self.lemma_before(features, run, late, front, front, i);
    }

    /// No code of any module runs before the limits of the command are in
    /// place, and before its fuel is added where it gives some.
    pub proof fn law_limits_come_before_code(&self, features: Features, run: Run, i: int)
        requires
            self.is_run(features, run),
            0 <= i < run.states.len(),
            runs_code(run.states[i].current),
        ensures
            history(run, i).contains(OpView::InstallLimits(self.limits())),
            self.common.fuel matches Some(fuel) ==> history(run, i).contains(
                OpView::AddFuel(fuel),
            ),
    {
        let kind = if runs_code_of(run.states[i].current, ModuleKind::Core) {
            ModuleKind::Core
        } else {
            ModuleKind::Component
        };
        self.lemma_limits_are_among_the_first(features, kind);
        self.lemma_first_before_code(
            features,
            run,
            i,
            kind,
            OpView::InstallLimits(self.limits()),
        );
        if let Some(fuel) = self.common.fuel {
            self.lemma_first_before_code(features, run, i, kind, OpView::AddFuel(fuel));
        }
    }

    /// All code of a run, that of the modules loaded before the main one too,
    /// runs under limits that refuse growth beyond the sizes that the command
    /// gives, by a trap exactly where it asks for that, and that allow as many
    /// instances, tables and memories as it gives, or the default number.
    pub proof fn law_code_runs_under_the_limits(
        &self,
        features: Features,
        run: Run,
        i: int,
        bytes: usize,
        most_bytes: Option<usize>,
        elements: u32,
        most_elements: Option<u32>,
    )
        requires
            self.is_run(features, run),
            0 <= i < run.states.len(),
            runs_code(run.states[i].current),
        ensures
            exists|j: int|
                0 <= j < i && (#[trigger] run.states[j]).current == OpView::InstallLimits(
                    self.limits(),
                ),
            forall|j: int|
                0 <= j < i && (#[trigger] run.states[j]).current is InstallLimits
                    ==> run.states[j].current == OpView::InstallLimits(self.limits()),
            self.max_memory_size matches Some(max) ==> bytes > max ==> is_refusal(
                memory_answer(in_force(self.limits()), bytes, most_bytes),
                self.trap_on_grow_failure,
            ),
            self.max_table_elements matches Some(max) ==> elements > max ==> is_refusal(
                table_answer(in_force(self.limits()), elements, most_elements),
                self.trap_on_grow_failure,
            ),
            in_force(self.limits()).instances == count_or_default(self.max_instances),
            in_force(self.limits()).tables == count_or_default(self.max_tables),
            in_force(self.limits()).memories == count_or_default(self.max_memories),
    {
        let install = OpView::InstallLimits(self.limits());
        self.law_limits_come_before_code(features, run, i);
        let q = history(run, i).index_of(install);
        assert(run.states[q].current == install);
        assert forall|j: int|
            0 <= j < i && (#[trigger] run.states[j]).current is InstallLimits implies run.states[j].current
            == install by {
            self.law_only_given_limits_are_set(features, run, j);
        }
    }

    /// Where a program gets neural networks, all graphs of the command have
    /// been loaded, in their order, before code runs that could ask for them.
    pub proof fn law_graphs_are_loaded_before_code(
        &self,
        features: Features,
        run: Run,
        i: int,
        kind: ModuleKind,
    )
        requires
            self.is_run(features, run),
            0 <= i < run.states.len(),
            runs_code_of(run.states[i].current, kind),
            self.wasi_modules().wasi_nn,
            features.wasi_nn,
        ensures
            history(run, i).contains(OpView::PreloadGraphs(pairs(self.graphs@))),
    {
        let linker = seq![OpView::CreateLinker(kind)] + self.export_ops(kind) + seq![
            OpView::CreateStore,
        ];
        let common = self.wasi_common_ops(kind);
        let nn = self.wasi_nn_ops(features, kind);
        let first = self.first_ops(features, kind);
        let n = linker.len() + common.len() + 1;
        assert(nn[1] == OpView::PreloadGraphs(pairs(self.graphs@)));
        assert(self.wasi_ops(features, kind)[common.len() as int + 1] == nn[1]);
        assert(first[n as int] == nn[1]);
        self.lemma_first_before_code(
            features,
            run,
            i,
            kind,
            OpView::PreloadGraphs(pairs(self.graphs@)),
        );
    }

    /// The limits and the fuel come before the first module that is loaded
    /// before the main one.
    proof fn lemma_limits_are_among_the_first(&self, features: Features, kind: ModuleKind)
        ensures
            self.first_ops(features, kind).contains(OpView::InstallLimits(self.limits())),
            self.common.fuel matches Some(fuel) ==> self.first_ops(features, kind).contains(
                OpView::AddFuel(fuel),
            ),
    {
        let before = seq![OpView::CreateLinker(kind)] + self.export_ops(kind) + seq![
            OpView::CreateStore,
        ] + self.wasi_ops(features, kind);
        let limits = self.limit_ops();
        let keep = self.keep_ops(kind);
        let first = self.first_ops(features, kind);
        let n = before.len() as int;
        assert(first == before + limits + keep);
        assert(first[n] == limits[0]);
        if let Some(fuel) = self.common.fuel {
            assert(first[n + 1] == limits[1]);
        }
    }

    /// Modules that are loaded before the main one are linked in the order
    /// in which the command gives them, and all of them before the main
    /// module is instantiated.
    pub proof fn law_preloads_are_linked_in_order(
        &self,
        features: Features,
        run: Run,
        i: int,
        k: usize,
    )
        requires
            self.is_run(features, run),
            0 <= i < run.states.len(),
            k < self.preloads@.len(),
            match run.states[i].current {
                OpView::LinkPreload { index, .. } => index > k,
                OpView::InstantiateMain => true,
                OpView::CallFunction(_) => true,
                _ => false,
            },
        ensures
            history(run, i).contains(
                OpView::LinkPreload {
                    index: k,
                    name: self.preloads@[k as int].0@,
                    path: self.preloads@[k as int].1@,
                },
            ),
    {
        let linked = OpView::LinkPreload {
            index: k,
            name: self.preloads@[k as int].0@,
            path: self.preloads@[k as int].1@,
        };
        let late = |op: OpView|
            match op {
                OpView::LinkPreload { index, .. } => index > k,
                _ => runs_code_of(op, ModuleKind::Core),
            };
        let front = |op: OpView| op == linked;
        let first = self.first_ops(features, ModuleKind::Core);
        let preloads = self.preload_ops(features, ModuleKind::Core);
        self.lemma_first_runs_no_code(features, ModuleKind::Core);
        assert forall|current: OpView, event: EventView|
            !late(current) && !(current is Fail) implies guarded(
            #[trigger] self.reaction(features, current, event),
            late,
            front,
        ) by {
            let ops = self.reaction(features, current, event);
            if current is LinkPreload {
                assert(ops.len() <= 1);
            } else {
                self.lemma_code_follows_loading(features, current, event, ModuleKind::Core);
                if !all_have(ops, |op: OpView| !runs_code_of(op, ModuleKind::Core)) {
                    assert forall|p: int| 0 <= p < ops.len() && late(#[trigger] ops[p]) implies some_has(
                        ops.take(p),
                        front,
                    ) by {
                        if p < first.len() {
                            assert(ops[p] == first[p]);
                        } else if p < first.len() + preloads.len() {
                            assert(ops[p] == preloads[p - first.len()]);
                        }
                        assert(preloads[3 * k + 2] == linked);
                        assert(ops.take(p)[first.len() + 3 * k + 2] == linked);
                    }
                }
            }
        }
        self.lemma_before(features, run, late, front, front, i);
    }

    /// The timer, the counting of samples and the profile that the command
    /// asks for are in place before the main module is instantiated and
    /// before anything in it is called.
    pub proof fn law_time_is_set_up_before_main(
        &self,
        features: Features,
        run: Run,
        i: int,
        op: OpView,
    )
        requires
            self.is_run(features, run),
            0 <= i < run.states.len(),
            match run.states[i].current {
                OpView::InstantiateMain => true,
                OpView::CallFunction(_) => true,
                OpView::InstantiateCommand => true,
                OpView::CallRun => true,
                _ => false,
            },
            self.epoch_ops().contains(op),
        ensures
            history(run, i).contains(op),
    {
        let late = |op: OpView|
            match op {
                OpView::InstantiateMain => true,
                OpView::InspectFunction => true,
                OpView::CallFunction(_) => true,
                OpView::InstantiateCommand => true,
                OpView::CallRun => true,
                _ => false,
            };
        let early = |o: OpView| o == op;
        let front = |o: OpView| o == op || o == OpView::Enter(Stage::EpochHandler);
        assert forall|current: OpView, event: EventView|
            !late(current) && !early(current) && !(current is Fail) implies ({
            let reaction = #[trigger] self.reaction(features, current, event);
            guarded(reaction, late, front) && (front(current) ==> some_has(reaction, front))
        }) by {
            let ops = self.reaction(features, current, event);
            self.lemma_reaction_originates(features, current, event);
            if let OpView::Enter(Stage::Main(kind)) = current {
                let imports = self.import_ops(kind);
                assert forall|p: int| 0 <= p < ops.len() && late(#[trigger] ops[p]) implies some_has(
                    ops.take(p),
                    front,
                ) by {
                    if p < imports.len() {
                        assert(ops[p] == imports[p]);
                    }
                    assert(ops.take(p)[imports.len() as int] == OpView::Enter(Stage::EpochHandler));
                }
            } else {
                assert forall|p: int| 0 <= p < ops.len() implies !late(#[trigger] ops[p]) by {
                    assert(self.origin(features, current, event, ops[p]));
                }
                if current == OpView::Enter(Stage::EpochHandler) {
                    let q = self.epoch_ops().index_of(op);
                    assert(front(ops[q]));
                }
            }
        }
        self.lemma_before(features, run, late, early, front, i);
    }

    /// The piece of work that finishes the context of WASI for a main module
    /// of some kind.
    pub open spec fn wasi_end(&self, kind: ModuleKind) -> OpView {
        if kind == ModuleKind::Core && !self.preview2 {
            OpView::FinishPreview1
        } else {
            OpView::FinishPreview2
        }
    }

    /// The stage in which the context of WASI is made.
    spec fn wasi_stage(&self, kind: ModuleKind) -> Stage {
        if kind == ModuleKind::Core && !self.preview2 {
            Stage::Preview1
        } else {
            Stage::Preview2
        }
    }

    /// The stage in which the context of WASI is made is listed before code.
    proof fn lemma_wasi_stage_first(&self, features: Features, kind: ModuleKind)
        requires
            !self.coredump_pattern(),
            self.wasi_modules().wasi_common,
        ensures
            guarded(
                self.setup_ops(features, kind),
                |op: OpView| runs_code_of(op, kind),
                |op: OpView| op == OpView::Enter(self.wasi_stage(kind)),
            ),
    {
        let stage = OpView::Enter(self.wasi_stage(kind));
        let front = |op: OpView| op == stage;
        let ops = self.setup_ops(features, kind);
        let first = self.first_ops(features, kind);
        let linker = seq![OpView::CreateLinker(kind)] + self.export_ops(kind) + seq![
            OpView::CreateStore,
        ];
        let n = linker.len() as int + 1;
        self.lemma_first_runs_no_code(features, kind);
        assert(self.wasi_common_ops(kind)[1] == stage);
        assert(self.wasi_ops(features, kind)[1] == stage);
        assert(first[n] == stage);
        assert forall|p: int| 0 <= p < ops.len() && runs_code_of(#[trigger] ops[p], kind) implies some_has(
            ops.take(p),
            front,
        ) by {
            if p < first.len() {
                assert(ops[p] == first[p]);
            }
            assert(ops.take(p)[n] == stage);
        }
    }

    /// Where a program gets the modules of WASI that are the default, their
    /// context is finished before code runs that could ask for it.
    pub proof fn law_wasi_is_ready_before_code(
        &self,
        features: Features,
        run: Run,
        i: int,
        kind: ModuleKind,
    )
        requires
            self.is_run(features, run),
            0 <= i < run.states.len(),
            runs_code_of(run.states[i].current, kind),
            self.wasi_modules().wasi_common,
        ensures
            history(run, i).contains(self.wasi_end(kind)),
    {
        let stage = self.wasi_stage(kind);
        let late = |op: OpView| runs_code_of(op, kind);
        let early = |op: OpView| op == self.wasi_end(kind);
        let front = |op: OpView|
            match op {
                OpView::Enter(entered) => entered == stage,
                OpView::OpenListenFds => stage == Stage::Preview1,
                OpView::TakeListener { .. } => stage == Stage::Preview1,
                OpView::Fail(_) => true,
                _ => op == self.wasi_end(kind),
            };
        let enters = |op: OpView| op == OpView::Enter(stage);
        assert forall|current: OpView, event: EventView|
            !late(current) && !early(current) && !(current is Fail) implies ({
            let reaction = #[trigger] self.reaction(features, current, event);
            guarded(reaction, late, front) && (front(current) ==> some_has(reaction, front))
        }) by {
            let ops = self.reaction(features, current, event);
            self.lemma_code_follows_loading(features, current, event, kind);
            if !all_have(ops, |op: OpView| !runs_code_of(op, kind)) {
                self.lemma_wasi_stage_first(features, kind);
                lemma_guarded_by_more(ops, late, enters, front);
            }
            if front(current) {
                self.lemma_context_is_finished(features, current, event);
                assert(front(ops[ops.len() - 1]));
            }
        }
        self.lemma_before(features, run, late, early, front, i);
    }

    /// What is done for a context of WASI ends with its end, or with the end
    /// of the run.
    proof fn lemma_context_is_finished(&self, features: Features, current: OpView, event: EventView)
        ensures
            match current {
                OpView::Enter(Stage::Preview1) => true,
                OpView::OpenListenFds => true,
                OpView::TakeListener { .. } => true,
                _ => false,
            } ==> ({
                let last = self.reaction(features, current, event).last();
                &&& self.reaction(features, current, event).len() > 0
                &&& match last {
                    OpView::FinishPreview1 => true,
                    OpView::OpenListenFds => true,
                    OpView::TakeListener { .. } => true,
                    OpView::Fail(_) => true,
                    _ => false,
                }
            }),
            current == OpView::Enter(Stage::Preview2) ==> ({
                let last = self.reaction(features, current, event).last();
                &&& self.reaction(features, current, event).len() > 0
                &&& last is FinishPreview2 || last is Fail
            }),
    {
    }

    /// In a list, an inherited socket is made nonblocking right before it is
    /// handed to the program.
    spec fn unblocks(ops: Seq<OpView>) -> bool {
        forall|p: int|
            0 <= p < ops.len() && (#[trigger] ops[p]) is PreopenListener ==> p > 0 && ops[p - 1]
                == OpView::UnblockListener
    }

    /// What is left to do once the inherited sockets are known hands none of
    /// them to the program.
    proof fn lemma_rest_hands_no_listener(&self, num_fd: usize)
        ensures
            all_have(self.preview1_rest(num_fd), |op: OpView| !(op is PreopenListener)),
    {
        let other = |op: OpView| !(op is PreopenListener);
        let end = seq![OpView::FinishPreview1];
        assert(all_have(self.bind_ops(), other));
        assert(all_have(self.socket_ops(num_fd), other));
        assert(all_have(self.dir_ops(None), other));
        lemma_all_have_joined(self.bind_ops(), self.socket_ops(num_fd), other);
        lemma_all_have_joined(
            self.bind_ops() + self.socket_ops(num_fd),
            self.dir_ops(None),
            other,
        );
        lemma_all_have_joined(
            self.bind_ops() + self.socket_ops(num_fd) + self.dir_ops(None),
            end,
            other,
        );
    }

    /// What is listed after a piece of work has an inherited socket made
    /// nonblocking right before it is handed on.
    proof fn lemma_reaction_unblocks(&self, features: Features, current: OpView, event: EventView)
        requires
            !(current is Fail),
        ensures
            Self::unblocks(self.reaction(features, current, event)),
    {
        let ops = self.reaction(features, current, event);
        self.lemma_reaction_originates(features, current, event);
        if let OpView::TakeListener { index, count, last } = current {
            self.lemma_rest_hands_no_listener(first_free_fd(last));
            self.lemma_rest_hands_no_listener(first_free_fd(Some(index)));
            if event == EventView::Taken(true) {
                let next = self.listener_ops(count, (index + 1) as usize, Some(index));
                assert forall|p: int|
                    0 <= p < ops.len() && (#[trigger] ops[p]) is PreopenListener implies p > 0
                    && ops[p - 1] == OpView::UnblockListener by {
                    if p >= 2 {
                        assert(ops[p] == next[p - 2]);
                    }
                }
            }
        } else {
            assert forall|p: int| 0 <= p < ops.len() implies !((#[trigger] ops[p]) is PreopenListener)
                by {
                assert(self.origin(features, current, event, ops[p]));
            }
        }
    }

    /// What remains to be done has each inherited socket made nonblocking
    /// right before it is handed on, unless that was done just now.
    proof fn lemma_remaining_unblocks(&self, features: Features, run: Run, i: int)
        requires
            self.is_run(features, run),
            0 <= i < run.states.len(),
        ensures
            forall|p: int|
                0 <= p < remaining(run.states[i]).len() && (#[trigger] remaining(
                    run.states[i],
                )[p]) is PreopenListener ==> {
                    ||| p > 0 && remaining(run.states[i])[p - 1] == OpView::UnblockListener
                    ||| p == 0 && i > 0 && run.states[i - 1].current == OpView::UnblockListener
                },
        decreases i,
    {
        if i == 0 {
            assert(remaining(run.states[0]) =~= seq![OpView::Enter(Stage::Run)]);
        } else {
            let s = run.states[i - 1];
            let event = run.events[i - 1];
            let ops = self.reaction(features, s.current, event);
            let before = remaining(s);
            let after = remaining(run.states[i]);
            let n = ops.len() as int;
            self.lemma_remaining_unblocks(features, run, i - 1);
            self.lemma_step(features, run, i - 1);
            self.lemma_current_goes_on(features, run, i - 1);
            self.lemma_reaction_unblocks(features, s.current, event);
            assert forall|p: int|
                0 <= p < after.len() && (#[trigger] after[p]) is PreopenListener implies {
                ||| p > 0 && after[p - 1] == OpView::UnblockListener
                ||| p == 0 && run.states[i - 1].current == OpView::UnblockListener
            } by {
                if p < n {
                    assert(after[p] == ops[p]);
                    assert(after[p - 1] == ops[p - 1]);
                } else {
                    let q = p - n + 1;
                    assert(after[p] == before[q]);
                    assert(before[q - 1] == OpView::UnblockListener);
                    if q > 1 {
                        assert(after[p - 1] == before[q - 1]);
                    } else if n > 0 {
                        assert(after[0] == ops[0]);
                        assert(ops[0] is Fail);
                    }
                }
            }
        }
    }

    /// An inherited socket is handed to the program right after it was made
    /// nonblocking.
    pub proof fn law_inherited_sockets_are_nonblocking(&self, features: Features, run: Run, i: int)
        requires
            self.is_run(features, run),
            0 <= i < run.states.len(),
            run.states[i].current is PreopenListener,
        ensures
            i > 0,
            run.states[i - 1].current == OpView::UnblockListener,
            run.events[i - 1] == EventView::Done,
    {
        self.lemma_remaining_unblocks(features, run, i);
        assert(remaining(run.states[i])[0] == run.states[i].current);
        let s = run.states[i - 1];
        let event = run.events[i - 1];
        self.lemma_step(features, run, i - 1);
        if event != EventView::Done {
            assert(self.reaction(features, s.current, event)[0] is Fail);
            assert(remaining(run.states[i])[0] is Fail);
        }
    }

    /// The command asks for something that is refused to a component before
    /// it is reached.
    pub open spec fn refused_before_component(&self, features: Features) -> bool {
        let wasi = self.wasi_modules();
        ||| self.allow_unknown_exports
        ||| self.preloads@.len() > 0
        ||| wasi.wasi_common && (self.listenfd || self.tcplisten@.len() > 0)
        ||| wasi.wasi_nn && !features.wasi_nn
        ||| wasi.wasi_threads
        ||| wasi.wasi_http
    }

    /// The command asks for something that is refused to a component when it
    /// is reached.
    pub open spec fn refused_in_component(&self) -> bool {
        ||| self.trap_unknown_imports
        ||| self.default_values_unknown_imports
        ||| self.invoke is Some
    }

    /// What is refused before a component is reached stands in front of it.
    proof fn lemma_refused_in_front(&self, features: Features, front: spec_fn(OpView) -> bool)
        requires
            self.refused_before_component(features),
            forall|op: OpView| op is Fail ==> #[trigger] front(op),
            self.listenfd || self.tcplisten@.len() > 0 ==> front(OpView::Enter(Stage::Preview2)),
        ensures
            some_has(
                self.first_ops(features, ModuleKind::Component) + self.preload_ops(
                    features,
                    ModuleKind::Component,
                ),
                front,
            ),
    {
        let kind = ModuleKind::Component;
        let wasi = self.wasi_modules();
        let linker = seq![OpView::CreateLinker(kind)] + self.export_ops(kind) + seq![
            OpView::CreateStore,
        ];
        let common = self.wasi_common_ops(kind);
        let nn = self.wasi_nn_ops(features, kind);
        let threads = self.wasi_threads_ops(features, kind);
        let http = self.wasi_http_ops(features);
        let first = self.first_ops(features, kind);
        let ops = first + self.preload_ops(features, kind);
        let w = linker.len() as int;
        if self.allow_unknown_exports {
            assert(ops[1] is Fail);
        } else if wasi.wasi_common && (self.listenfd || self.tcplisten@.len() > 0) {
            assert(ops[w + 1] == common[1]);
        } else if wasi.wasi_nn && !features.wasi_nn {
            assert(ops[w + common.len()] == nn[0]);
        } else if wasi.wasi_threads {
            assert(ops[w + common.len() + nn.len()] == threads[0]);
        } else if wasi.wasi_http {
            assert(ops[w + common.len() + nn.len() + threads.len()] == http[0]);
        } else {
            assert(self.preload_ops(features, kind)[2] is Fail);
            assert(ops[first.len() as int + 2] is Fail);
        }
    }

    /// Sockets end a run in the second form of WASI.
    proof fn lemma_sockets_are_refused(&self, front: spec_fn(OpView) -> bool)
        requires
            self.listenfd || self.tcplisten@.len() > 0,
            forall|op: OpView| op is Fail ==> #[trigger] front(op),
        ensures
            some_has(self.preview2_ops(), front),
    {
        let ops = self.preview2_ops();
        assert(ops.last() is Fail);
        assert(front(ops[ops.len() - 1]));
    }

    /// What is refused before a component is reached is listed before it.
    proof fn lemma_refused_setup(&self, features: Features, front: spec_fn(OpView) -> bool)
        requires
            !self.coredump_pattern(),
            self.refused_before_component(features),
            forall|op: OpView| op is Fail ==> #[trigger] front(op),
            self.listenfd || self.tcplisten@.len() > 0 ==> front(OpView::Enter(Stage::Preview2)),
        ensures
            guarded(
                self.setup_ops(features, ModuleKind::Component),
                |op: OpView| runs_code_of(op, ModuleKind::Component),
                front,
            ),
    {
        let kind = ModuleKind::Component;
        let late = |op: OpView| runs_code_of(op, kind);
        let ops = self.setup_ops(features, kind);
        let first = self.first_ops(features, kind);
        let preloads = self.preload_ops(features, kind);
        self.lemma_first_runs_no_code(features, kind);
        self.lemma_refused_in_front(features, front);
        assert forall|p: int| 0 <= p < ops.len() && late(#[trigger] ops[p]) implies some_has(
            ops.take(p),
            front,
        ) by {
            if p < first.len() {
                assert(ops[p] == first[p]);
            } else if p < first.len() + preloads.len() {
                assert(ops[p] == preloads[p - first.len()]);
            }
            assert(ops.take(p) =~= first + preloads);
        }
    }

    /// A component is reached only if nothing is refused before.
    proof fn lemma_component_is_reached(&self, features: Features, run: Run, i: int)
        requires
            self.is_run(features, run),
            0 <= i < run.states.len(),
            runs_code_of(run.states[i].current, ModuleKind::Component),
        ensures
            !self.refused_before_component(features),
    {
        if self.refused_before_component(features) {
            let kind = ModuleKind::Component;
            let sockets = self.listenfd || self.tcplisten@.len() > 0;
            let late = |op: OpView| runs_code_of(op, kind);
            let early = |op: OpView| false;
            let front = |op: OpView|
                op is Fail || (sockets && op == OpView::Enter(Stage::Preview2));
            assert forall|current: OpView, event: EventView|
                !late(current) && !early(current) && !(current is Fail) implies ({
                let reaction = #[trigger] self.reaction(features, current, event);
                guarded(reaction, late, front) && (front(current) ==> some_has(reaction, front))
            }) by {
                self.lemma_code_follows_loading(features, current, event, kind);
                if !self.coredump_pattern() {
                    self.lemma_refused_setup(features, front);
                }
                if front(current) {
                    self.lemma_sockets_are_refused(front);
                }
            }
            self.lemma_before(features, run, late, early, front, i);
        }
    }

    /// A component is run only where the command asks for nothing that is
    /// refused to components; else the run ends before.
    pub proof fn law_components_run_without_what_is_refused(
        &self,
        features: Features,
        run: Run,
        i: int,
    )
        requires
            self.is_run(features, run),
            0 <= i < run.states.len(),
            run.states[i].current is InstantiateCommand || run.states[i].current is CallRun,
        ensures
            !self.refused_before_component(features),
            !self.refused_in_component(),
    {
        self.lemma_component_is_reached(features, run, i);
        if self.refused_in_component() {
            let kind = ModuleKind::Component;
            let late = |op: OpView| op is InstantiateCommand || op is CallRun;
            let early = |op: OpView| false;
            let front = |op: OpView| op is Fail || op == OpView::Enter(Stage::Main(kind));
            assert forall|current: OpView, event: EventView|
                !late(current) && !early(current) && !(current is Fail) implies ({
                let reaction = #[trigger] self.reaction(features, current, event);
                guarded(reaction, late, front) && (front(current) ==> some_has(reaction, front))
            }) by {
                let ops = self.reaction(features, current, event);
                self.lemma_reaction_originates(features, current, event);
                if current == OpView::Enter(Stage::Main(kind)) {
                    let imports = self.import_ops(kind);
                    let calls = self.call_ops(kind);
                    let refusal: int = if imports.len() > 0 {
                        0
                    } else {
                        imports.len() as int + 1
                    };
                    assert(imports.len() == 0 ==> ops[refusal] == calls[0]);
                    assert(imports.len() > 0 ==> ops[0] == imports[0]);
                    assert(ops[refusal] is Fail);
                    assert forall|p: int| 0 <= p < ops.len() && late(#[trigger] ops[p]) implies some_has(
                        ops.take(p),
                        front,
                    ) by {
                        if p < imports.len() {
                            assert(ops[p] == imports[p]);
                        } else if p > imports.len() {
                            assert(ops[p] == calls[p - imports.len() - 1]);
                        }
                        assert(ops.take(p)[refusal] is Fail);
                    }
                } else {
                    assert forall|p: int| 0 <= p < ops.len() implies !late(#[trigger] ops[p]) by {
                        assert(self.origin(features, current, event, ops[p]));
                    }
                }
            }
            self.lemma_before(features, run, late, early, front, i);
        }
    }
}

} // verus!
