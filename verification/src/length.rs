//! How long a run can be: every piece of work has a cost that covers what it
//! lists.

use crate::command::{Features, RunCommand};
use crate::error::Problem;
use crate::invoke::{arguments_warning, result_ops, results_warning};
use crate::plan::{
    all_permissions, failure_for, CauseView, EventView, Frame, ModuleKind, OpView, Stage, Target,
};
use crate::run::{all_have, remaining, Run};
use crate::wasi::{fd_of, first_free_fd};
use vstd::prelude::*;

verus! {

/// An event brings at most `n` sockets, and at most `n` results.
pub open spec fn small(event: EventView, n: nat) -> bool {
    match event {
        EventView::Count(count) => count <= n,
        EventView::Returned(values) => values.len() <= n,
        _ => true,
    }
}

impl RunCommand {
    /// What a context of the first form costs once the inherited sockets are
    /// known.
    pub open spec fn rest_cost(&self) -> nat {
        3 * self.tcplisten@.len() + 2 * self.preopen_dirs().len() + 1
    }

    /// What a context of WASI costs.
    pub open spec fn context_cost(&self, n: nat) -> nat {
        2 * self.vars@.len() + 3 * n + self.rest_cost() + 8
    }

    /// What is done between loading the main module and running it costs,
    /// and running it.
    pub open spec fn setup_cost(&self, n: nat) -> nat {
        self.context_cost(n) + 9 * self.preloads@.len() + n + 31
    }

    /// What a piece of work costs, with all that it lists, where events are
    /// small.
    pub open spec fn cost(&self, op: OpView, n: nat) -> nat {
        match op {
            OpView::Enter(stage) => match stage {
                Stage::Run => self.setup_cost(n) + 12,
                Stage::Preview1 => self.context_cost(n),
                Stage::Preview2 => self.context_cost(n),
                Stage::Main(_) => n + 20,
                Stage::EpochHandler => 5,
            },
            OpView::MapFile { target, .. } => match target {
                Target::Main => self.setup_cost(n) + 2,
                Target::Preload(_) => 3,
            },
            OpView::ReadFile { target, .. } => match target {
                Target::Main => self.setup_cost(n) + 1,
                Target::Preload(_) => 2,
            },
            OpView::LoadModule { target, .. } => match target {
                Target::Main => self.setup_cost(n),
                Target::Preload(_) => 1,
            },
            OpView::ReadVar(_) => 2,
            OpView::ForwardVar(_) => 2,
            OpView::OpenListenFds => 3 * n + self.rest_cost() + 1,
            OpView::TakeListener { index, count, .. } => self.rest_cost() + if index < count {
                3 * (count - index) as nat
            } else {
                0
            },
            OpView::InspectFunction => n + 10,
            OpView::CallFunction(_) => n + 8,
            OpView::CallRun => 8,
            OpView::CreateCoredump { .. } => 7,
            OpView::WriteCoredump { .. } => 6,
            OpView::WriteProfile(_) => 4,
            OpView::Fail(_) => 0,
            _ => 1,
        }
    }

    /// What a list of work costs.
    pub open spec fn total(&self, ops: Seq<OpView>, n: nat) -> nat
        decreases ops.len(),
    {
        if ops.len() == 0 {
            0
        } else {
            self.total(ops.drop_last(), n) + self.cost(ops.last(), n)
        }
    }

    /// Two lists cost what they cost together.
    proof fn lemma_total_joined(&self, first: Seq<OpView>, second: Seq<OpView>, n: nat)
        ensures
            self.total(first + second, n) == self.total(first, n) + self.total(second, n),
        decreases second.len(),
    {
        if second.len() == 0 {
            assert(first + second =~= first);
        } else {
            assert((first + second).drop_last() =~= first + second.drop_last());
            self.lemma_total_joined(first, second.drop_last(), n);
        }
    }

    /// A list costs at most as much as its length says, where no piece of it
    /// costs more than `each`.
    proof fn lemma_total_bounded(&self, ops: Seq<OpView>, n: nat, each: nat)
        requires
            forall|i: int| 0 <= i < ops.len() ==> self.cost(#[trigger] ops[i], n) <= each,
        ensures
            self.total(ops, n) <= each * ops.len(),
        decreases ops.len(),
    {
        if ops.len() > 0 {
            let front = ops.drop_last();
            assert forall|i: int| 0 <= i < front.len() implies self.cost(#[trigger] front[i], n)
                <= each by {
                assert(front[i] == ops[i]);
            }
            self.lemma_total_bounded(front, n, each);
            assert(self.cost(ops[ops.len() - 1], n) <= each);
            assert(each * front.len() + each == each * ops.len()) by (nonlinear_arith)
                requires
                    ops.len() == front.len() + 1,
            ;
        }
    }

    /// One piece of work costs what it costs.
    proof fn lemma_total_of_one(&self, op: OpView, n: nat)
        ensures
            self.total(seq![op], n) == self.cost(op, n),
            self.total(Seq::<OpView>::empty(), n) == 0,
    {
        assert(seq![op].drop_last() =~= Seq::<OpView>::empty());
        assert(self.total(Seq::<OpView>::empty(), n) == 0);
    }

    /// What is left of a context of the first form costs no more than it
    /// should, and neither do its parts.
    proof fn lemma_rest_cost(&self, num_fd: usize, n: nat)
        ensures
            self.total(self.preview1_rest(num_fd), n) <= self.rest_cost(),
            self.total(self.bind_ops(), n) <= 2 * self.tcplisten@.len(),
            self.total(self.dir_ops(Some(all_permissions())), n) <= 2 * self.preopen_dirs().len(),
    {
        let binds = self.bind_ops();
        let sockets = self.socket_ops(num_fd);
        let dirs = self.dir_ops(None);
        self.lemma_total_bounded(binds, n, 1);
        self.lemma_total_bounded(sockets, n, 1);
        self.lemma_total_bounded(dirs, n, 1);
        self.lemma_total_bounded(self.dir_ops(Some(all_permissions())), n, 1);
        self.lemma_total_joined(binds, sockets, n);
        self.lemma_total_joined(binds + sockets, dirs, n);
        self.lemma_total_joined(binds + sockets + dirs, seq![OpView::FinishPreview1], n);
        self.lemma_total_of_one(OpView::FinishPreview1, n);
    }

    /// A context of WASI costs no more than it should.
    proof fn lemma_context_cost(&self, features: Features, n: nat)
        ensures
            self.total(self.preview1_ops(features), n) < self.context_cost(n),
            self.total(self.preview2_ops(), n) < self.context_cost(n),
    {
        self.lemma_rest_cost(crate::wasi::FIRST_FD, n);
        match self.argv() {
            Err(e) => {
                self.lemma_total_of_one(failure_for(e), n);
            },
            Ok(args) => {
                let vars = self.var_ops();
                let first = seq![OpView::NewPreview1, OpView::SetArgs(args)];
                let second = seq![OpView::NewPreview2, OpView::SetArgs(args)];
                let inherited = seq![
                    OpView::ForwardVar("LISTEN_FDS"@),
                    OpView::ForwardVar("LISTEN_FDNAMES"@),
                ];
                let rest = self.preview1_rest(crate::wasi::FIRST_FD);
                self.lemma_total_bounded(vars, n, 2);
                self.lemma_total_bounded(first, n, 1);
                self.lemma_total_bounded(second, n, 1);
                self.lemma_total_bounded(inherited, n, 2);
                self.lemma_total_joined(first, vars, n);
                self.lemma_total_joined(second, vars, n);
                if self.listenfd && features.unix {
                    let opened = seq![OpView::OpenListenFds];
                    self.lemma_total_of_one(OpView::OpenListenFds, n);
                    self.lemma_total_joined(inherited, opened, n);
                    self.lemma_total_joined(first + vars, inherited + opened, n);
                    assert(self.preview1_ops(features) =~= first + vars + (inherited + opened));
                } else {
                    self.lemma_total_joined(first + vars, rest, n);
                }
                self.lemma_second_form_cost(second + vars, n);
            },
        }
    }

    /// What follows the variables in a context of the second form costs no
    /// more than what is left of one of the first.
    proof fn lemma_second_form_cost(&self, front: Seq<OpView>, n: nat)
        ensures
            self.total(
                front + (if self.listenfd {
                    seq![failure_for(Problem::ListenFdForComponent)]
                } else {
                    self.bind_ops() + (if self.tcplisten@.len() > 0 {
                        seq![failure_for(Problem::TcpListenForComponent)]
                    } else {
                        self.dir_ops(Some(all_permissions())) + seq![OpView::FinishPreview2]
                    })
                }),
                n,
            ) <= self.total(front, n) + self.rest_cost(),
    {
        let refused = seq![failure_for(Problem::ListenFdForComponent)];
        let unbound = seq![failure_for(Problem::TcpListenForComponent)];
        let finish = seq![OpView::FinishPreview2];
        let binds = self.bind_ops();
        let dirs = self.dir_ops(Some(all_permissions()));
        self.lemma_rest_cost(crate::wasi::FIRST_FD, n);
        self.lemma_total_of_one(failure_for(Problem::ListenFdForComponent), n);
        self.lemma_total_of_one(failure_for(Problem::TcpListenForComponent), n);
        self.lemma_total_of_one(OpView::FinishPreview2, n);
        self.lemma_total_joined(front, refused, n);
        self.lemma_total_joined(binds, unbound, n);
        self.lemma_total_joined(front, binds + unbound, n);
        self.lemma_total_joined(dirs, finish, n);
        self.lemma_total_joined(binds, dirs + finish, n);
        self.lemma_total_joined(front, binds + (dirs + finish), n);
    }

    /// What is done for WASI costs no more than it should.
    proof fn lemma_wasi_cost(&self, features: Features, kind: ModuleKind, n: nat)
        ensures
            self.total(self.wasi_ops(features, kind), n) <= self.context_cost(n) + 4,
    {
        let common = self.wasi_common_ops(kind);
        let nn = self.wasi_nn_ops(features, kind);
        let threads = self.wasi_threads_ops(features, kind);
        let http = self.wasi_http_ops(features);
        if common.len() > 0 {
            assert(common =~= seq![common[0]] + seq![common[1]]);
            self.lemma_total_of_one(common[0], n);
            self.lemma_total_of_one(common[1], n);
            self.lemma_total_joined(seq![common[0]], seq![common[1]], n);
        }
        self.lemma_total_bounded(nn, n, 1);
        self.lemma_total_bounded(threads, n, 1);
        self.lemma_total_bounded(http, n, 0);
        self.lemma_total_joined(common, nn, n);
        self.lemma_total_joined(common + nn, threads, n);
        self.lemma_total_joined(common + nn + threads, http, n);
    }

    /// What is done between loading the main module and running it costs no
    /// more than it should.
    proof fn lemma_setup_cost(&self, features: Features, kind: ModuleKind, n: nat)
        ensures
            self.total(self.setup_ops(features, kind), n) < self.setup_cost(n),
    {
        let linker = seq![OpView::CreateLinker(kind)] + self.export_ops(kind) + seq![
            OpView::CreateStore,
        ];
        let wasi = self.wasi_ops(features, kind);
        let limits = self.limit_ops();
        let keep = self.keep_ops(kind);
        let preloads = self.preload_ops(features, kind);
        let main = seq![OpView::Enter(Stage::Main(kind))];
        self.lemma_total_of_one(failure_for(Problem::CoredumpPattern), n);
        self.lemma_total_of_one(OpView::Enter(Stage::Main(kind)), n);
        self.lemma_total_bounded(linker, n, 1);
        self.lemma_wasi_cost(features, kind, n);
        self.lemma_limit_cost(n);
        self.lemma_total_bounded(keep, n, 1);
        self.lemma_total_bounded(preloads, n, 3);
        self.lemma_total_joined(linker, wasi, n);
        self.lemma_total_joined(linker + wasi, limits, n);
        self.lemma_total_joined(linker + wasi + limits, keep, n);
        self.lemma_total_joined(linker + wasi + limits + keep, preloads, n);
        self.lemma_total_joined(linker + wasi + limits + keep + preloads, main, n);
    }

    /// What limits the resources of the program costs no more than it should.
    proof fn lemma_limit_cost(&self, n: nat)
        ensures
            self.total(self.limit_ops(), n) <= 2,
    {
        self.lemma_total_bounded(self.limit_ops(), n, 1);
    }

    /// How a run ends after a call costs no more than it should.
    proof fn lemma_raised_cost(&self, contexts: Seq<Seq<char>>, n: nat)
        ensures
            self.total(self.finish_ops(), n) <= 4,
            self.total(self.raised_end(contexts), n) <= 4,
            forall|op: OpView|
                self.cost(op, n) == 1 ==> #[trigger] self.total(
                    seq![op] + self.raised_end(contexts),
                    n,
                ) <= 5,
    {
        let end = self.main_failure(CauseView::Outside, contexts);
        self.lemma_total_bounded(self.finish_ops(), n, 4);
        self.lemma_total_of_one(end, n);
        self.lemma_total_joined(self.finish_ops(), seq![end], n);
        assert forall|op: OpView| self.cost(op, n) == 1 implies #[trigger] self.total(
            seq![op] + self.raised_end(contexts),
            n,
        ) <= 5 by {
            self.lemma_total_of_one(op, n);
            self.lemma_total_joined(seq![op], self.raised_end(contexts), n);
        }
    }

    /// What is done after a function failed costs no more than it should.
    proof fn lemma_raised_ops_cost(
        &self,
        context: Seq<char>,
        trap: bool,
        backtrace: Option<Seq<Frame>>,
        n: nat,
    )
        ensures
            self.total(self.raised_ops(context, trap, backtrace), n) <= 7,
    {
        self.lemma_raised_cost(seq![context], n);
        let ops = self.raised_ops(context, trap, backtrace);
        if ops.len() == 1 && ops[0] is CreateCoredump {
            assert(ops =~= seq![ops[0]]);
            self.lemma_total_of_one(ops[0], n);
        } else if ops[0] is Say {
            assert(self.cost(ops[0], n) == 1);
        }
    }

    /// What is done after a call costs less than the call.
    proof fn lemma_call_cost(&self, features: Features, current: OpView, event: EventView, n: nat)
        requires
            small(event, n),
            match current {
                OpView::InspectFunction => true,
                OpView::CallFunction(_) => true,
                OpView::CallRun => true,
                _ => false,
            },
        ensures
            self.total(self.reaction(features, current, event), n) < self.cost(current, n),
    {
        let ops = self.reaction(features, current, event);
        self.lemma_raised_cost(Seq::empty(), n);
        match event {
            EventView::Raised { trap, backtrace } => {
                self.lemma_raised_ops_cost(self.invoke_context(), trap, backtrace, n);
                self.lemma_raised_ops_cost(
                    "failed to invoke `run` function"@,
                    trap,
                    backtrace,
                    n,
                );
                self.lemma_total_of_one(self.outside_failure(current), n);
            },
            EventView::Returned(values) if current is CallFunction => {
                let warning = if values.len() > 0 {
                    seq![OpView::Say(results_warning())]
                } else {
                    Seq::empty()
                };
                let results = result_ops(values);
                self.lemma_total_bounded(warning, n, 1);
                self.lemma_total_bounded(results, n, 1);
                self.lemma_total_joined(warning, results, n);
                self.lemma_total_joined(warning + results, self.finish_ops(), n);
            },
            EventView::Signature(params) if current is InspectFunction => {
                let warning = if params.len() > 0 {
                    seq![OpView::Say(arguments_warning())]
                } else {
                    Seq::empty()
                };
                self.lemma_total_bounded(warning, n, 1);
                match self.arguments(params) {
                    Ok(values) => {
                        let call = OpView::CallFunction(values);
                        self.lemma_total_of_one(call, n);
                        self.lemma_total_joined(warning, seq![call], n);
                    },
                    Err(e) => {
                        let end = self.main_failure(CauseView::Own(e), Seq::empty());
                        self.lemma_total_of_one(end, n);
                        self.lemma_total_joined(self.finish_ops(), seq![end], n);
                        self.lemma_total_joined(warning, self.finish_ops() + seq![end], n);
                    },
                }
            },
            EventView::Ran(_) if current is CallRun => {
                let end = self.main_failure(CauseView::Exit(1), Seq::empty());
                self.lemma_total_of_one(end, n);
                self.lemma_total_joined(self.finish_ops(), seq![end], n);
            },
            _ => {
                self.lemma_raised_ops_cost(self.invoke_context(), false, None, n);
                self.lemma_raised_ops_cost("failed to invoke `run` function"@, false, None, n);
                self.lemma_total_of_one(self.outside_failure(current), n);
            },
        }
    }

    /// The work of a stage costs less than the stage.
    proof fn lemma_stage_cost(&self, features: Features, stage: Stage, n: nat)
        ensures
            self.total(self.stage_ops(features, stage), n) < self.cost(OpView::Enter(stage), n),
    {
        match stage {
            Stage::Run => {
                let ops = self.engine_ops(features);
                let front = ops.drop_last();
                assert(front.len() <= 6);
                self.lemma_total_bounded(front, n, 1);
            },
            Stage::Preview1 => {
                self.lemma_context_cost(features, n);
            },
            Stage::Preview2 => {
                self.lemma_context_cost(features, n);
            },
            Stage::Main(kind) => {
                let imports = self.import_ops(kind);
                let epoch = seq![OpView::Enter(Stage::EpochHandler)];
                let calls = self.call_ops(kind);
                self.lemma_total_bounded(imports, n, 1);
                self.lemma_total_of_one(OpView::Enter(Stage::EpochHandler), n);
                self.lemma_total_joined(imports, epoch, n);
                self.lemma_total_bounded(calls.drop_last(), n, 1);
                self.lemma_total_joined(imports + epoch, calls, n);
            },
            Stage::EpochHandler => {
                self.lemma_total_bounded(self.epoch_ops(), n, 1);
            },
        }
    }

    /// What is done with inherited sockets costs no more than it should.
    proof fn lemma_listener_cost(
        &self,
        features: Features,
        current: OpView,
        event: EventView,
        n: nat,
    )
        requires
            small(event, n),
            current is OpenListenFds || (current matches OpView::TakeListener { index, count, .. }
                && index < count),
        ensures
            self.total(self.reaction(features, current, event), n) < self.cost(current, n),
    {
        self.lemma_total_of_one(self.outside_failure(current), n);
        match (current, event) {
            (OpView::OpenListenFds, EventView::Count(count)) => {
                self.lemma_listed_cost(count, 0, None, n);
            },
            (OpView::TakeListener { index, count, last }, EventView::Taken(taken)) => {
                let next = (index + 1) as usize;
                let handed = seq![
                    OpView::UnblockListener,
                    OpView::PreopenListener(fd_of(crate::wasi::FIRST_FD + index)),
                ];
                self.lemma_listed_cost(count, next, last, n);
                self.lemma_listed_cost(count, next, Some(index), n);
                self.lemma_total_bounded(handed, n, 1);
                self.lemma_total_joined(
                    handed,
                    self.listener_ops(count, next, Some(index)),
                    n,
                );
            },
            _ => {},
        }
    }

    /// What is listed for the inherited sockets from some position on.
    proof fn lemma_listed_cost(&self, count: usize, index: usize, last: Option<usize>, n: nat)
        ensures
            self.total(self.listener_ops(count, index, last), n) <= self.rest_cost() + (
            if index < count {
                3 * (count - index)
            } else {
                0
            }),
    {
        self.lemma_rest_cost(first_free_fd(last), n);
        self.lemma_total_of_one(OpView::TakeListener { index, count, last }, n);
    }

    /// What is done after a piece of work costs less than the work.
    proof fn lemma_reaction_cost(
        &self,
        features: Features,
        current: OpView,
        event: EventView,
        n: nat,
    )
        requires
            small(event, n),
            !(current is Fail),
            current matches OpView::TakeListener { index, count, .. } ==> index < count,
        ensures
            self.total(self.reaction(features, current, event), n) < self.cost(current, n),
    {
        let ops = self.reaction(features, current, event);
        match current {
            OpView::Enter(stage) => {
                self.lemma_stage_cost(features, stage, n);
            },
            OpView::LoadModule { target, kind, .. } => {
                self.lemma_setup_cost(features, kind, n);
                self.lemma_total_of_one(failure_for(Problem::PreloadedComponent), n);
                self.lemma_total_of_one(self.outside_failure(current), n);
            },
            OpView::OpenListenFds => {
                self.lemma_listener_cost(features, current, event, n);
            },
            OpView::TakeListener { .. } => {
                self.lemma_listener_cost(features, current, event, n);
            },
            OpView::InspectFunction => {
                self.lemma_call_cost(features, current, event, n);
            },
            OpView::CallFunction(_) => {
                self.lemma_call_cost(features, current, event, n);
            },
            OpView::CallRun => {
                self.lemma_call_cost(features, current, event, n);
            },
            OpView::CreateCoredump { path, bytes, context } => {
                self.lemma_raised_cost(seq![context], n);
                self.lemma_total_of_one(OpView::WriteCoredump { path, bytes, context }, n);
                assert(event is Done || self.cost(ops[0], n) == 1);
            },
            OpView::WriteCoredump { path, context, .. } => {
                self.lemma_raised_cost(seq![context], n);
                self.lemma_raised_cost(seq![context, "core dumped at "@ + path], n);
                assert(event is Done || self.cost(ops[0], n) == 1);
            },
            OpView::WriteProfile(_) => {
                self.lemma_total_bounded(ops, n, 1);
            },
            _ => {
                assert(ops.len() <= 1);
                self.lemma_total_of_one(ops[0], n);
                if ops.len() == 1 {
                    assert(ops =~= seq![ops[0]]);
                } else {
                    assert(ops =~= Seq::<OpView>::empty());
                }
            },
        }
    }

    /// A run in which no event brings more than `n` sockets or results comes
    /// to an end: it has at most as many states as its start costs.
    pub proof fn law_runs_end(&self, features: Features, run: Run, n: nat)
        requires
            self.is_run(features, run),
            forall|i: int| 0 <= i < run.events.len() ==> small(#[trigger] run.events[i], n),
        ensures
            run.states.len() <= self.cost(OpView::Enter(Stage::Run), n),
    {
        self.lemma_cost_is_left(features, run, n, run.events.len() as int);
        self.lemma_current_goes_on(features, run, run.events.len() as int);
        let last = run.states[run.events.len() as int];
        self.lemma_total_joined(seq![last.current], last.pending, n);
        self.lemma_total_of_one(last.current, n);
        self.lemma_costs_something(last.current, n);
    }

    /// Work that does not end the run costs something.
    proof fn lemma_costs_something(&self, op: OpView, n: nat)
        requires
            !(op is Fail),
        ensures
            self.cost(op, n) >= 1,
    {
    }

    /// Every step makes what is left cheaper.
    proof fn lemma_cost_is_left(&self, features: Features, run: Run, n: nat, i: int)
        requires
            self.is_run(features, run),
            0 <= i < run.states.len(),
            forall|j: int| 0 <= j < run.events.len() ==> small(#[trigger] run.events[j], n),
        ensures
            i + self.total(remaining(run.states[i]), n) <= self.cost(OpView::Enter(Stage::Run), n),
        decreases i,
    {
        if i == 0 {
            assert(remaining(run.states[0]) =~= seq![OpView::Enter(Stage::Run)]);
            self.lemma_total_of_one(OpView::Enter(Stage::Run), n);
        } else {
            let s = run.states[i - 1];
            let e = run.events[i - 1];
            let counted = |op: OpView|
                (op matches OpView::TakeListener { index, count, .. } ==> index < count);
            self.lemma_cost_is_left(features, run, n, i - 1);
            self.lemma_step(features, run, i - 1);
            self.lemma_current_goes_on(features, run, i - 1);
            assert forall|current: OpView, event: EventView|
                counted(current) && !(current is Fail) implies all_have(
                #[trigger] self.reaction(features, current, event),
                counted,
            ) by {
                let ops = self.reaction(features, current, event);
                self.lemma_reaction_originates(features, current, event);
                assert forall|p: int| 0 <= p < ops.len() implies counted(#[trigger] ops[p]) by {
                    assert(self.origin(features, current, event, ops[p]));
                }
            }
            self.lemma_everywhere(features, run, counted, i - 1);
            assert(small(e, n));
            self.lemma_reaction_cost(features, s.current, e, n);
            self.lemma_total_joined(seq![s.current], s.pending, n);
            self.lemma_total_of_one(s.current, n);
            self.lemma_total_joined(self.reaction(features, s.current, e), s.pending, n);
        }
    }
}

} // verus!
