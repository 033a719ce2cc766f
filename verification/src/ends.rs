//! How runs end: what a success means, what is done before an end, and which
//! failures are failures of the program.

use crate::command::{Features, RunCommand};
use crate::error::ReasonView;
use crate::execute::{advance, is_main_work, ProgressView, StepView};
use crate::parse::Profile;
use crate::plan::{
    failure_for, CauseView, EventView, FailureView, Frame, Location, ModuleKind, OpView,
    SourceView, Stage, Target,
};
use crate::run::{all_have, lemma_all_have_joined, remaining, some_has, Run};
use vstd::prelude::*;

verus! {

/// The program ended well: its function returned, or so it said itself.
pub open spec fn ended_well(op: OpView, event: EventView) -> bool {
    ||| op is CallFunction && event is Returned
    ||| op is CallRun && event == EventView::Ran(true)
}

/// Work that lists nothing: printing.
pub open spec fn prints(op: OpView) -> bool {
    op is Say || op is PrintResult || op is PrintText
}

/// Work after which the profile is written: that, or the core dump before it.
spec fn leads_to_profile(op: OpView, path: Seq<char>) -> bool {
    match op {
        OpView::WriteProfile(written) => written == path,
        OpView::CreateCoredump { .. } => true,
        OpView::WriteCoredump { .. } => true,
        _ => false,
    }
}

/// In a list, the first work that does not print leads to the profile.
spec fn profile_comes_first(ops: Seq<OpView>, path: Seq<char>) -> bool {
    exists|q: int|
        {
            &&& 0 <= q < ops.len()
            &&& leads_to_profile(#[trigger] ops[q], path)
            &&& forall|r: int| 0 <= r < q ==> prints(#[trigger] ops[r])
        }
}

/// Work behind such a list changes nothing.
proof fn lemma_profile_first_extended(ops: Seq<OpView>, rest: Seq<OpView>, path: Seq<char>)
    requires
        profile_comes_first(ops, path),
    ensures
        profile_comes_first(ops + rest, path),
        advance(ops + rest) is Perform,
{
    let q = choose|q: int|
        {
            &&& 0 <= q < ops.len()
            &&& leads_to_profile(#[trigger] ops[q], path)
            &&& forall|r: int| 0 <= r < q ==> prints(#[trigger] ops[r])
        };
    let all = ops + rest;
    assert(all[q] == ops[q]);
    assert forall|r: int| 0 <= r < q implies prints(#[trigger] all[r]) by {
        assert(all[r] == ops[r]);
    }
    if q > 0 {
        assert(prints(all[0]));
    }
}

impl RunCommand {
    /// What the command does not allow ends the run at once, with the reason
    /// and nothing else, whatever else is pending.
    pub proof fn law_refused_contents_end_the_run(
        &self,
        features: Features,
        progress: ProgressView,
        detected: Option<ModuleKind>,
        bytes: Seq<u8>,
        reason: ReasonView,
    )
        requires
            match progress.current {
                OpView::MapFile { target, location } => self.contents_of(
                    features,
                    detected,
                    self.path_of(target, location),
                    bytes,
                    true,
                ) == Err::<(ModuleKind, SourceView), ReasonView>(reason),
                OpView::ReadFile { target, location } => self.contents_of(
                    features,
                    detected,
                    self.path_of(target, location),
                    bytes,
                    false,
                ) == Err::<(ModuleKind, SourceView), ReasonView>(reason),
                _ => false,
            },
        ensures
            self.next_step(features, progress, EventView::Contents { detected, bytes })
                == StepView::Finished(
                Err(
                    FailureView {
                        cause: CauseView::Own(reason),
                        contexts: Seq::empty(),
                        in_main: false,
                    },
                ),
            ),
    {
        let event = EventView::Contents { detected, bytes };
        let ops = self.reaction(features, progress.current, event) + progress.pending;
        assert(ops[0] == failure_for(reason));
    }

    /// Work whose failure the command does not handle otherwise: it is done
    /// or ends the run.
    pub open spec fn must_succeed(op: OpView) -> bool {
        match op {
            OpView::Enter(_) => false,
            OpView::MapFile { .. } => false,
            OpView::ReadVar(_) => false,
            OpView::ForwardVar(_) => false,
            OpView::LookupExport(_) => false,
            OpView::CallFunction(_) => false,
            OpView::CallRun => false,
            OpView::CreateCoredump { .. } => false,
            OpView::WriteCoredump { .. } => false,
            OpView::WriteProfile(_) => false,
            OpView::PrintResult(_) => false,
            OpView::PrintText(_) => false,
            OpView::Say(_) => false,
            OpView::Fail(_) => false,
            _ => true,
        }
    }

    /// Outside work that fails ends the run at once, with the error of the
    /// work and its contexts.
    pub proof fn law_failed_work_ends_the_run(
        &self,
        features: Features,
        progress: ProgressView,
        text: Seq<char>,
    )
        requires
            Self::must_succeed(progress.current),
        ensures
            self.next_step(features, progress, EventView::Failed(text)) == StepView::Finished(
                Err(
                    FailureView {
                        cause: CauseView::Outside,
                        contexts: if is_main_work(progress.current) {
                            self.contexts_of(progress.current).push(self.main_context())
                        } else {
                            self.contexts_of(progress.current)
                        },
                        in_main: is_main_work(progress.current),
                    },
                ),
            ),
    {
        let event = EventView::Failed(text);
        let ops = self.reaction(features, progress.current, event) + progress.pending;
        assert(ops[0] == self.outside_failure(progress.current));
    }

    /// A file that cannot be mapped is read, with everything else still
    /// pending. One that cannot be read either ends the run, with the error
    /// of reading it in a context that names its path.
    pub proof fn law_unreadable_file_ends_the_run(
        &self,
        features: Features,
        target: Target,
        location: Location,
        pending: Seq<OpView>,
        mapping: Seq<char>,
        reading: Seq<char>,
    )
        ensures
            ({
                let mapped = ProgressView {
                    current: OpView::MapFile { target, location },
                    pending,
                };
                let read = ProgressView {
                    current: OpView::ReadFile { target, location },
                    pending,
                };
                let path = self.path_of(target, location);
                &&& self.next_step(features, mapped, EventView::Failed(mapping))
                    == StepView::Perform(read)
                &&& self.next_step(features, read, EventView::Failed(reading))
                    == StepView::Finished(
                    Err(
                        FailureView {
                            cause: CauseView::Outside,
                            contexts: seq!["failed to read file: "@ + path.lossy],
                            in_main: false,
                        },
                    ),
                )
            }),
    {
        let mapped = ProgressView { current: OpView::MapFile { target, location }, pending };
        let read = ProgressView { current: OpView::ReadFile { target, location }, pending };
        let ops = self.reaction(features, mapped.current, EventView::Failed(mapping)) + pending;
        assert(ops[0] == read.current);
        assert(ops.skip(1) =~= pending);
        self.law_failed_work_ends_the_run(features, read, reading);
    }

    /// Work that leads to the program, or ends the run.
    spec fn leads_to_program(op: OpView) -> bool {
        match op {
            OpView::Enter(Stage::Run) => true,
            OpView::MapFile { target, .. } => target == Target::Main,
            OpView::ReadFile { target, .. } => target == Target::Main,
            OpView::LoadModule { target, .. } => target == Target::Main,
            OpView::Enter(Stage::Main(_)) => true,
            OpView::InspectFunction => true,
            OpView::CallFunction(_) => true,
            OpView::CallRun => true,
            OpView::CreateCoredump { .. } => true,
            OpView::WriteCoredump { .. } => true,
            OpView::Fail(_) => true,
            _ => false,
        }
    }

    /// What is done after a function failed ends the run, if not at once.
    proof fn lemma_raised_leads_on(
        &self,
        context: Seq<char>,
        trap: bool,
        backtrace: Option<Seq<Frame>>,
    )
        ensures
            self.raised_ops(context, trap, backtrace).len() > 0,
            Self::leads_to_program(self.raised_ops(context, trap, backtrace).last()),
    {
    }

    /// After a call, and after the work on its core dump, the run ends unless
    /// the program ended well.
    proof fn lemma_call_leads_on(&self, features: Features, current: OpView, event: EventView)
        requires
            match current {
                OpView::InspectFunction => true,
                OpView::CallFunction(_) => true,
                OpView::CallRun => true,
                OpView::CreateCoredump { .. } => true,
                OpView::WriteCoredump { .. } => true,
                _ => false,
            },
            !ended_well(current, event),
        ensures
            self.reaction(features, current, event).len() > 0,
            Self::leads_to_program(self.reaction(features, current, event).last()),
    {
        let run = "failed to invoke `run` function"@;
        self.lemma_raised_leads_on(self.invoke_context(), false, None);
        self.lemma_raised_leads_on(run, false, None);
        if let EventView::Raised { trap, backtrace } = event {
            self.lemma_raised_leads_on(self.invoke_context(), trap, backtrace);
            self.lemma_raised_leads_on(run, trap, backtrace);
        }
    }

    /// What is done once the main module is ready leads to it, or ends the
    /// run.
    proof fn lemma_setup_leads_on(&self, features: Features, kind: ModuleKind)
        ensures
            self.setup_ops(features, kind).len() > 0,
            Self::leads_to_program(self.setup_ops(features, kind).last()),
    {
    }

    /// What leads to the program is followed by more of the kind, until the
    /// program ended well.
    proof fn lemma_leads_on(&self, features: Features, current: OpView, event: EventView)
        requires
            Self::leads_to_program(current),
            !(current is Fail),
            !ended_well(current, event),
        ensures
            some_has(
                self.reaction(features, current, event),
                |op: OpView| Self::leads_to_program(op),
            ),
    {
        let ops = self.reaction(features, current, event);
        match current {
            OpView::Enter(Stage::Main(kind)) => {
                assert(ops.last() == self.call_ops(kind).last());
            },
            OpView::Enter(_) => {
                assert(ops.last() is MapFile);
            },
            OpView::LoadModule { kind, .. } => {
                self.lemma_setup_leads_on(features, kind);
            },
            OpView::MapFile { .. } => {
                assert(ops.len() == 1);
            },
            OpView::ReadFile { .. } => {
                assert(ops.len() == 1);
            },
            _ => {
                self.lemma_call_leads_on(features, current, event);
            },
        }
        assert(Self::leads_to_program(ops.last()));
        assert(ops[ops.len() - 1] == ops.last());
    }

    /// A run succeeds only if the function that the command asks for was
    /// called and returned, or the program of the component was run and ended
    /// well.
    pub proof fn law_success_means_that_the_program_ran(
        &self,
        features: Features,
        run: Run,
        event: EventView,
    )
        requires
            self.is_run(features, run),
            self.can_go_on(run.states.last().current, event),
            self.next_step(features, run.states.last(), event) == StepView::Finished(Ok(())),
        ensures
            exists|j: int|
                0 <= j < run.states.len() && ended_well(
                    (#[trigger] run.states[j]).current,
                    run.events.push(event)[j],
                ),
    {
        let promise = |op: OpView| Self::leads_to_program(op);
        let kept = |op: OpView, e: EventView| ended_well(op, e);
        let n = run.states.len() - 1;
        let s = run.states[n];
        assert forall|current: OpView, e: EventView|
            promise(current) && !(current is Fail) && !kept(current, e) implies some_has(
            #[trigger] self.reaction(features, current, e),
            promise,
        ) by {
            self.lemma_leads_on(features, current, e);
        }
        self.lemma_promised(features, run, promise, kept, n);
        self.lemma_current_goes_on(features, run, n);
        let reaction = self.reaction(features, s.current, event);
        assert((reaction + s.pending).len() == 0);
        if some_has(remaining(s), promise) {
            let q = choose|q: int|
                0 <= q < remaining(s).len() && promise(#[trigger] remaining(s)[q]);
            assert(q == 0);
            if !kept(s.current, event) {
                assert(some_has(reaction, promise));
            }
            assert(ended_well(run.states[n].current, run.events.push(event)[n]));
        } else {
            let j = choose|j: int|
                0 <= j < n && kept((#[trigger] run.states[j]).current, run.events[j]);
            assert(ended_well(run.states[j].current, run.events.push(event)[j]));
        }
    }

    /// After a call, and after the work on its core dump, the profile is
    /// written.
    proof fn lemma_profile_follows(
        &self,
        features: Features,
        current: OpView,
        event: EventView,
        path: Seq<char>,
    )
        requires
            self.finish_ops() == seq![OpView::WriteProfile(path)],
            match current {
                OpView::CallFunction(_) => true,
                OpView::CallRun => true,
                OpView::CreateCoredump { .. } => true,
                OpView::WriteCoredump { .. } => true,
                _ => false,
            },
        ensures
            profile_comes_first(self.reaction(features, current, event), path),
    {
        let ops = self.reaction(features, current, event);
        if current is CallFunction && event is Returned {
            let values = event->Returned_0;
            let n = if values.len() > 0 {
                values.len() as int + 1
            } else {
                0
            };
            assert(ops[n] == OpView::WriteProfile(path));
            assert forall|r: int| 0 <= r < n implies prints(#[trigger] ops[r]) by {
                if r > 0 {
                    assert(ops[r] == crate::invoke::result_op(values[r - 1]));
                }
            }
        } else if leads_to_profile(ops[0], path) {
        } else {
            assert(prints(ops[0]));
            assert(leads_to_profile(ops[1], path));
        }
    }

    /// From a call on, the profile was written or comes first.
    proof fn lemma_profile_is_pending(
        &self,
        features: Features,
        run: Run,
        j: int,
        i: int,
        path: Seq<char>,
    )
        requires
            self.is_run(features, run),
            0 <= j < i < run.states.len(),
            run.states[j].current is CallFunction || run.states[j].current is CallRun,
            self.finish_ops() == seq![OpView::WriteProfile(path)],
        ensures
            profile_comes_first(remaining(run.states[i]), path) || exists|k: int|
                j < k < i && (#[trigger] run.states[k]).current == OpView::WriteProfile(path),
        decreases i,
    {
        let s = run.states[i - 1];
        let e = run.events[i - 1];
        let reaction = self.reaction(features, s.current, e);
        self.lemma_step(features, run, i - 1);
        if i == j + 1 {
            self.lemma_profile_follows(features, s.current, e, path);
            lemma_profile_first_extended(reaction, s.pending, path);
        } else {
            self.lemma_profile_is_pending(features, run, j, i - 1, path);
            if s.current == OpView::WriteProfile(path) {
                assert(run.states[i - 1].current == OpView::WriteProfile(path));
            } else if profile_comes_first(remaining(s), path) {
                self.lemma_profile_stays_first(features, run, i - 1, path);
                assert(profile_comes_first(reaction + s.pending, path));
            } else {
                let k = choose|k: int|
                    j < k < i - 1 && (#[trigger] run.states[k]).current == OpView::WriteProfile(
                        path,
                    );
                assert(j < k < i && run.states[k].current == OpView::WriteProfile(path));
            }
        }
    }

    /// Where the profile comes first it does so after the next step, or is
    /// written in it.
    proof fn lemma_profile_stays_first(&self, features: Features, run: Run, i: int, path: Seq<char>)
        requires
            self.finish_ops() == seq![OpView::WriteProfile(path)],
            profile_comes_first(remaining(run.states[i]), path),
            run.states[i].current != OpView::WriteProfile(path),
            0 <= i < run.states.len(),
        ensures
            forall|event: EventView|
                #![trigger self.reaction(features, run.states[i].current, event)]
                profile_comes_first(
                    self.reaction(features, run.states[i].current, event) + run.states[i].pending,
                    path,
                ),
    {
        let s = run.states[i];
        let list = remaining(s);
        let q = choose|q: int|
            {
                &&& 0 <= q < list.len()
                &&& leads_to_profile(#[trigger] list[q], path)
                &&& forall|r: int| 0 <= r < q ==> prints(#[trigger] list[r])
            };
        assert forall|event: EventView|
            #![trigger self.reaction(features, s.current, event)]
            profile_comes_first(self.reaction(features, s.current, event) + s.pending, path) by {
            let reaction = self.reaction(features, s.current, event);
            if q == 0 {
                self.lemma_profile_follows(features, s.current, event, path);
                lemma_profile_first_extended(reaction, s.pending, path);
            } else {
                assert(prints(list[0]));
                assert(reaction + s.pending =~= s.pending);
                assert(s.pending[q - 1] == list[q]);
                assert forall|r: int| 0 <= r < q - 1 implies prints(#[trigger] s.pending[r]) by {
                    assert(s.pending[r] == list[r + 1]);
                }
            }
        }
    }

    /// Once the program was called, the profile that the command asks for is
    /// written before the run ends, whatever came of the call.
    pub proof fn law_profile_is_written(
        &self,
        features: Features,
        run: Run,
        event: EventView,
        j: int,
        path: Seq<char>,
    )
        requires
            self.is_run(features, run),
            self.can_go_on(run.states.last().current, event),
            self.next_step(features, run.states.last(), event) is Finished,
            0 <= j < run.states.len(),
            run.states[j].current is CallFunction || run.states[j].current is CallRun,
            self.profile matches Some(Profile::Guest { path: given, .. }) && given@ == path,
        ensures
            exists|k: int|
                j < k < run.states.len() && (#[trigger] run.states[k]).current
                    == OpView::WriteProfile(path),
    {
        let n = run.states.len() - 1;
        let s = run.states[n];
        let reaction = self.reaction(features, s.current, event);
        assert(self.finish_ops() =~= seq![OpView::WriteProfile(path)]);
        if j == n {
            self.lemma_profile_follows(features, s.current, event, path);
            lemma_profile_first_extended(reaction, s.pending, path);
        } else {
            self.lemma_profile_is_pending(features, run, j, n, path);
            if profile_comes_first(remaining(s), path) && s.current != OpView::WriteProfile(path) {
                self.lemma_profile_stays_first(features, run, n, path);
                let next = reaction + s.pending;
                lemma_profile_first_extended(next, Seq::empty(), path);
                assert(next + Seq::<OpView>::empty() =~= next);
            }
        }
    }

    /// Work on the main module, or its end.
    spec fn in_main(&self, op: OpView) -> bool {
        match op {
            OpView::Enter(Stage::Main(_)) => false,
            OpView::Fail(failure) => failure.in_main && failure.contexts.len() > 0
                && failure.contexts.last() == self.main_context(),
            _ => is_main_work(op),
        }
    }

    /// Work before the main module is reached, or an end there.
    spec fn before_main(&self, op: OpView) -> bool {
        match op {
            OpView::Enter(Stage::Main(_)) => true,
            OpView::Fail(failure) => !failure.in_main,
            _ => !is_main_work(op),
        }
    }

    /// Work that leads to the main module. It is never followed by other
    /// work.
    spec fn leads_to_main(op: OpView) -> bool {
        match op {
            OpView::Enter(Stage::Run) => true,
            OpView::MapFile { target, .. } => target == Target::Main,
            OpView::ReadFile { target, .. } => target == Target::Main,
            OpView::LoadModule { target, .. } => target == Target::Main,
            OpView::Enter(Stage::Main(_)) => true,
            _ => false,
        }
    }

    /// In a list, only the last piece of work leads to the main module.
    spec fn leads_last(ops: Seq<OpView>) -> bool {
        forall|p: int| 0 <= p < ops.len() - 1 ==> !Self::leads_to_main(#[trigger] ops[p])
    }

    /// Work on the main module is followed by such work only.
    proof fn lemma_main_stays(&self, features: Features, current: OpView, event: EventView)
        requires
            is_main_work(current),
        ensures
            all_have(self.reaction(features, current, event), |op: OpView| self.in_main(op)),
    {
        self.lemma_reaction_originates(features, current, event);
        let ops = self.reaction(features, current, event);
        assert forall|p: int| 0 <= p < ops.len() implies self.in_main(#[trigger] ops[p]) by {
            assert(self.origin(features, current, event, ops[p]));
            self.lemma_listed_in_main(features, current, event, ops[p]);
        }
    }

    /// What may be listed after work on the main module is such work.
    proof fn lemma_listed_in_main(
        &self,
        features: Features,
        current: OpView,
        event: EventView,
        op: OpView,
    )
        requires
            is_main_work(current),
            self.origin(features, current, event, op),
        ensures
            self.in_main(op),
    {
    }

    /// Between loading the main module and running it, only the last piece
    /// of work leads to it.
    proof fn lemma_setup_leads_last(&self, features: Features, current: OpView, event: EventView)
        requires
            current matches OpView::LoadModule { target: Target::Main, .. } && event is Done,
        ensures
            Self::leads_last(self.reaction(features, current, event)),
    {
        let kind = current->LoadModule_kind;
        let ops = self.reaction(features, current, event);
        let first = self.first_ops(features, kind);
        let preloads = self.preload_ops(features, kind);
        self.lemma_reaction_originates(features, current, event);
        self.lemma_first_runs_no_code(features, kind);
        assert forall|p: int| 0 <= p < ops.len() - 1 implies !Self::leads_to_main(
            #[trigger] ops[p],
        ) by {
            assert(self.origin(features, current, event, ops[p]));
            if p < first.len() {
                assert(ops[p] == first[p]);
            } else {
                assert(ops[p] == preloads[p - first.len()]);
            }
        }
    }

    /// What is listed before the main module leads to it only with its last
    /// piece.
    proof fn lemma_leads_last(&self, features: Features, current: OpView, event: EventView)
        requires
            Self::leads_to_main(current),
            !(current matches OpView::Enter(Stage::Main(_))),
        ensures
            Self::leads_last(self.reaction(features, current, event)),
    {
        let ops = self.reaction(features, current, event);
        match current {
            OpView::LoadModule { .. } => {
                if event is Done {
                    self.lemma_setup_leads_last(features, current, event);
                }
            },
            OpView::Enter(_) => {
                assert(Self::leads_last(self.engine_ops(features)));
            },
            _ => {
                assert(ops.len() == 1);
            },
        }
    }

    /// Work before the main module is followed by such work only, of which
    /// the last piece may lead to it if the work itself does.
    proof fn lemma_before_main_stays(&self, features: Features, current: OpView, event: EventView)
        requires
            self.before_main(current),
            !(current is Fail),
            !(current matches OpView::Enter(Stage::Main(_))),
        ensures
            all_have(self.reaction(features, current, event), |op: OpView| self.before_main(op)),
            Self::leads_last(self.reaction(features, current, event)),
            !Self::leads_to_main(current) ==> all_have(
                self.reaction(features, current, event),
                |op: OpView| !Self::leads_to_main(op),
            ),
    {
        let ops = self.reaction(features, current, event);
        self.lemma_reaction_originates(features, current, event);
        assert forall|p: int| 0 <= p < ops.len() implies self.before_main(#[trigger] ops[p]) && (
        !Self::leads_to_main(current) ==> !Self::leads_to_main(ops[p])) by {
            assert(self.origin(features, current, event, ops[p]));
            self.lemma_listed_before_main(features, current, event, ops[p]);
        }
        if Self::leads_to_main(current) {
            self.lemma_leads_last(features, current, event);
        }
    }

    /// What may be listed after work before the main module is such work.
    proof fn lemma_listed_before_main(
        &self,
        features: Features,
        current: OpView,
        event: EventView,
        op: OpView,
    )
        requires
            self.before_main(current),
            !(current is Fail),
            !(current matches OpView::Enter(Stage::Main(_))),
            self.origin(features, current, event, op),
        ensures
            self.before_main(op),
            !Self::leads_to_main(current) ==> !Self::leads_to_main(op),
    {
    }

    /// Until the main module is reached, all work is work before it, and
    /// only the last piece leads to it; from then on all is work on it.
    proof fn lemma_phases(&self, features: Features, run: Run, i: int)
        requires
            self.is_run(features, run),
            0 <= i < run.states.len(),
        ensures
            if reaches_main(run, i) {
                all_have(remaining(run.states[i]), |op: OpView| self.in_main(op))
            } else {
                &&& all_have(remaining(run.states[i]), |op: OpView| self.before_main(op))
                &&& Self::leads_last(remaining(run.states[i]))
            },
        decreases i,
    {
        if i == 0 {
            assert(remaining(run.states[0]) =~= seq![OpView::Enter(Stage::Run)]);
        } else {
            let s = run.states[i - 1];
            let e = run.events[i - 1];
            let reaction = self.reaction(features, s.current, e);
            self.lemma_phases(features, run, i - 1);
            self.lemma_step(features, run, i - 1);
            self.lemma_current_goes_on(features, run, i - 1);
            assert(remaining(s)[0] == s.current);
            lemma_reaches_main_next(run, i - 1);
            if reaches_main(run, i - 1) {
                let property = |op: OpView| self.in_main(op);
                self.lemma_main_stays(features, s.current, e);
                lemma_pending_has(s, property);
                lemma_all_have_joined(reaction, s.pending, property);
            } else if s.current matches OpView::Enter(Stage::Main(_)) {
                assert(s.pending.len() == 0) by {
                    if s.pending.len() > 0 {
                        assert(!Self::leads_to_main(remaining(s)[0]));
                    }
                }
                self.lemma_main_stays(features, s.current, e);
                assert(reaction + s.pending =~= reaction);
            } else {
                let property = |op: OpView| self.before_main(op);
                self.lemma_before_main_stays(features, s.current, e);
                lemma_pending_has(s, property);
                lemma_all_have_joined(reaction, s.pending, property);
                let list = reaction + s.pending;
                assert forall|p: int| 0 <= p < list.len() - 1 implies !Self::leads_to_main(
                    #[trigger] list[p],
                ) by {
                    if s.pending.len() > 0 {
                        assert(!Self::leads_to_main(remaining(s)[0]));
                        if p < reaction.len() {
                            assert(list[p] == reaction[p]);
                        } else {
                            assert(list[p] == remaining(s)[p - reaction.len() + 1]);
                        }
                    } else {
                        assert(list[p] == reaction[p]);
                    }
                }
            }
        }
    }

    /// Failures are failures of the program exactly from the point on where
    /// the main module is reached, and they then name it outermost.
    pub proof fn law_failures_of_main_name_it(
        &self,
        features: Features,
        run: Run,
        event: EventView,
        failure: FailureView,
    )
        requires
            self.is_run(features, run),
            self.can_go_on(run.states.last().current, event),
            self.next_step(features, run.states.last(), event) == StepView::Finished(Err(failure)),
        ensures
            failure.in_main == reaches_main(run, run.states.len() as int),
            failure.in_main ==> failure.contexts.len() > 0 && failure.contexts.last()
                == self.main_context(),
    {
        let n = run.states.len() - 1;
        let s = run.states[n];
        let reaction = self.reaction(features, s.current, event);
        let list = reaction + s.pending;
        assert(list[0] == OpView::Fail(failure));
        self.lemma_phases(features, run, n);
        self.lemma_current_goes_on(features, run, n);
        assert(remaining(s)[0] == s.current);
        lemma_reaches_main_next(run, n);
        if reaches_main(run, n) {
            self.lemma_main_stays(features, s.current, event);
            if reaction.len() > 0 {
                assert(list[0] == reaction[0]);
            } else {
                assert(list[0] == remaining(s)[1]);
            }
        } else if s.current matches OpView::Enter(Stage::Main(_)) {
            if s.pending.len() > 0 {
                assert(!Self::leads_to_main(remaining(s)[0]));
            }
            self.lemma_main_stays(features, s.current, event);
            assert(list[0] == reaction[0]);
        } else {
            self.lemma_before_main_stays(features, s.current, event);
            if reaction.len() > 0 {
                assert(list[0] == reaction[0]);
            } else {
                assert(list[0] == remaining(s)[1]);
            }
        }
    }
}

/// The main module was reached before the state with position `i`.
pub open spec fn reaches_main(run: Run, i: int) -> bool {
    exists|j: int|
        0 <= j < i && ((#[trigger] run.states[j]).current matches OpView::Enter(Stage::Main(_)))
}

/// Whether the main module was reached is decided step by step.
proof fn lemma_reaches_main_next(run: Run, i: int)
    requires
        0 <= i < run.states.len(),
    ensures
        reaches_main(run, i + 1) == (reaches_main(run, i) || (run.states[i].current matches
            OpView::Enter(Stage::Main(_)))),
{
    if reaches_main(run, i) {
        let j = choose|j: int|
            0 <= j < i && ((#[trigger] run.states[j]).current matches OpView::Enter(
                Stage::Main(_),
            ));
        assert(0 <= j < i + 1 && (run.states[j].current matches OpView::Enter(Stage::Main(_))));
    }
    if run.states[i].current matches OpView::Enter(Stage::Main(_)) {
        assert(0 <= i < i + 1);
    }
}

/// What holds of all remaining work holds of what is pending.
proof fn lemma_pending_has(state: ProgressView, property: spec_fn(OpView) -> bool)
    requires
        all_have(remaining(state), property),
    ensures
        all_have(state.pending, property),
{
    assert forall|p: int| 0 <= p < state.pending.len() implies property(
        #[trigger] state.pending[p],
    ) by {
        assert(remaining(state)[p + 1] == state.pending[p]);
    }
}

} // verus!
