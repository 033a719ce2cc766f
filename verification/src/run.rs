//! Runs as they unfold, and ways to show what holds of all of them.

use crate::command::{Features, RunCommand};
use crate::execute::{advance, start_of_run, ProgressView, StepView};
use crate::plan::{EventView, OpView, Stage};
use vstd::prelude::*;

verus! {

/// A run, as far as it has come: the states it was in, and what came of the
/// work in all of them but the last.
pub struct Run {
    pub states: Seq<ProgressView>,
    pub events: Seq<EventView>,
}

/// The work that was done before the state with position `i`.
pub open spec fn history(run: Run, i: int) -> Seq<OpView> {
    Seq::new(i as nat, |j: int| run.states[j].current)
}

/// The work that is going on in a state, and what is pending in it.
pub open spec fn remaining(state: ProgressView) -> Seq<OpView> {
    seq![state.current] + state.pending
}

/// Everything in a list has a property.
pub open spec fn all_have(ops: Seq<OpView>, property: spec_fn(OpView) -> bool) -> bool {
    forall|p: int| 0 <= p < ops.len() ==> property(#[trigger] ops[p])
}

/// Something in a list has a property.
pub open spec fn some_has(ops: Seq<OpView>, property: spec_fn(OpView) -> bool) -> bool {
    exists|p: int| 0 <= p < ops.len() && property(#[trigger] ops[p])
}

/// In a list, whatever is `late` has something that stands in front of it.
pub open spec fn guarded(
    ops: Seq<OpView>,
    late: spec_fn(OpView) -> bool,
    front: spec_fn(OpView) -> bool,
) -> bool {
    forall|p: int|
        0 <= p < ops.len() && late(#[trigger] ops[p]) ==> some_has(ops.take(p), front)
}

/// Between two states there is one in which what is left is what was left in
/// the first, from a position on.
spec fn was_left(run: Run, i: int, j: int, p: int) -> bool {
    exists|k: int|
        i <= k < j && #[trigger] remaining(run.states[k]) == remaining(run.states[i]).skip(p)
}

/// A later state changes nothing about that.
proof fn lemma_was_left_later(run: Run, i: int, j: int, later: int, p: int)
    requires
        was_left(run, i, j, p),
        j <= later,
    ensures
        was_left(run, i, later, p),
{
    let k = choose|k: int|
        i <= k < j && #[trigger] remaining(run.states[k]) == remaining(run.states[i]).skip(p);
    assert(i <= k < later && remaining(run.states[k]) == remaining(run.states[i]).skip(p));
}

/// What a list ends with is left when something takes the place of the first
/// piece of it, but for that piece itself.
proof fn lemma_tail_is_left(state: ProgressView, ops: Seq<OpView>, tail: Seq<OpView>)
    requires
        tail.len() <= remaining(state).len(),
        remaining(state).skip(remaining(state).len() - tail.len()) == tail,
    ensures
        ({
            let after = ops + state.pending;
            if tail.len() < remaining(state).len() {
                &&& tail.len() <= after.len()
                &&& after.skip(after.len() - tail.len()) == tail
            } else {
                &&& 0 < tail.len() <= after.len() + 1
                &&& after.skip(after.len() - (tail.len() - 1)) == tail.skip(1)
            }
        }),
{
    let before = remaining(state);
    let after = ops + state.pending;
    if tail.len() < before.len() {
        assert(after.skip(after.len() - tail.len()) =~= before.skip(before.len() - tail.len()));
    } else {
        assert(after.skip(after.len() - (tail.len() - 1)) =~= before.skip(0).skip(1));
    }
}

/// In a list, work of a kind stands right behind a row of `m` pieces that
/// fits.
pub open spec fn has_rows(
    ops: Seq<OpView>,
    late: spec_fn(OpView) -> bool,
    m: nat,
    fits: spec_fn(Seq<OpView>) -> bool,
) -> bool {
    forall|p: int|
        0 <= p < ops.len() && late(#[trigger] ops[p]) ==> m <= p && fits(ops.subrange(p - m, p))
}

/// Two lists that have a property throughout have it as one.
pub proof fn lemma_all_have_joined(
    first: Seq<OpView>,
    second: Seq<OpView>,
    property: spec_fn(OpView) -> bool,
)
    requires
        all_have(first, property),
        all_have(second, property),
    ensures
        all_have(first + second, property),
{
}

/// What stands in front of late work may be seen as a case of more.
pub proof fn lemma_guarded_by_more(
    ops: Seq<OpView>,
    late: spec_fn(OpView) -> bool,
    front: spec_fn(OpView) -> bool,
    more: spec_fn(OpView) -> bool,
)
    requires
        guarded(ops, late, front),
        forall|op: OpView| front(op) ==> #[trigger] more(op),
    ensures
        guarded(ops, late, more),
{
    assert forall|p: int| 0 <= p < ops.len() && late(#[trigger] ops[p]) implies some_has(
        ops.take(p),
        more,
    ) by {
        let q = choose|q: int| 0 <= q < ops.take(p).len() && front(#[trigger] ops.take(p)[q]);
        assert(more(ops.take(p)[q]));
    }
}

/// Work that takes the place of the first piece of a guarded list leaves the
/// list guarded, where the work is guarded itself and, if that piece stood in
/// front of others, holds something to stand there.
proof fn lemma_replaced_guarded(
    first: OpView,
    replacement: Seq<OpView>,
    pending: Seq<OpView>,
    late: spec_fn(OpView) -> bool,
    front: spec_fn(OpView) -> bool,
)
    requires
        guarded(seq![first] + pending, late, front),
        guarded(replacement, late, front),
        front(first) ==> some_has(replacement, front),
    ensures
        guarded(replacement + pending, late, front),
{
    let old = seq![first] + pending;
    let new = replacement + pending;
    let n = replacement.len() as int;
    assert forall|p: int| 0 <= p < new.len() && late(#[trigger] new[p]) implies some_has(
        new.take(p),
        front,
    ) by {
        if p < n {
            assert(new[p] == replacement[p]);
            assert(new.take(p) =~= replacement.take(p));
        } else {
            let o = p - n + 1;
            assert(new[p] == old[o]);
            let q = choose|q: int| 0 <= q < old.take(o).len() && front(#[trigger] old.take(o)[q]);
            if q == 0 {
                let r = choose|r: int|
                    0 <= r < replacement.len() && front(#[trigger] replacement[r]);
                assert(new.take(p)[r] == replacement[r]);
            } else {
                assert(new.take(p)[q - 1 + n] == old.take(o)[q]);
            }
        }
    }
}

impl RunCommand {
    /// One state follows another.
    pub open spec fn follows(
        &self,
        features: Features,
        before: ProgressView,
        event: EventView,
        after: ProgressView,
    ) -> bool {
        &&& self.can_go_on(before.current, event)
        &&& self.next_step(features, before, event) == StepView::Perform(after)
    }

    /// A run of this command.
    pub open spec fn is_run(&self, features: Features, run: Run) -> bool {
        &&& run.states.len() == run.events.len() + 1
        &&& run.states[0] == start_of_run()
        &&& forall|i: int|
            0 <= i < run.events.len() ==> self.follows(
                features,
                #[trigger] run.states[i],
                run.events[i],
                run.states[i + 1],
            )
    }

    /// A step puts what is done next in the place of what was done.
    pub proof fn lemma_step(&self, features: Features, run: Run, i: int)
        requires
            self.is_run(features, run),
            0 <= i < run.events.len(),
        ensures
            remaining(run.states[i + 1]) == self.reaction(
                features,
                run.states[i].current,
                run.events[i],
            ) + run.states[i].pending,
            !(run.states[i + 1].current is Fail),
            history(run, i + 1) == history(run, i).push(run.states[i].current),
    {
        let s = run.states[i];
        let next = run.states[i + 1];
        let ops = self.reaction(features, s.current, run.events[i]) + s.pending;
        assert(self.follows(features, s, run.events[i], next));
        assert(advance(ops) == StepView::Perform(next));
        assert(ops =~= remaining(next));
        assert(history(run, i + 1) =~= history(run, i).push(s.current));
    }

    /// The end of a run is not a piece of work that is done.
    pub proof fn lemma_current_goes_on(&self, features: Features, run: Run, i: int)
        requires
            self.is_run(features, run),
            0 <= i < run.states.len(),
        ensures
            !(run.states[i].current is Fail),
    {
        if i > 0 {
            self.lemma_step(features, run, i - 1);
        }
    }

    /// Work with a property is followed by such work only.
    pub open spec fn preserves(&self, features: Features, property: spec_fn(OpView) -> bool) -> bool {
        forall|current: OpView, event: EventView|
            property(current) && !(current is Fail) ==> all_have(
                #[trigger] self.reaction(features, current, event),
                property,
            )
    }

    /// A property that the start has and that work passes on holds of all
    /// work.
    pub proof fn lemma_everywhere(
        &self,
        features: Features,
        run: Run,
        property: spec_fn(OpView) -> bool,
        i: int,
    )
        requires
            self.is_run(features, run),
            0 <= i < run.states.len(),
            property(OpView::Enter(Stage::Run)),
            self.preserves(features, property),
        ensures
            all_have(remaining(run.states[i]), property),
            property(run.states[i].current),
        decreases i,
    {
        if i > 0 {
            let s = run.states[i - 1];
            self.lemma_everywhere(features, run, property, i - 1);
            self.lemma_current_goes_on(features, run, i - 1);
            self.lemma_step(features, run, i - 1);
            let reaction = self.reaction(features, s.current, run.events[i - 1]);
            assert forall|p: int| 0 <= p < s.pending.len() implies property(
                #[trigger] s.pending[p],
            ) by {
                assert(remaining(s)[p + 1] == s.pending[p]);
            }
            lemma_all_have_joined(reaction, s.pending, property);
        }
        assert(remaining(run.states[i])[0] == run.states[i].current);
    }

    /// Late work is listed behind work that stands in front of it, and what
    /// stands in front is early work itself or is replaced by more of the
    /// kind.
    pub open spec fn holds_back(
        &self,
        features: Features,
        late: spec_fn(OpView) -> bool,
        early: spec_fn(OpView) -> bool,
        front: spec_fn(OpView) -> bool,
    ) -> bool {
        forall|current: OpView, event: EventView|
            !late(current) && !early(current) && !(current is Fail) ==> {
                let reaction = #[trigger] self.reaction(features, current, event);
                guarded(reaction, late, front) && (front(current) ==> some_has(reaction, front))
            }
    }

    /// Where late work is held back, early work was done before it.
    pub proof fn lemma_before(
        &self,
        features: Features,
        run: Run,
        late: spec_fn(OpView) -> bool,
        early: spec_fn(OpView) -> bool,
        front: spec_fn(OpView) -> bool,
        i: int,
    )
        requires
            self.is_run(features, run),
            0 <= i < run.states.len(),
            !late(OpView::Enter(Stage::Run)),
            self.holds_back(features, late, early, front),
        ensures
            some_has(history(run, i), early) || guarded(remaining(run.states[i]), late, front),
            late(run.states[i].current) ==> some_has(history(run, i), early),
        decreases i,
    {
        if i == 0 {
            assert(remaining(run.states[0]) =~= seq![OpView::Enter(Stage::Run)]);
        } else {
            let s = run.states[i - 1];
            let done = history(run, i - 1);
            self.lemma_before(features, run, late, early, front, i - 1);
            self.lemma_step(features, run, i - 1);
            self.lemma_current_goes_on(features, run, i - 1);
            if some_has(done, early) {
                let q = choose|q: int| 0 <= q < done.len() && early(#[trigger] done[q]);
                assert(history(run, i)[q] == done[q]);
            } else if early(s.current) {
                assert(history(run, i)[i - 1] == s.current);
            } else {
                let reaction = self.reaction(features, s.current, run.events[i - 1]);
                assert(guarded(reaction, late, front));
                lemma_replaced_guarded(s.current, reaction, s.pending, late, front);
            }
        }
        if late(run.states[i].current) && !some_has(history(run, i), early) {
            let list = remaining(run.states[i]);
            assert(late(list[0]));
            assert(some_has(list.take(0), front));
        }
    }

    /// Work that stands for a promise is followed by such work, until the
    /// promise is kept.
    pub open spec fn promises(
        &self,
        features: Features,
        promise: spec_fn(OpView) -> bool,
        kept: spec_fn(OpView, EventView) -> bool,
    ) -> bool {
        forall|current: OpView, event: EventView|
            promise(current) && !(current is Fail) && !kept(current, event) ==> some_has(
                #[trigger] self.reaction(features, current, event),
                promise,
            )
    }

    /// What is promised from the start is pending until it is kept.
    pub proof fn lemma_promised(
        &self,
        features: Features,
        run: Run,
        promise: spec_fn(OpView) -> bool,
        kept: spec_fn(OpView, EventView) -> bool,
        i: int,
    )
        requires
            self.is_run(features, run),
            0 <= i < run.states.len(),
            promise(OpView::Enter(Stage::Run)),
            self.promises(features, promise, kept),
        ensures
            some_has(remaining(run.states[i]), promise) || exists|j: int|
                0 <= j < i && kept((#[trigger] run.states[j]).current, run.events[j]),
        decreases i,
    {
        if i == 0 {
            assert(remaining(run.states[0])[0] == OpView::Enter(Stage::Run));
        } else {
            let s = run.states[i - 1];
            let e = run.events[i - 1];
            self.lemma_promised(features, run, promise, kept, i - 1);
            self.lemma_step(features, run, i - 1);
            self.lemma_current_goes_on(features, run, i - 1);
            if some_has(remaining(s), promise) {
                let q = choose|q: int|
                    0 <= q < remaining(s).len() && promise(#[trigger] remaining(s)[q]);
                let reaction = self.reaction(features, s.current, e);
                let next = remaining(run.states[i]);
                if q > 0 {
                    assert(next[q - 1 + reaction.len()] == remaining(s)[q]);
                } else if !kept(s.current, e) {
                    let r = choose|r: int| 0 <= r < reaction.len() && promise(#[trigger] reaction[r]);
                    assert(next[r] == reaction[r]);
                } else {
                    assert(kept(run.states[i - 1].current, run.events[i - 1]));
                }
            }
        }
    }

    /// Work after which the run ends or goes on with what is pending.
    pub open spec fn is_plain(&self, features: Features, op: OpView) -> bool {
        forall|event: EventView|
            {
                let reaction = #[trigger] self.reaction(features, op, event);
                reaction.len() == 0 || reaction[0] is Fail
            }
    }

    /// Work of a kind is listed right behind a row of `m` plain pieces of
    /// work that fits.
    pub open spec fn lists_rows(
        &self,
        features: Features,
        late: spec_fn(OpView) -> bool,
        m: nat,
        fits: spec_fn(Seq<OpView>) -> bool,
    ) -> bool {
        &&& forall|current: OpView, event: EventView|
            !(current is Fail) ==> has_rows(
                #[trigger] self.reaction(features, current, event),
                late,
                m,
                fits,
            )
        &&& forall|row: Seq<OpView>, k: int|
            #![trigger fits(row), row[k]]
            row.len() == m && fits(row) && 0 <= k < m ==> self.is_plain(features, row[k])
    }

    /// Work that is listed right behind a row is done right behind it.
    pub proof fn lemma_row_is_done(
        &self,
        features: Features,
        run: Run,
        late: spec_fn(OpView) -> bool,
        m: nat,
        fits: spec_fn(Seq<OpView>) -> bool,
        i: int,
    )
        requires
            self.is_run(features, run),
            0 <= i < run.states.len(),
            !late(OpView::Enter(Stage::Run)),
            self.lists_rows(features, late, m, fits),
        ensures
            late(run.states[i].current) ==> {
                &&& m <= i
                &&& fits(history(run, i).subrange(i - m, i))
                &&& forall|j: int|
                    i - m <= j < i ==> self.reaction(
                        features,
                        (#[trigger] run.states[j]).current,
                        run.events[j],
                    ).len() == 0
            },
    {
        if late(run.states[i].current) {
            let all = history(run, i) + remaining(run.states[i]);
            self.lemma_rows_remain(features, run, late, m, fits, i);
            assert(all[i] == run.states[i].current);
            let row = all.subrange(i - m, i);
            assert(row =~= history(run, i).subrange(i - m, i));
            assert forall|j: int| i - m <= j < i implies self.reaction(
                features,
                (#[trigger] run.states[j]).current,
                run.events[j],
            ).len() == 0 by {
                assert(row[j - (i - m)] == run.states[j].current);
                assert(self.is_plain(features, row[j - (i - m)]));
                self.lemma_step(features, run, j);
                let reaction = self.reaction(features, run.states[j].current, run.events[j]);
                if reaction.len() > 0 {
                    assert(remaining(run.states[j + 1])[0] == reaction[0]);
                }
            }
        }
    }

    /// Rows stay rows until they are done.
    proof fn lemma_rows_remain(
        &self,
        features: Features,
        run: Run,
        late: spec_fn(OpView) -> bool,
        m: nat,
        fits: spec_fn(Seq<OpView>) -> bool,
        i: int,
    )
        requires
            self.is_run(features, run),
            0 <= i < run.states.len(),
            !late(OpView::Enter(Stage::Run)),
            self.lists_rows(features, late, m, fits),
        ensures
            ({
                let all = history(run, i) + remaining(run.states[i]);
                forall|q: int|
                    i <= q < all.len() && late(#[trigger] all[q]) ==> m <= q && fits(
                        all.subrange(q - m, q),
                    )
            }),
        decreases i,
    {
        let all = history(run, i) + remaining(run.states[i]);
        if i == 0 {
            assert(all =~= seq![OpView::Enter(Stage::Run)]);
        } else {
            let s = run.states[i - 1];
            let ops = self.reaction(features, s.current, run.events[i - 1]);
            let n = ops.len() as int;
            let before = history(run, i - 1) + remaining(s);
            self.lemma_rows_remain(features, run, late, m, fits, i - 1);
            self.lemma_step(features, run, i - 1);
            self.lemma_current_goes_on(features, run, i - 1);
            assert(has_rows(ops, late, m, fits));
            assert forall|q: int| i <= q < all.len() && late(#[trigger] all[q]) implies m <= q
                && fits(all.subrange(q - m, q)) by {
                if q < i + n {
                    let p = q - i;
                    assert(all[q] == ops[p]);
                    assert(all.subrange(q - m, q) =~= ops.subrange(p - m, p));
                } else {
                    let o = q - n;
                    assert(all[q] == before[o]);
                    let row = before.subrange(o - m, o);
                    if n > 0 && o - m < i {
                        let k = i - 1 - (o - m);
                        if 0 <= k < m {
                            assert(row[k] == s.current);
                            assert(self.is_plain(features, row[k]));
                            assert(remaining(run.states[i])[0] == ops[0]);
                        }
                        assert(false);
                    }
                    assert(all.subrange(q - m, q) =~= row);
                }
            }
        }
    }

    /// Work is done in the order in which it is listed: where less is left to
    /// be done than stands behind a piece of work, that piece was done, with
    /// all that stands behind it still left.
    pub proof fn law_work_is_done_in_order(
        &self,
        features: Features,
        run: Run,
        i: int,
        j: int,
        p: int,
    )
        requires
            self.is_run(features, run),
            0 <= i <= j < run.states.len(),
            0 <= p < 1 + run.states[i].pending.len(),
            run.states[j].pending.len() < run.states[i].pending.len() - p,
        ensures
            exists|k: int|
                i <= k < j && (#[trigger] run.states[k]).current == (if p == 0 {
                    run.states[i].current
                } else {
                    run.states[i].pending[p - 1]
                }) && run.states[k].pending == run.states[i].pending.skip(p),
    {
        let list = remaining(run.states[i]);
        let m = self.lemma_stack(features, run, i, j);
        assert(was_left(run, i, j, p));
        let k = choose|k: int|
            i <= k < j && #[trigger] remaining(run.states[k]) == list.skip(p);
        let s = run.states[k];
        assert(remaining(s)[0] == s.current);
        assert(remaining(s).skip(1) =~= s.pending);
        assert(list.skip(p).skip(1) =~= run.states[i].pending.skip(p));
        assert(list.skip(p)[0] == list[p]);
    }

    /// A step lists something in front of what is pending.
    proof fn lemma_something_is_listed(&self, features: Features, run: Run, i: int) -> (ops: Seq<
        OpView,
    >)
        requires
            self.is_run(features, run),
            0 <= i < run.events.len(),
        ensures
            remaining(run.states[i + 1]) == ops + run.states[i].pending,
    {
        self.lemma_step(features, run, i);
        self.reaction(features, run.states[i].current, run.events[i])
    }

    /// What was left in an earlier state is left from some position on, behind
    /// what was listed meanwhile, and was done up to there.
    proof fn lemma_stack(&self, features: Features, run: Run, i: int, j: int) -> (m: int)
        requires
            self.is_run(features, run),
            0 <= i <= j < run.states.len(),
        ensures
            ({
                let list = remaining(run.states[i]);
                let left = remaining(run.states[j]);
                &&& 0 <= m <= list.len()
                &&& list.len() - m <= left.len()
                &&& left.skip(left.len() - (list.len() - m)) == list.skip(m)
                &&& forall|p: int| 0 <= p < m ==> #[trigger] was_left(run, i, j, p)
            }),
        decreases j,
    {
        let list = remaining(run.states[i]);
        let left = remaining(run.states[j]);
        if i == j {
            assert(left.skip(0) =~= list.skip(0));
            0
        } else {
            let before = remaining(run.states[j - 1]);
            let m = self.lemma_stack(features, run, i, j - 1);
            let ops = self.lemma_something_is_listed(features, run, j - 1);
            let tail = list.skip(m);
            lemma_tail_is_left(run.states[j - 1], ops, tail);
            if before.len() > tail.len() {
                assert forall|p: int| 0 <= p < m implies #[trigger] was_left(run, i, j, p) by {
                    lemma_was_left_later(run, i, j - 1, j, p);
                }
                m
            } else {
                assert(before.skip(0) =~= before);
                assert(tail.skip(1) =~= list.skip(m + 1));
                assert forall|p: int| 0 <= p < m + 1 implies #[trigger] was_left(run, i, j, p) by {
                    if p == m {
                        assert(remaining(run.states[j - 1]) == list.skip(p));
                    } else {
                        lemma_was_left_later(run, i, j - 1, j, p);
                    }
                }
                m + 1
            }
        }
    }
}

} // verus!
