//! The numbers under which a program gets its sockets.

use crate::command::{Features, RunCommand};
use crate::origin::main_loaded;
use crate::plan::{EventView, ModuleKind, OpView, Stage, Target};
use crate::run::{all_have, history, lemma_all_have_joined, remaining, Run};
use crate::wasi::{first_free_fd, FIRST_FD};
use vstd::prelude::*;

verus! {

/// The number under which a piece of work hands a socket to the program.
pub open spec fn socket_number(op: OpView) -> Option<u32> {
    match op {
        OpView::PreopenListener(fd) => Some(fd),
        OpView::PreopenSocket { fd, .. } => Some(fd),
        _ => None,
    }
}

/// Work from which sockets may come.
spec fn leads(op: OpView) -> bool {
    match op {
        OpView::Enter(stage) => stage == Stage::Run || stage == Stage::Preview1,
        OpView::MapFile { target, .. } => target == Target::Main,
        OpView::ReadFile { target, .. } => target == Target::Main,
        OpView::LoadModule { target, .. } => target == Target::Main,
        OpView::OpenListenFds => true,
        OpView::TakeListener { .. } => true,
        _ => false,
    }
}

/// Neither hands a socket on nor leads to one.
spec fn is_apart(op: OpView) -> bool {
    !leads(op) && socket_number(op) is None
}

/// The sockets that come from a piece of work get numbers above `number`.
spec fn comes_above(op: OpView, number: int) -> bool {
    op matches OpView::TakeListener { last: Some(position), .. } && number <= FIRST_FD + position
}

/// In a list, the numbers of sockets increase.
spec fn increases(ops: Seq<OpView>) -> bool {
    forall|p: int, q: int|
        #![trigger socket_number(ops[p]), socket_number(ops[q])]
        0 <= p < q < ops.len() && socket_number(ops[p]) is Some && socket_number(ops[q]) is Some
            ==> socket_number(ops[p])->0 < socket_number(ops[q])->0
}

/// At most one piece of a list leads to sockets.
spec fn leads_once(ops: Seq<OpView>) -> bool {
    forall|p: int, q: int|
        #![trigger leads(ops[p]), leads(ops[q])]
        0 <= p < q < ops.len() ==> !(leads(ops[p]) && leads(ops[q]))
}

/// Work that is apart does not change whether a list leads to sockets once.
proof fn lemma_leads_once_joined(first: Seq<OpView>, second: Seq<OpView>)
    requires
        leads_once(first),
        leads_once(second),
        all_have(first, |op: OpView| is_apart(op)) || all_have(second, |op: OpView| is_apart(op)),
    ensures
        leads_once(first + second),
{
    let apart = |op: OpView| is_apart(op);
    let ops = first + second;
    let n = first.len() as int;
    assert forall|p: int, q: int|
        #![trigger leads(ops[p]), leads(ops[q])]
        0 <= p < q < ops.len() implies !(leads(ops[p]) && leads(ops[q])) by {
        if q < n {
            assert(ops[p] == first[p] && ops[q] == first[q]);
        } else if p < n {
            assert(ops[p] == first[p] && ops[q] == second[q - n]);
            assert(apart(first[p]) || apart(second[q - n]));
        } else {
            assert(ops[p] == second[p - n] && ops[q] == second[q - n]);
        }
    }
}

impl RunCommand {
    /// The program can count its sockets, the inherited ones and the bound
    /// ones.
    pub open spec fn sockets_are_few(&self, run: Run) -> bool {
        &&& FIRST_FD + self.tcplisten@.len() <= u32::MAX
        &&& forall|i: int|
            0 <= i < run.events.len() ==> (#[trigger] run.events[i] matches EventView::Count(n)
                ==> FIRST_FD + n + self.tcplisten@.len() <= u32::MAX)
    }

    /// An inherited socket is taken in its turn, and can be counted.
    spec fn takes_in_turn(&self, op: OpView) -> bool {
        op matches OpView::TakeListener { index, count, last } ==> {
            &&& index < count
            &&& FIRST_FD + count + self.tcplisten@.len() <= u32::MAX
            &&& last matches Some(position) ==> position < index
        }
    }

    /// A list can follow where `last` is the position of the last inherited
    /// socket that was taken: its numbers go on from there, and sockets that
    /// come from it later get greater ones.
    spec fn fits(&self, ops: Seq<OpView>, last: Option<usize>) -> bool {
        &&& leads_once(ops)
        &&& increases(ops)
        &&& forall|p: int|
            0 <= p < ops.len() && socket_number(#[trigger] ops[p]) is Some
                ==> first_free_fd(last) <= socket_number(ops[p])->0
        &&& forall|p: int, q: int|
            #![trigger leads(ops[p]), socket_number(ops[q])]
            0 <= p < ops.len() && 0 <= q < ops.len() && leads(ops[p]) && socket_number(
                ops[q],
            ) is Some ==> q < p && comes_above(ops[p], socket_number(ops[q])->0 as int)
        &&& forall|p: int|
            0 <= p < ops.len() && leads(#[trigger] ops[p]) ==> {
                &&& self.takes_in_turn(ops[p])
                &&& last matches Some(position) ==> comes_above(ops[p], FIRST_FD + position)
            }
    }

    /// What is left to do once the inherited sockets are known leads to no
    /// sockets, and hands the bound ones on in a row.
    proof fn lemma_rest_numbers(&self, num_fd: usize)
        requires
            num_fd + self.tcplisten@.len() <= u32::MAX,
        ensures
            forall|p: int|
                0 <= p < self.preview1_rest(num_fd).len() ==> !leads(
                    #[trigger] self.preview1_rest(num_fd)[p],
                ),
            forall|p: int|
                0 <= p < self.preview1_rest(num_fd).len() && socket_number(
                    #[trigger] self.preview1_rest(num_fd)[p],
                ) is Some ==> 2 * self.tcplisten@.len() <= p && socket_number(
                    self.preview1_rest(num_fd)[p],
                )->0 == num_fd + p - 2 * self.tcplisten@.len(),
    {
        let rest = self.preview1_rest(num_fd);
        let binds = self.bind_ops();
        let sockets = self.socket_ops(num_fd);
        let dirs = self.dir_ops(None);
        let b = binds.len() as int;
        let s = sockets.len() as int;
        assert forall|p: int| 0 <= p < rest.len() implies {
            &&& !leads(#[trigger] rest[p])
            &&& socket_number(rest[p]) is Some ==> b <= p && socket_number(rest[p])->0 == num_fd + p
                - b
        } by {
            if p < b {
                assert(rest[p] == binds[p]);
            } else if p < b + s {
                assert(rest[p] == sockets[p - b]);
            } else if p < b + s + dirs.len() {
                assert(rest[p] == dirs[p - b - s]);
            } else {
                assert(rest[p] == OpView::FinishPreview1);
            }
        }
    }

    /// What is done with the inherited sockets that are left fits.
    proof fn lemma_listeners_fit(&self, count: usize, index: usize, last: Option<usize>)
        requires
            index <= count,
            FIRST_FD + count + self.tcplisten@.len() <= u32::MAX,
            last matches Some(position) ==> position < index,
        ensures
            self.fits(self.listener_ops(count, index, last), last),
    {
        if index >= count {
            self.lemma_rest_numbers(first_free_fd(last));
        }
    }

    /// What is done after an inherited socket was taken or was not there
    /// fits.
    proof fn lemma_taken_fits(&self, index: usize, count: usize, last: Option<usize>, taken: bool)
        requires
            self.takes_in_turn(OpView::TakeListener { index, count, last }),
        ensures
            self.fits(self.taken_ops(index, count, last, taken), last),
    {
        let next = (index + 1) as usize;
        if taken {
            let ops = self.taken_ops(index, count, last, taken);
            let later = self.listener_ops(count, next, Some(index));
            self.lemma_listeners_fit(count, next, Some(index));
            assert(ops[0] == OpView::UnblockListener);
            assert(socket_number(ops[1]) == Some((FIRST_FD + index) as u32));
            assert forall|p: int| 2 <= p < ops.len() implies #[trigger] ops[p] == later[p - 2] by {}
        } else {
            self.lemma_listeners_fit(count, next, last);
        }
    }

    /// What is done for a context of the first form fits.
    proof fn lemma_preview1_fits(&self, features: Features)
        requires
            FIRST_FD + self.tcplisten@.len() <= u32::MAX,
        ensures
            self.fits(self.preview1_ops(features), None),
    {
        if let Ok(args) = self.argv() {
            let ops = self.preview1_ops(features);
            let front = seq![OpView::NewPreview1, OpView::SetArgs(args)] + self.var_ops();
            let rest = self.preview1_rest(FIRST_FD);
            let n = front.len() as int;
            self.lemma_rest_numbers(FIRST_FD);
            assert forall|p: int| 0 <= p < n implies is_apart(#[trigger] ops[p]) by {
                assert(ops[p] == front[p]);
                if p >= 2 {
                    assert(front[p] == self.var_ops()[p - 2]);
                }
            }
            if self.listenfd && features.unix {
                assert(ops[n] == OpView::ForwardVar("LISTEN_FDS"@));
                assert(ops[n + 1] == OpView::ForwardVar("LISTEN_FDNAMES"@));
                assert(ops[n + 2] == OpView::OpenListenFds);
            } else {
                assert forall|p: int| n <= p < ops.len() implies #[trigger] ops[p] == rest[p
                    - n] by {}
            }
        }
    }

    /// The work between loading the main module and running it leads to
    /// sockets at most once, and hands none on.
    proof fn lemma_setup_leads_once(&self, features: Features, kind: ModuleKind)
        ensures
            leads_once(self.setup_ops(features, kind)),
            all_have(self.setup_ops(features, kind), |op: OpView| socket_number(op) is None),
    {
        let apart = |op: OpView| is_apart(op);
        let silent = |op: OpView| socket_number(op) is None;
        let linker = seq![OpView::CreateLinker(kind)] + self.export_ops(kind) + seq![
            OpView::CreateStore,
        ];
        let common = self.wasi_common_ops(kind);
        let nn = self.wasi_nn_ops(features, kind);
        let threads = self.wasi_threads_ops(features, kind);
        let http = self.wasi_http_ops(features);
        let limits = self.limit_ops();
        let keep = self.keep_ops(kind);
        let preloads = self.preload_ops(features, kind);
        let end = seq![OpView::Enter(Stage::Main(kind))];
        if !self.coredump_pattern() {
            assert(all_have(linker, apart) && all_have(linker, silent));
            assert(leads_once(common) && all_have(common, silent));
            assert(all_have(nn, apart) && all_have(nn, silent));
            assert(all_have(threads, apart) && all_have(threads, silent));
            assert(all_have(http, apart) && all_have(http, silent));
            assert(all_have(limits, apart) && all_have(limits, silent));
            assert(all_have(keep, apart) && all_have(keep, silent));
            assert(all_have(preloads, apart) && all_have(preloads, silent));
            assert(all_have(end, apart) && all_have(end, silent));
            lemma_leads_once_joined(common, nn);
            lemma_leads_once_joined(common + nn, threads);
            lemma_leads_once_joined(common + nn + threads, http);
            let wasi = self.wasi_ops(features, kind);
            lemma_leads_once_joined(linker, wasi);
            lemma_leads_once_joined(linker + wasi, limits);
            lemma_leads_once_joined(linker + wasi + limits, keep);
            lemma_leads_once_joined(linker + wasi + limits + keep, preloads);
            lemma_leads_once_joined(linker + wasi + limits + keep + preloads, end);
            lemma_all_have_joined(common, nn, silent);
            lemma_all_have_joined(common + nn, threads, silent);
            lemma_all_have_joined(common + nn + threads, http, silent);
            lemma_all_have_joined(linker, wasi, silent);
            lemma_all_have_joined(linker + wasi, limits, silent);
            lemma_all_have_joined(linker + wasi + limits, keep, silent);
            lemma_all_have_joined(linker + wasi + limits + keep, preloads, silent);
            lemma_all_have_joined(linker + wasi + limits + keep + preloads, end, silent);
        }
    }

    /// Work from which no sockets may come is followed by none that leads to
    /// them or hands them on.
    proof fn lemma_apart_stays_apart(&self, features: Features, current: OpView, event: EventView)
        requires
            !(current is Fail),
            !leads(current),
        ensures
            all_have(self.reaction(features, current, event), |op: OpView| is_apart(op)),
    {
        let ops = self.reaction(features, current, event);
        self.lemma_reaction_originates(features, current, event);
        assert forall|p: int| 0 <= p < ops.len() implies is_apart(#[trigger] ops[p]) by {
            assert(self.origin(features, current, event, ops[p]));
        }
    }

    /// The work between loading the main module and running it fits.
    proof fn lemma_setup_fits(
        &self,
        features: Features,
        current: OpView,
        event: EventView,
        kind: ModuleKind,
    )
        requires
            main_loaded(current, event, kind),
        ensures
            self.fits(self.setup_ops(features, kind), None),
    {
        let setup = self.setup_ops(features, kind);
        let silent = |op: OpView| socket_number(op) is None;
        self.lemma_setup_leads_once(features, kind);
        self.lemma_reaction_originates(features, current, event);
        assert forall|p: int| 0 <= p < setup.len() implies socket_number(
            #[trigger] setup[p],
        ) is None && !(setup[p] is TakeListener) by {
            assert(silent(setup[p]));
            assert(self.origin(features, current, event, setup[p]));
        }
    }

    /// What is done until the main module can be read fits.
    proof fn lemma_engine_fits(&self, features: Features)
        ensures
            self.fits(self.engine_ops(features), None),
    {
        let ops = self.engine_ops(features);
        assert forall|p: int| 0 <= p < ops.len() implies socket_number(#[trigger] ops[p]) is None
            && !(ops[p] is TakeListener) && (leads(ops[p]) ==> p == ops.len() - 1) by {}
    }

    /// A single piece of work fits that hands no socket on, and that leads to
    /// none or to the first.
    proof fn lemma_single_fits(&self, op: OpView, last: Option<usize>)
        requires
            socket_number(op) is None,
            leads(op) ==> last is None && !(op is TakeListener),
        ensures
            self.fits(seq![op], last),
    {
    }

    /// What follows work from which sockets may come fits.
    proof fn lemma_reaction_fits(&self, features: Features, current: OpView, event: EventView)
        requires
            leads(current),
            self.takes_in_turn(current),
            FIRST_FD + self.tcplisten@.len() <= u32::MAX,
            event matches EventView::Count(n) ==> FIRST_FD + n + self.tcplisten@.len() <= u32::MAX,
        ensures
            self.fits(
                self.reaction(features, current, event),
                match current {
                    OpView::TakeListener { last, .. } => last,
                    _ => None,
                },
            ),
    {
        let ops = self.reaction(features, current, event);
        match current {
            OpView::Enter(stage) => {
                if stage == Stage::Run {
                    self.lemma_engine_fits(features);
                } else {
                    self.lemma_preview1_fits(features);
                }
            },
            OpView::LoadModule { kind, .. } => {
                if event is Done {
                    self.lemma_setup_fits(features, current, event, kind);
                } else {
                    self.lemma_single_fits(self.outside_failure(current), None);
                }
            },
            OpView::OpenListenFds => {
                if let EventView::Count(n) = event {
                    self.lemma_listeners_fit(n, 0, None);
                } else {
                    self.lemma_single_fits(self.outside_failure(current), None);
                }
            },
            OpView::TakeListener { index, count, last } => {
                if let EventView::Taken(taken) = event {
                    self.lemma_taken_fits(index, count, last, taken);
                } else {
                    self.lemma_single_fits(self.outside_failure(current), last);
                }
            },
            _ => {
                self.lemma_single_fits(ops[0], None);
                assert(ops =~= seq![ops[0]]);
            },
        }
    }

    /// All work of a run, done or not: at most one piece that is not done
    /// leads to sockets, it comes behind all that are handed on, and numbers
    /// increase.
    spec fn numbers_increase(&self, run: Run, i: int) -> bool {
        let left = remaining(run.states[i]);
        let all = history(run, i) + left;
        &&& leads_once(left)
        &&& increases(all)
        &&& forall|p: int|
            0 <= p < left.len() && leads(#[trigger] left[p]) ==> self.takes_in_turn(left[p])
        &&& forall|p: int, q: int|
            #![trigger leads(left[p]), socket_number(all[q])]
            0 <= p < left.len() && 0 <= q < all.len() && leads(left[p]) && socket_number(
                all[q],
            ) is Some ==> q < i + p && comes_above(left[p], socket_number(all[q])->0 as int)
    }

    /// A step keeps the numbers increasing.
    proof fn lemma_step_increases(&self, features: Features, run: Run, i: int)
        requires
            self.is_run(features, run),
            self.sockets_are_few(run),
            0 <= i < run.events.len(),
            self.numbers_increase(run, i),
        ensures
            self.numbers_increase(run, i + 1),
    {
        let s = run.states[i];
        let event = run.events[i];
        let ops = self.reaction(features, s.current, event);
        let n = ops.len() as int;
        let left = remaining(s);
        let next = remaining(run.states[i + 1]);
        let before = history(run, i) + left;
        let after = history(run, i + 1) + next;
        self.lemma_step(features, run, i);
        self.lemma_current_goes_on(features, run, i);
        assert(left[0] == s.current);
        assert forall|p: int| n <= p < next.len() implies #[trigger] next[p] == left[p - n + 1] by {}
        assert forall|p: int| 0 <= p < n implies #[trigger] next[p] == ops[p] by {}
        assert forall|q: int| 0 <= q < after.len() implies #[trigger] after[q] == (if q <= i {
            before[q]
        } else if q < i + 1 + n {
            ops[q - i - 1]
        } else {
            before[q - n]
        }) by {}
        if leads(s.current) {
            self.lemma_reaction_fits(features, s.current, event);
            assert forall|q: int| i <= q < before.len() implies socket_number(
                #[trigger] before[q],
            ) is None by {
                assert(leads(left[0]));
            }
            assert forall|p: int| 1 <= p < left.len() implies !leads(#[trigger] left[p]) by {
                assert(leads(left[0]));
            }
        } else {
            let apart = |op: OpView| is_apart(op);
            self.lemma_apart_stays_apart(features, s.current, event);
            assert forall|p: int| 0 <= p < n implies is_apart(#[trigger] ops[p]) by {
                assert(apart(ops[p]));
            }
        }
        assert(leads_once(next));
        assert(increases(after)) by {
            assert forall|p: int, q: int|
                #![trigger socket_number(after[p]), socket_number(after[q])]
                0 <= p < q < after.len() && socket_number(after[p]) is Some && socket_number(
                    after[q],
                ) is Some implies socket_number(after[p])->0 < socket_number(after[q])->0 by {
                if leads(s.current) && p <= i && q > i {
                    assert(comes_above(left[0], socket_number(before[p])->0 as int));
                }
            }
        }
        assert forall|p: int, q: int|
            #![trigger leads(next[p]), socket_number(after[q])]
            0 <= p < next.len() && 0 <= q < after.len() && leads(next[p]) && socket_number(
                after[q],
            ) is Some implies q < i + 1 + p && comes_above(
            next[p],
            socket_number(after[q])->0 as int,
        ) by {
            if leads(s.current) && q <= i {
                assert(comes_above(left[0], socket_number(before[q])->0 as int));
            }
        }
    }

    /// The numbers increase in every state of a run.
    proof fn lemma_numbers_increase(&self, features: Features, run: Run, i: int)
        requires
            self.is_run(features, run),
            self.sockets_are_few(run),
            0 <= i < run.states.len(),
        ensures
            self.numbers_increase(run, i),
        decreases i,
    {
        if i == 0 {
            assert(remaining(run.states[0]) =~= seq![OpView::Enter(Stage::Run)]);
            assert(history(run, 0) =~= Seq::<OpView>::empty());
        } else {
            self.lemma_numbers_increase(features, run, i - 1);
            self.lemma_step_increases(features, run, i - 1);
        }
    }

    /// A program gets its sockets in the order of their numbers, inherited or
    /// bound, so that no two have the same number.
    pub proof fn law_sockets_have_their_own_numbers(
        &self,
        features: Features,
        run: Run,
        i: int,
        j: int,
    )
        requires
            self.is_run(features, run),
            self.sockets_are_few(run),
            0 <= i < j < run.states.len(),
            socket_number(run.states[i].current) is Some,
            socket_number(run.states[j].current) is Some,
        ensures
            socket_number(run.states[i].current)->0 < socket_number(run.states[j].current)->0,
    {
        let all = history(run, j) + remaining(run.states[j]);
        self.lemma_numbers_increase(features, run, j);
        assert(all[i] == run.states[i].current);
        assert(all[j] == run.states[j].current);
    }
}

} // verus!
