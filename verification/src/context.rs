//! What the context of WASI holds when it is finished: the arguments, the
//! variables, the directories and the sockets that the command gives.

use crate::command::{Features, RunCommand};
use crate::plan::{EventView, OpView, Permissions};
use crate::ready::is_simple;
use crate::run::{has_rows, history, Run};
use crate::wasi::{first_free_fd, FIRST_FD};
use vstd::prelude::*;

verus! {

/// A context of WASI is finished.
pub open spec fn finishes_context(op: OpView) -> bool {
    op is FinishPreview1 || op is FinishPreview2
}

impl RunCommand {
    /// How many directories the command gives.
    pub open spec fn dir_count(&self) -> nat {
        self.dirs@.len() + self.map_dirs@.len()
    }

    /// The directory of the host with this position: those that keep their
    /// name come first.
    pub open spec fn host_dir(&self, k: int) -> Seq<char> {
        if k < self.dirs@.len() {
            self.dirs@[k]@
        } else {
            self.map_dirs@[k - self.dirs@.len()].1@
        }
    }

    /// The name for the directory with this position.
    pub open spec fn guest_dir(&self, k: int) -> Seq<char> {
        if k < self.dirs@.len() {
            self.dirs@[k]@
        } else {
            self.map_dirs@[k - self.dirs@.len()].0@
        }
    }

    /// A row that opens all directories and hands them on.
    spec fn hands_dirs(&self, row: Seq<OpView>, permissions: Option<Permissions>) -> bool {
        let n = self.dir_count() as int;
        &&& row.len() == 2 * n
        &&& forall|k: int|
            0 <= k < n ==> (#[trigger] row[k]) == OpView::OpenDir(self.host_dir(k))
        &&& forall|k: int|
            n <= k < 2 * n ==> (#[trigger] row[k]) == (OpView::PreopenDir {
                index: (k - n) as usize,
                guest: self.guest_dir(k - n),
                permissions,
            })
    }

    /// A row that binds all addresses and hands the sockets on.
    spec fn hands_sockets(&self, row: Seq<OpView>) -> bool {
        let t = self.tcplisten@.len() as int;
        &&& row.len() == 3 * t
        &&& forall|k: int|
            0 <= k < 2 * t ==> (#[trigger] row[k]) == (if k % 2 == 0 {
                OpView::BindSocket(self.tcplisten@[k / 2]@)
            } else {
                OpView::UnblockSocket
            })
        &&& forall|k: int|
            2 * t <= k < 3 * t ==> ((#[trigger] row[k]) matches OpView::PreopenSocket { index, .. }
                && index == (k - 2 * t) as usize)
    }

    /// What is listed for the directories hands them on.
    proof fn lemma_dirs_are_handed(&self, permissions: Option<Permissions>)
        ensures
            self.hands_dirs(self.dir_ops(permissions), permissions),
    {
        let n = self.dir_count() as int;
        let ops = self.dir_ops(permissions);
        self.law_directories_are_the_given_ones(0, 0);
        assert forall|k: int| 0 <= k < n implies (#[trigger] ops[k]) == OpView::OpenDir(
            self.host_dir(k),
        ) by {
            self.law_directories_are_the_given_ones(k, k - self.dirs@.len());
        }
        assert forall|k: int| n <= k < 2 * n implies (#[trigger] ops[k]) == (OpView::PreopenDir {
            index: (k - n) as usize,
            guest: self.guest_dir(k - n),
            permissions,
        }) by {
            self.law_directories_are_the_given_ones(k - n, k - n - self.dirs@.len());
        }
    }

    /// A list that ends with what is left of a context of the first form has,
    /// before its end, the sockets and then the directories.
    proof fn lemma_rest_in_front(&self, ops: Seq<OpView>, front: Seq<OpView>, num_fd: usize)
        requires
            ops == front + self.preview1_rest(num_fd),
            forall|p: int| 0 <= p < front.len() ==> !finishes_context(#[trigger] front[p]),
        ensures
            ({
                let n = 2 * self.dir_count() as int;
                let t = 3 * self.tcplisten@.len() as int;
                let end = ops.len() - 1;
                &&& end >= n + t
                &&& ops[end] is FinishPreview1
                &&& forall|p: int| 0 <= p < end ==> !finishes_context(#[trigger] ops[p])
                &&& self.hands_dirs(ops.subrange(end - n, end), None)
                &&& self.hands_sockets(ops.subrange(end - n - t, end - n))
            }),
    {
        let rest = self.preview1_rest(num_fd);
        let sockets = self.bind_ops() + self.socket_ops(num_fd);
        let dirs = self.dir_ops(None);
        let n = 2 * self.dir_count() as int;
        let t = 3 * self.tcplisten@.len() as int;
        let end = ops.len() - 1;
        let f = front.len() as int;
        self.lemma_dirs_are_handed(None);
        assert(sockets.len() == t);
        assert(ops.subrange(end - n, end) =~= dirs);
        assert(ops.subrange(end - n - t, end - n) =~= sockets);
        assert(self.hands_sockets(sockets));
        assert forall|p: int| 0 <= p < end implies !finishes_context(#[trigger] ops[p]) by {
            if p < f {
                assert(ops[p] == front[p]);
            } else if p < f + t {
                assert(ops[p] == sockets[p - f]);
            } else {
                assert(ops[p] == dirs[p - f - t]);
            }
        }
    }

    /// Where a context of the first form is finished in a list.
    proof fn lemma_first_form_is_finished(
        &self,
        features: Features,
        current: OpView,
        event: EventView,
        p: int,
    )
        requires
            !(current is Fail),
            0 <= p < self.reaction(features, current, event).len(),
            self.reaction(features, current, event)[p] is FinishPreview1,
        ensures
            ({
                let ops = self.reaction(features, current, event);
                let n = 2 * self.dir_count() as int;
                let t = 3 * self.tcplisten@.len() as int;
                &&& p >= n + t
                &&& self.hands_dirs(ops.subrange(p - n, p), None)
                &&& self.hands_sockets(ops.subrange(p - n - t, p - n))
            }),
    {
        let ops = self.reaction(features, current, event);
        self.lemma_reaction_originates(features, current, event);
        assert(self.origin(features, current, event, ops[p]));
        let none = Seq::<OpView>::empty();
        match current {
            OpView::OpenListenFds => {
                assert(ops =~= none + self.preview1_rest(FIRST_FD));
                self.lemma_rest_in_front(ops, none, FIRST_FD);
            },
            OpView::TakeListener { index, count, last } => {
                if event == EventView::Taken(true) {
                    let taken = ops.take(2);
                    let num_fd = first_free_fd(Some(index));
                    assert(ops =~= taken + self.preview1_rest(num_fd));
                    self.lemma_rest_in_front(ops, taken, num_fd);
                } else {
                    assert(ops =~= none + self.preview1_rest(first_free_fd(last)));
                    self.lemma_rest_in_front(ops, none, first_free_fd(last));
                }
            },
            _ => {
                let front = seq![OpView::NewPreview1, OpView::SetArgs(self.argv()->Ok_0)]
                    + self.var_ops();
                assert(ops =~= front + self.preview1_rest(FIRST_FD));
                self.lemma_rest_in_front(ops, front, FIRST_FD);
            },
        }
    }

    /// Where a context of the second form is finished in a list.
    proof fn lemma_second_form_is_finished(
        &self,
        features: Features,
        current: OpView,
        event: EventView,
        p: int,
    )
        requires
            !(current is Fail),
            0 <= p < self.reaction(features, current, event).len(),
            self.reaction(features, current, event)[p] is FinishPreview2,
        ensures
            ({
                let ops = self.reaction(features, current, event);
                let n = 2 * self.dir_count() as int;
                &&& p >= n
                &&& self.hands_dirs(
                    ops.subrange(p - n, p),
                    Some(
                        Permissions {
                            read_dir: true,
                            mutate_dir: true,
                            read_files: true,
                            write_files: true,
                        },
                    ),
                )
            }),
    {
        let ops = self.reaction(features, current, event);
        self.lemma_reaction_originates(features, current, event);
        assert(self.origin(features, current, event, ops[p]));
        let permissions = Some(crate::plan::all_permissions());
        let dirs = self.dir_ops(permissions);
        let n = 2 * self.dir_count() as int;
        let front = seq![OpView::NewPreview2, OpView::SetArgs(self.argv()->Ok_0)] + self.var_ops();
        let f = front.len() as int;
        self.lemma_dirs_are_handed(permissions);
        assert(ops.len() > f);
        if p < f {
            assert(ops[p] == front[p]);
        } else if self.listenfd {
            assert(ops[p] is Fail);
        } else if self.tcplisten@.len() > 0 {
            let binds = self.bind_ops();
            if p < f + binds.len() {
                assert(ops[p] == binds[p - f]);
            } else {
                assert(ops[p] is Fail);
            }
        } else {
            assert(self.bind_ops() =~= Seq::<OpView>::empty());
            assert(ops =~= front + dirs + seq![OpView::FinishPreview2]);
            if p < f + n {
                assert(ops[p] == dirs[p - f]);
            }
            assert(ops.subrange(p - n, p) =~= dirs);
        }
    }

    /// Right before a context is finished, all directories of the command have
    /// been opened, each for itself and in their order, and then the program
    /// has been handed each of them under the name that the command gives with
    /// it. In the second form it may do with them whatever there is to do.
    pub proof fn law_context_has_the_directories(&self, features: Features, run: Run, i: int, k: int)
        requires
            self.is_run(features, run),
            0 <= i < run.states.len(),
            finishes_context(run.states[i].current),
            0 <= k < self.dirs@.len() + self.map_dirs@.len(),
            k <= usize::MAX,
        ensures
            ({
                let n = (self.dirs@.len() + self.map_dirs@.len()) as int;
                let opened = run.states[i - 2 * n + k].current;
                let handed = run.states[i - n + k].current;
                &&& i >= 2 * n
                &&& opened == OpView::OpenDir(
                    if k < self.dirs@.len() {
                        self.dirs@[k]@
                    } else {
                        self.map_dirs@[k - self.dirs@.len()].1@
                    },
                )
                &&& run.events[i - 2 * n + k] == EventView::Done
                &&& handed matches OpView::PreopenDir { index, guest, permissions } && index == k
                    && guest == (if k < self.dirs@.len() {
                    self.dirs@[k]@
                } else {
                    self.map_dirs@[k - self.dirs@.len()].0@
                }) && (run.states[i].current is FinishPreview1 ==> permissions is None) && (
                run.states[i].current is FinishPreview2 ==> (permissions matches Some(p)
                    && p.read_dir && p.mutate_dir && p.read_files && p.write_files))
                &&& run.events[i - n + k] == EventView::Done
            }),
    {
        let first = run.states[i].current is FinishPreview1;
        let permissions = if first {
            None
        } else {
            Some(
                Permissions {
                    read_dir: true,
                    mutate_dir: true,
                    read_files: true,
                    write_files: true,
                },
            )
        };
        let n = self.dir_count() as int;
        let late = |op: OpView|
            if first {
                op is FinishPreview1
            } else {
                op is FinishPreview2
            };
        let fits = |row: Seq<OpView>| self.hands_dirs(row, permissions);
        assert forall|current: OpView, event: EventView| !(current is Fail) implies has_rows(
            #[trigger] self.reaction(features, current, event),
            late,
            (2 * n) as nat,
            fits,
        ) by {
            if first {
                self.lemma_dirs_before_first_form(features, current, event);
            } else {
                self.lemma_dirs_before_second_form(features, current, event);
            }
        }
        self.lemma_simple_row_is_done(features, run, late, (2 * n) as nat, fits, i);
        let row = history(run, i).subrange(i - 2 * n, i);
        assert(row[k] == run.states[i - 2 * n + k].current);
        assert(row[n + k] == run.states[i - n + k].current);
    }

    /// The directories stand right before the end of a context of the first
    /// form.
    proof fn lemma_dirs_before_first_form(
        &self,
        features: Features,
        current: OpView,
        event: EventView,
    )
        requires
            !(current is Fail),
        ensures
            has_rows(
                self.reaction(features, current, event),
                |op: OpView| op is FinishPreview1,
                2 * self.dir_count(),
                |row: Seq<OpView>| self.hands_dirs(row, None),
            ),
    {
        let ops = self.reaction(features, current, event);
        let n = self.dir_count() as int;
        assert forall|p: int| 0 <= p < ops.len() && (#[trigger] ops[p]) is FinishPreview1 implies 2
            * n <= p && self.hands_dirs(ops.subrange(p - 2 * n, p), None) by {
            self.lemma_first_form_is_finished(features, current, event, p);
        }
    }

    /// The directories stand right before the end of a context of the second
    /// form.
    proof fn lemma_dirs_before_second_form(
        &self,
        features: Features,
        current: OpView,
        event: EventView,
    )
        requires
            !(current is Fail),
        ensures
            has_rows(
                self.reaction(features, current, event),
                |op: OpView| op is FinishPreview2,
                2 * self.dir_count(),
                |row: Seq<OpView>|
                    self.hands_dirs(
                        row,
                        Some(
                            Permissions {
                                read_dir: true,
                                mutate_dir: true,
                                read_files: true,
                                write_files: true,
                            },
                        ),
                    ),
            ),
    {
        let ops = self.reaction(features, current, event);
        let n = self.dir_count() as int;
        let permissions = Some(
            Permissions { read_dir: true, mutate_dir: true, read_files: true, write_files: true },
        );
        assert forall|p: int| 0 <= p < ops.len() && (#[trigger] ops[p]) is FinishPreview2 implies 2
            * n <= p && self.hands_dirs(ops.subrange(p - 2 * n, p), permissions) by {
            self.lemma_second_form_is_finished(features, current, event, p);
        }
    }

    /// The sockets stand right before the directories.
    proof fn lemma_sockets_before_first_form(
        &self,
        features: Features,
        current: OpView,
        event: EventView,
    )
        requires
            !(current is Fail),
        ensures
            has_rows(
                self.reaction(features, current, event),
                |op: OpView| op is FinishPreview1,
                2 * self.dir_count() + 3 * self.tcplisten@.len(),
                |row: Seq<OpView>|
                    self.hands_sockets(row.take(3 * self.tcplisten@.len() as int))
                        && self.hands_dirs(row.skip(3 * self.tcplisten@.len() as int), None),
            ),
    {
        let ops = self.reaction(features, current, event);
        let n = 2 * self.dir_count() as int;
        let t = 3 * self.tcplisten@.len() as int;
        assert forall|p: int| 0 <= p < ops.len() && (#[trigger] ops[p]) is FinishPreview1 implies n
            + t <= p && self.hands_sockets(ops.subrange(p - n - t, p).take(t)) && self.hands_dirs(
            ops.subrange(p - n - t, p).skip(t),
            None,
        ) by {
            self.lemma_first_form_is_finished(features, current, event, p);
            let row = ops.subrange(p - n - t, p);
            assert(row.take(t) =~= ops.subrange(p - n - t, p - n));
            assert(row.skip(t) =~= ops.subrange(p - n, p));
        }
    }

    /// Before a context of the first form is finished, each address of the
    /// command has been bound and its socket made nonblocking, one after the
    /// other, and then the program has been handed the sockets in the same
    /// order.
    pub proof fn law_context_has_the_bound_sockets(
        &self,
        features: Features,
        run: Run,
        i: int,
        k: int,
    )
        requires
            self.is_run(features, run),
            0 <= i < run.states.len(),
            run.states[i].current is FinishPreview1,
            0 <= k < self.tcplisten@.len(),
        ensures
            ({
                let n = 2 * (self.dirs@.len() + self.map_dirs@.len()) as int;
                let t = self.tcplisten@.len() as int;
                let start = i - n - 3 * t;
                &&& start >= 0
                &&& run.states[start + 2 * k].current == OpView::BindSocket(self.tcplisten@[k]@)
                &&& run.events[start + 2 * k] == EventView::Done
                &&& run.states[start + 2 * k + 1].current == OpView::UnblockSocket
                &&& run.events[start + 2 * k + 1] == EventView::Done
                &&& run.states[start + 2 * t + k].current matches OpView::PreopenSocket {
                    index,
                    ..
                } && index == k
            }),
    {
        let n = 2 * self.dir_count() as int;
        let t = self.tcplisten@.len() as int;
        self.lemma_sockets_were_handed(features, run, i);
        self.lemma_socket_in_row(run, i - n - 3 * t, i - n, i, k);
    }

    /// What a row of states does with the socket of an address.
    proof fn lemma_socket_in_row(&self, run: Run, start: int, end: int, i: int, k: int)
        requires
            0 <= start <= end <= i,
            end - start == 3 * self.tcplisten@.len(),
            self.hands_sockets(history(run, i).subrange(start, end)),
            0 <= k < self.tcplisten@.len(),
        ensures
            run.states[start + 2 * k].current == OpView::BindSocket(self.tcplisten@[k]@),
            run.states[start + 2 * k + 1].current == OpView::UnblockSocket,
            run.states[start + 2 * self.tcplisten@.len() + k].current matches OpView::PreopenSocket {
                index,
                ..
            } && index == k,
    {
        let t = self.tcplisten@.len() as int;
        let sockets = history(run, i).subrange(start, end);
        assert(sockets[2 * k] == run.states[start + 2 * k].current);
        assert(sockets[2 * k + 1] == run.states[start + 2 * k + 1].current);
        assert(sockets[2 * t + k] == run.states[start + 2 * t + k].current);
        assert(k < self.tcplisten.len());
    }

    /// The row that hands the sockets on was done before the directories.
    proof fn lemma_sockets_were_handed(&self, features: Features, run: Run, i: int)
        requires
            self.is_run(features, run),
            0 <= i < run.states.len(),
            run.states[i].current is FinishPreview1,
        ensures
            ({
                let n = 2 * self.dir_count() as int;
                let t = 3 * self.tcplisten@.len() as int;
                &&& i >= n + t
                &&& self.hands_sockets(history(run, i).subrange(i - n - t, i - n))
                &&& forall|j: int|
                    i - n - t <= j < i ==> (#[trigger] run.events[j]) == EventView::Done
            }),
    {
        let m = 2 * self.dir_count() + 3 * self.tcplisten@.len();
        let late = |op: OpView| op is FinishPreview1;
        let fits = |row: Seq<OpView>|
            self.hands_sockets(row.take(3 * self.tcplisten@.len() as int)) && self.hands_dirs(
                row.skip(3 * self.tcplisten@.len() as int),
                None,
            );
        assert forall|current: OpView, event: EventView| !(current is Fail) implies has_rows(
            #[trigger] self.reaction(features, current, event),
            late,
            m,
            fits,
        ) by {
            self.lemma_sockets_before_first_form(features, current, event);
        }
        assert forall|row: Seq<OpView>, q: int|
            #![trigger fits(row), row[q]]
            row.len() == m && fits(row) && 0 <= q < m implies is_simple(row[q]) by {
            self.lemma_rows_are_simple(row, q);
        }
        self.lemma_simple_row_is_done(features, run, late, m, fits, i);
        let row = history(run, i).subrange(i - m, i);
        let t = 3 * self.tcplisten@.len() as int;
        assert(row.take(t) =~= history(run, i).subrange(i - m, i - m + t));
    }

    /// What hands sockets and directories on is simple work.
    proof fn lemma_rows_are_simple(&self, row: Seq<OpView>, q: int)
        requires
            self.hands_sockets(row.take(3 * self.tcplisten@.len() as int)),
            self.hands_dirs(row.skip(3 * self.tcplisten@.len() as int), None),
            0 <= q < row.len(),
            3 * self.tcplisten@.len() <= row.len(),
        ensures
            is_simple(row[q]),
    {
        let t = 3 * self.tcplisten@.len() as int;
        if q < t {
            assert(row[q] == row.take(t)[q]);
        } else {
            assert(row[q] == row.skip(t)[q - t]);
        }
    }
}

} // verus!
