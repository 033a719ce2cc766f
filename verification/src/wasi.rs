//! What a program gets from WASI, and what has to be done for it.

use crate::command::{Features, RunCommand};
use crate::error::Problem;
use crate::plan::{
    all_permissions, failure_for, ModuleKind, Op, OpView, Permissions, Plan, Stage,
};
use crate::text::{copy_pairs, pairs};
use vstd::prelude::*;

verus! {

/// The first number for a socket of the program, behind its three streams.
pub const FIRST_FD: usize = 3;

/// A number of a socket as the program counts it.
pub open spec fn fd_of(number: int) -> u32 {
    number as u32
}

/// The first number behind that of the last inherited socket that was taken,
/// which has its position among the inherited ones.
pub open spec fn first_free_fd(last: Option<usize>) -> usize {
    match last {
        Some(position) => (FIRST_FD + position + 1) as usize,
        None => FIRST_FD,
    }
}

impl RunCommand {
    /// The variables of the program: those with a value are set, the others
    /// are looked up first.
    pub open spec fn var_ops(&self) -> Seq<OpView> {
        Seq::new(
            self.vars@.len(),
            |i: int|
                match self.vars@[i].1 {
                    Some(value) => OpView::SetVar(self.vars@[i].0@, value@),
                    None => OpView::ReadVar(self.vars@[i].0@),
                },
        )
    }

    /// Each address is bound, and the socket made nonblocking.
    pub open spec fn bind_ops(&self) -> Seq<OpView> {
        Seq::new(
            2 * self.tcplisten@.len(),
            |i: int|
                if i % 2 == 0 {
                    OpView::BindSocket(self.tcplisten@[i / 2]@)
                } else {
                    OpView::UnblockSocket
                },
        )
    }

    /// The bound sockets get numbers in a row from `num_fd` on.
    pub open spec fn socket_ops(&self, num_fd: usize) -> Seq<OpView> {
        Seq::new(
            self.tcplisten@.len(),
            |i: int| OpView::PreopenSocket { index: i as usize, fd: fd_of(num_fd + i) },
        )
    }

    /// All directories are opened before the program gets the first.
    pub open spec fn dir_ops(&self, permissions: Option<Permissions>) -> Seq<OpView> {
        let dirs = self.preopen_dirs();
        Seq::new(dirs.len(), |i: int| OpView::OpenDir(dirs[i].1)) + Seq::new(
            dirs.len(),
            |i: int| OpView::PreopenDir { index: i as usize, guest: dirs[i].0, permissions },
        )
    }

    /// What is left to do for a context of the first form once the inherited
    /// sockets are known.
    pub open spec fn preview1_rest(&self, num_fd: usize) -> Seq<OpView> {
        self.bind_ops() + self.socket_ops(num_fd) + self.dir_ops(None) + seq![
            OpView::FinishPreview1,
        ]
    }

    /// Inherited sockets are taken one by one from `index` on. The bound ones
    /// get the numbers behind that of the last that was taken.
    pub open spec fn listener_ops(
        &self,
        count: usize,
        index: usize,
        last: Option<usize>,
    ) -> Seq<OpView> {
        if index < count {
            seq![OpView::TakeListener { index, count, last }]
        } else {
            self.preview1_rest(first_free_fd(last))
        }
    }

    /// What is done for a context of the first form.
    pub open spec fn preview1_ops(&self, features: Features) -> Seq<OpView> {
        match self.argv() {
            Err(e) => seq![failure_for(e)],
            Ok(args) => {
                seq![OpView::NewPreview1, OpView::SetArgs(args)] + self.var_ops() + (
                if self.listenfd && features.unix {
                    seq![
                        OpView::ForwardVar("LISTEN_FDS"@),
                        OpView::ForwardVar("LISTEN_FDNAMES"@),
                        OpView::OpenListenFds,
                    ]
                } else {
                    self.preview1_rest(FIRST_FD)
                })
            },
        }
    }

    /// What is done for a context of the second form, which has no sockets:
    /// they are refused, though only once they are bound. Directories come
    /// with all permissions.
    pub open spec fn preview2_ops(&self) -> Seq<OpView> {
        match self.argv() {
            Err(e) => seq![failure_for(e)],
            Ok(args) => {
                seq![OpView::NewPreview2, OpView::SetArgs(args)] + self.var_ops() + (
                if self.listenfd {
                    seq![failure_for(Problem::ListenFdForComponent)]
                } else {
                    self.bind_ops() + (if self.tcplisten@.len() > 0 {
                        seq![failure_for(Problem::TcpListenForComponent)]
                    } else {
                        self.dir_ops(Some(all_permissions())) + seq![OpView::FinishPreview2]
                    })
                })
            },
        }
    }

    /// What is done for the modules that every program gets by default.
    pub open spec fn wasi_common_ops(&self, kind: ModuleKind) -> Seq<OpView> {
        if !self.wasi_modules().wasi_common {
            Seq::empty()
        } else {
            match kind {
                ModuleKind::Core => if self.preview2 {
                    seq![OpView::AddPreview1Adapter, OpView::Enter(Stage::Preview2)]
                } else {
                    seq![OpView::AddPreview1, OpView::Enter(Stage::Preview1)]
                },
                ModuleKind::Component => seq![
                    OpView::AddCommandWorld,
                    OpView::Enter(Stage::Preview2),
                ],
            }
        }
    }

    /// What is done for neural networks: all graphs of the command are
    /// loaded, in their order.
    pub open spec fn wasi_nn_ops(&self, features: Features, kind: ModuleKind) -> Seq<OpView> {
        if !self.wasi_modules().wasi_nn {
            Seq::empty()
        } else if !features.wasi_nn {
            seq![failure_for(Problem::WasiNnNotBuiltIn)]
        } else {
            seq![OpView::AddWasiNn(kind), OpView::PreloadGraphs(pairs(self.graphs@))]
        }
    }

    /// What is done for threads.
    pub open spec fn wasi_threads_ops(&self, features: Features, kind: ModuleKind) -> Seq<OpView> {
        if !self.wasi_modules().wasi_threads {
            Seq::empty()
        } else if !features.wasi_threads {
            seq![failure_for(Problem::WasiThreadsNotBuiltIn)]
        } else {
            match kind {
                ModuleKind::Core => seq![OpView::AddWasiThreads],
                ModuleKind::Component => seq![failure_for(Problem::WasiThreadsForComponent)],
            }
        }
    }

    /// What is done for HTTP: it is refused.
    pub open spec fn wasi_http_ops(&self, features: Features) -> Seq<OpView> {
        if !self.wasi_modules().wasi_http {
            Seq::empty()
        } else if !features.wasi_http {
            seq![failure_for(Problem::WasiHttpNotBuiltIn)]
        } else {
            seq![failure_for(Problem::WasiHttpReplaced)]
        }
    }

    /// What is done for WASI.
    pub open spec fn wasi_ops(&self, features: Features, kind: ModuleKind) -> Seq<OpView> {
        self.wasi_common_ops(kind) + self.wasi_nn_ops(features, kind) + self.wasi_threads_ops(
            features,
            kind,
        ) + self.wasi_http_ops(features)
    }

    /// Adds what sets the variables of the program.
    fn plan_vars(&self, plan: &mut Plan)
        ensures
            final(plan)@ == old(plan)@ + self.var_ops(),
    {
        let mut i: usize = 0;
        assert(plan@ =~= old(plan)@ + self.var_ops().take(0));
        while i < self.vars.len()
            invariant
                i <= self.vars@.len(),
                plan@ == old(plan)@ + self.var_ops().take(i as int),
            decreases self.vars@.len() - i,
        {
            let key: String = self.vars[i].0.clone();
            match &self.vars[i].1 {
                Some(value) => plan.push(Op::SetVar(key, value.clone())),
                None => plan.push(Op::ReadVar(key)),
            }
            i += 1;
            assert(plan@ =~= old(plan)@ + self.var_ops().take(i as int));
        }
        assert(self.var_ops().take(i as int) =~= self.var_ops());
    }

    /// What binds the addresses to listen on.
    pub fn compute_preopen_sockets(&self) -> (r: Plan)
        ensures
            r@ == self.bind_ops(),
    {
        let mut plan = Plan::new();
        let mut i: usize = 0;
        assert(plan@ =~= self.bind_ops().take(0));
        while i < self.tcplisten.len()
            invariant
                i <= self.tcplisten@.len(),
                plan@ == self.bind_ops().take(2 * i),
            decreases self.tcplisten@.len() - i,
        {
            plan.push(Op::BindSocket(self.tcplisten[i].clone()));
            plan.push(Op::UnblockSocket);
            i += 1;
            assert(plan@ =~= self.bind_ops().take(2 * i));
        }
        assert(self.bind_ops().take(2 * i) =~= self.bind_ops());
        plan
    }

    /// Adds what hands the bound sockets to the program.
    fn plan_sockets(&self, plan: &mut Plan, num_fd: usize)
        requires
            num_fd + self.tcplisten@.len() <= usize::MAX,
        ensures
            final(plan)@ == old(plan)@ + self.socket_ops(num_fd),
    {
        let mut i: usize = 0;
        assert(plan@ =~= old(plan)@ + self.socket_ops(num_fd).take(0));
        while i < self.tcplisten.len()
            invariant
                num_fd + self.tcplisten@.len() <= usize::MAX,
                i <= self.tcplisten@.len(),
                plan@ == old(plan)@ + self.socket_ops(num_fd).take(i as int),
            decreases self.tcplisten@.len() - i,
        {
            let number: usize = num_fd + i;
            let fd: u32 = #[verifier::truncate]
            (number as u32);
            plan.push(Op::PreopenSocket { index: i, fd });
            i += 1;
            assert(plan@ =~= old(plan)@ + self.socket_ops(num_fd).take(i as int));
        }
        assert(self.socket_ops(num_fd).take(i as int) =~= self.socket_ops(num_fd));
    }

    /// Adds what opens the directories and hands them to the program.
    fn plan_dirs(&self, plan: &mut Plan, permissions: Option<Permissions>)
        ensures
            final(plan)@ == old(plan)@ + self.dir_ops(permissions),
    {
        let dirs = self.compute_preopen_dirs();
        let mut i: usize = 0;
        assert(plan@ =~= old(plan)@ + self.dir_ops(permissions).take(0));
        while i < dirs.len()
            invariant
                i <= dirs@.len(),
                pairs(dirs@) == self.preopen_dirs(),
                plan@ == old(plan)@ + self.dir_ops(permissions).take(i as int),
            decreases dirs@.len() - i,
        {
            assert(pairs(dirs@)[i as int] == (dirs@[i as int].0@, dirs@[i as int].1@));
            plan.push(Op::OpenDir(dirs[i].1.clone()));
            i += 1;
            assert(plan@ =~= old(plan)@ + self.dir_ops(permissions).take(i as int));
        }
        let mut k: usize = 0;
        while k < dirs.len()
            invariant
                k <= dirs@.len(),
                pairs(dirs@) == self.preopen_dirs(),
                plan@ == old(plan)@ + self.dir_ops(permissions).take(dirs@.len() + k),
            decreases dirs@.len() - k,
        {
            assert(pairs(dirs@)[k as int] == (dirs@[k as int].0@, dirs@[k as int].1@));
            plan.push(Op::PreopenDir { index: k, guest: dirs[k].0.clone(), permissions });
            k += 1;
            assert(plan@ =~= old(plan)@ + self.dir_ops(permissions).take(dirs@.len() + k));
        }
        assert(self.dir_ops(permissions).take(dirs@.len() + k) =~= self.dir_ops(permissions));
    }

    /// What is left to do for a context of the first form once the inherited
    /// sockets are known.
    fn plan_preview1_rest(&self, num_fd: usize) -> (r: Plan)
        requires
            num_fd + self.tcplisten@.len() <= usize::MAX,
        ensures
            r@ == self.preview1_rest(num_fd),
    {
        let mut plan = self.compute_preopen_sockets();
        self.plan_sockets(&mut plan, num_fd);
        self.plan_dirs(&mut plan, None);
        plan.push(Op::FinishPreview1);
        assert(plan@ =~= self.preview1_rest(num_fd));
        plan
    }

    /// What is done with inherited sockets from `index` on, of `count`, when
    /// `last` is the position of the last one that was taken.
    pub fn ctx_set_listenfd(&self, count: usize, index: usize, last: Option<usize>) -> (r: Plan)
        requires
            FIRST_FD + self.tcplisten@.len() <= usize::MAX,
            last matches Some(position) ==> FIRST_FD + position + 1 + self.tcplisten@.len()
                <= usize::MAX,
        ensures
            r@ == self.listener_ops(count, index, last),
    {
        if index < count {
            Plan::of(Op::TakeListener { index, count, last })
        } else {
            let num_fd: usize = match last {
                Some(position) => FIRST_FD + position + 1,
                None => FIRST_FD,
            };
            self.plan_preview1_rest(num_fd)
        }
    }

    /// What is done for a context of the first form.
    pub fn set_preview1_ctx(&self, features: &Features) -> (r: Plan)
        requires
            self.wf(),
            self.main_arg().components@.len() > 0,
            FIRST_FD + self.tcplisten@.len() <= usize::MAX,
        ensures
            r@ == self.preview1_ops(*features),
    {
        match self.compute_argv() {
            Err(e) => Plan::of(Op::fail(e)),
            Ok(args) => {
                let mut plan = Plan::new();
                plan.push(Op::NewPreview1);
                plan.push(Op::SetArgs(args));
                self.plan_vars(&mut plan);
                if self.listenfd && features.unix {
                    plan.push(Op::ForwardVar("LISTEN_FDS".to_owned()));
                    plan.push(Op::ForwardVar("LISTEN_FDNAMES".to_owned()));
                    plan.push(Op::OpenListenFds);
                } else {
                    plan.append(self.plan_preview1_rest(FIRST_FD));
                }
                assert(plan@ =~= self.preview1_ops(*features));
                plan
            },
        }
    }

    /// What is done for a context of the second form.
    pub fn set_preview2_ctx(&self) -> (r: Plan)
        requires
            self.wf(),
            self.main_arg().components@.len() > 0,
        ensures
            r@ == self.preview2_ops(),
    {
        match self.compute_argv() {
            Err(e) => Plan::of(Op::fail(e)),
            Ok(args) => {
                let mut plan = Plan::new();
                plan.push(Op::NewPreview2);
                plan.push(Op::SetArgs(args));
                self.plan_vars(&mut plan);
                if self.listenfd {
                    plan.push(Op::fail(Problem::ListenFdForComponent));
                } else {
                    plan.append(self.compute_preopen_sockets());
                    if self.tcplisten.len() > 0 {
                        plan.push(Op::fail(Problem::TcpListenForComponent));
                    } else {
                        let permissions = Permissions {
                            read_dir: true,
                            mutate_dir: true,
                            read_files: true,
                            write_files: true,
                        };
                        self.plan_dirs(&mut plan, Some(permissions));
                        plan.push(Op::FinishPreview2);
                    }
                }
                assert(plan@ =~= self.preview2_ops());
                plan
            },
        }
    }

    /// What is done for WASI, for a main module of some kind.
    pub fn populate_with_wasi(&self, features: &Features, kind: ModuleKind) -> (r: Plan)
        ensures
            r@ == self.wasi_ops(*features, kind),
    {
        let wasi_modules = self.enabled_wasi_modules();
        let mut plan = Plan::new();
        if wasi_modules.wasi_common {
            match kind {
                ModuleKind::Core => {
                    if self.preview2 {
                        plan.push(Op::AddPreview1Adapter);
                        plan.push(Op::Enter(Stage::Preview2));
                    } else {
                        plan.push(Op::AddPreview1);
                        plan.push(Op::Enter(Stage::Preview1));
                    }
                },
                ModuleKind::Component => {
                    plan.push(Op::AddCommandWorld);
                    plan.push(Op::Enter(Stage::Preview2));
                },
            }
        }
        assert(plan@ =~= self.wasi_common_ops(kind));
        let ghost common = plan@;
        if wasi_modules.wasi_nn {
            if !features.wasi_nn {
                plan.push(Op::fail(Problem::WasiNnNotBuiltIn));
            } else {
                plan.push(Op::AddWasiNn(kind));
                plan.push(Op::PreloadGraphs(copy_pairs(&self.graphs)));
            }
        }
        assert(plan@ =~= common + self.wasi_nn_ops(*features, kind));
        let ghost with_nn = plan@;
        if wasi_modules.wasi_threads {
            if !features.wasi_threads {
                plan.push(Op::fail(Problem::WasiThreadsNotBuiltIn));
            } else {
                match kind {
                    ModuleKind::Core => plan.push(Op::AddWasiThreads),
                    ModuleKind::Component => plan.push(Op::fail(Problem::WasiThreadsForComponent)),
                }
            }
        }
        assert(plan@ =~= with_nn + self.wasi_threads_ops(*features, kind));
        let ghost with_threads = plan@;
        if wasi_modules.wasi_http {
            if !features.wasi_http {
                plan.push(Op::fail(Problem::WasiHttpNotBuiltIn));
            } else {
                plan.push(Op::fail(Problem::WasiHttpReplaced));
            }
        }
        assert(plan@ =~= with_threads + self.wasi_http_ops(*features));
        plan
    }

    /// The sockets that the command binds get numbers in a row, each its
    /// own, as long as the numbers fit.
    pub proof fn law_bound_sockets_have_their_own_numbers(&self, num_fd: usize, i: int, j: int)
        requires
            num_fd + self.tcplisten@.len() <= u32::MAX,
            0 <= i < j < self.tcplisten@.len(),
        ensures
            self.socket_ops(num_fd)[i] == (OpView::PreopenSocket {
                index: i as usize,
                fd: (num_fd + i) as u32,
            }),
            self.socket_ops(num_fd)[i]->fd < self.socket_ops(num_fd)[j]->fd,
    {
    }

    /// Where there are no sockets, both forms of WASI give a program the
    /// same: the same arguments, the same variables, and the same directories
    /// under the same names in the same order. The second form gives all
    /// permissions for each directory.
    pub proof fn law_both_forms_give_the_same(&self, features: Features, i: int)
        requires
            !self.listenfd,
            self.tcplisten@.len() == 0,
            self.argv() is Ok,
            0 <= i < self.preview1_ops(features).len(),
        ensures
            self.preview1_ops(features).len() == self.preview2_ops().len(),
            same_but_for_form(self.preview1_ops(features)[i], self.preview2_ops()[i]),
    {
        let front = seq![OpView::NewPreview1, OpView::SetArgs(self.argv()->Ok_0)] + self.var_ops();
        let other = seq![OpView::NewPreview2, OpView::SetArgs(self.argv()->Ok_0)] + self.var_ops();
        let first = self.dir_ops(None);
        let second = self.dir_ops(Some(all_permissions()));
        assert(self.bind_ops() =~= Seq::<OpView>::empty());
        assert(self.socket_ops(FIRST_FD) =~= Seq::<OpView>::empty());
        assert(self.preview1_ops(features) =~= front + first + seq![OpView::FinishPreview1]);
        assert(self.preview2_ops() =~= other + second + seq![OpView::FinishPreview2]);
    }
}

/// Two pieces of work are the same, each in its form of WASI.
pub open spec fn same_but_for_form(first: OpView, second: OpView) -> bool {
    match (first, second) {
        (OpView::NewPreview1, OpView::NewPreview2) => true,
        (OpView::FinishPreview1, OpView::FinishPreview2) => true,
        (
            OpView::PreopenDir { index, guest, permissions },
            OpView::PreopenDir { index: position, guest: name, permissions: given },
        ) => index == position && guest == name && permissions is None && given == Some(
            all_permissions(),
        ),
        _ => first == second,
    }
}

} // verus!
