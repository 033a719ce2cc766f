//! What follows single pieces of work: calls and what came of them, core
//! dumps, and variables.

use crate::command::{Features, RunCommand};
use crate::coredump::coredump_of;
use crate::error::Problem;
use crate::execute::{ProgressView, StepView};
use crate::number::numeral;
use crate::parse::Profile;
use crate::plan::{CauseView, EventView, FailureView, Frame, OpView, Stage};
use crate::run::Run;
use crate::value::Val;
use vstd::prelude::*;

verus! {

/// A value is printed as a text from which it can be read again, or, of a
/// reference, as its kind. Floating point numbers are handed on as they are.
pub open spec fn prints_value(op: OpView, v: Val) -> bool {
    match v {
        Val::I32(n) => op matches OpView::PrintText(text) && numeral(text, true) == Some(n as int),
        Val::I64(n) => op matches OpView::PrintText(text) && numeral(text, true) == Some(n as int),
        Val::V128(n) => op matches OpView::PrintText(text) && numeral(text, false) == Some(
            n as int,
        ),
        Val::F32(_) => op == OpView::PrintResult(v),
        Val::F64(_) => op == OpView::PrintResult(v),
        Val::ExternRef => op == OpView::PrintText("<externref>"@),
        Val::FuncRef => op == OpView::PrintText("<funcref>"@),
    }
}

impl RunCommand {
    /// The name under which a core dump names the program.
    pub open spec fn dumped_name(&self) -> Seq<char> {
        match self.module_and_args@[0].whole.utf8 {
            Some(text) => text@,
            None => "unknown"@,
        }
    }

    /// What is said of a call that failed.
    pub open spec fn call_context(&self, call: OpView) -> Seq<char> {
        if call is CallRun {
            "failed to invoke `run` function"@
        } else {
            match self.invoke {
                Some(name) => "failed to invoke `"@ + name@ + "`"@,
                None => "failed to invoke command default"@,
            }
        }
    }

    /// The end of a run in the main module, in some contexts.
    pub open spec fn ends_in_main(&self, step: StepView, cause: CauseView, contexts: Seq<Seq<char>>) -> bool {
        step matches StepView::Finished(Err(failure)) && failure.in_main && failure.cause == cause
            && failure.contexts =~= contexts.push(
            "failed to run main module `"@ + self.module_and_args@[0].whole.lossy@ + "`"@,
        )
    }

    /// Where the command asks for core dumps, a trap whose stack is known is
    /// dumped next, to the path that the command gives, with the name of the
    /// program and all of the stack: in core modules and in components alike.
    pub proof fn law_traps_are_dumped(
        &self,
        features: Features,
        run: Run,
        i: int,
        path: Seq<char>,
        frames: Seq<Frame>,
    )
        requires
            self.is_run(features, run),
            0 <= i < run.events.len(),
            run.states[i].current is CallFunction || run.states[i].current is CallRun,
            run.events[i] == (EventView::Raised { trap: true, backtrace: Some(frames) }),
            self.coredump_on_trap matches Some(given) && given@ == path,
        ensures
            run.states[i + 1].current == (OpView::CreateCoredump {
                path,
                bytes: coredump_of(self.dumped_name(), frames),
                context: self.call_context(run.states[i].current),
            }),
            run.states[i + 1].pending == run.states[i].pending,
    {
        let s = run.states[i];
        assert(self.follows(features, run.states[i], run.events[i], run.states[i + 1]));
        self.law_trap_is_dumped_next(features, s, path, frames);
    }

    /// The same of every state in which a call is made, whether a run comes
    /// to it or not.
    pub proof fn law_trap_is_dumped_next(
        &self,
        features: Features,
        progress: ProgressView,
        path: Seq<char>,
        frames: Seq<Frame>,
    )
        requires
            progress.current is CallFunction || progress.current is CallRun,
            self.coredump_on_trap matches Some(given) && given@ == path,
        ensures
            self.next_step(
                features,
                progress,
                EventView::Raised { trap: true, backtrace: Some(frames) },
            ) == StepView::Perform(
                ProgressView {
                    current: OpView::CreateCoredump {
                        path,
                        bytes: coredump_of(self.dumped_name(), frames),
                        context: self.call_context(progress.current),
                    },
                    pending: progress.pending,
                },
            ),
    {
        let event = EventView::Raised { trap: true, backtrace: Some(frames) };
        let ops = self.reaction(features, progress.current, event);
        assert(ops.len() == 1);
        assert((ops + progress.pending).skip(1) =~= progress.pending);
    }

    /// A call that failed ends the run with its error, in a context that names
    /// the call, where nothing is to be dumped: no core dumps are asked for,
    /// or it was no trap.
    pub proof fn law_failed_calls_end_the_run(
        &self,
        features: Features,
        progress: ProgressView,
        event: EventView,
    )
        requires
            progress.current is CallFunction || progress.current is CallRun,
            match event {
                EventView::Failed(_) => true,
                EventView::Raised { trap, .. } => !trap || self.coredump_on_trap is None,
                _ => false,
            },
            !(self.profile matches Some(Profile::Guest { .. })),
        ensures
            self.ends_in_main(
                self.next_step(features, progress, event),
                CauseView::Outside,
                seq![self.call_context(progress.current)],
            ),
    {
        let ops = self.reaction(features, progress.current, event);
        assert(ops.len() == 1);
        assert((ops + progress.pending)[0] == ops[0]);
    }

    /// A trap whose stack is not known is not dumped, which is said, and the
    /// run ends then.
    pub proof fn law_traps_without_a_stack_are_not_dumped(
        &self,
        features: Features,
        progress: ProgressView,
    )
        requires
            progress.current is CallFunction || progress.current is CallRun,
            self.coredump_on_trap is Some,
        ensures
            ({
                let event = EventView::Raised { trap: true, backtrace: None };
                self.next_step(features, progress, event) matches StepView::Perform(next)
                    && next.current == OpView::Say(
                    "warning: coredump failed to generate: "@
                        + "no wasm backtrace found to generate coredump with"@,
                )
            }),
    {
        let event = EventView::Raised { trap: true, backtrace: None };
        let ops = self.reaction(features, progress.current, event);
        assert((ops + progress.pending)[0] == ops[0]);
    }

    /// A core dump is written to the file that was created for it, whole. The
    /// run then ends with the error of the call, in contexts that name the
    /// call and the file. Where the file cannot be created or written, that is
    /// said, and the run goes on to its end.
    pub proof fn law_dumps_are_written_whole(
        &self,
        features: Features,
        path: Seq<char>,
        bytes: Seq<u8>,
        context: Seq<char>,
        pending: Seq<OpView>,
        text: Seq<char>,
    )
        ensures
            ({
                let create = ProgressView {
                    current: OpView::CreateCoredump { path, bytes, context },
                    pending,
                };
                let write = ProgressView {
                    current: OpView::WriteCoredump { path, bytes, context },
                    pending,
                };
                &&& self.next_step(features, create, EventView::Done) == StepView::Perform(write)
                &&& self.next_step(features, create, EventView::Failed(text)) matches StepView::Perform(
                    next,
                ) && next.current == OpView::Say(
                    "warning: coredump failed to generate: "@ + ("failed to create file at `"@ + path
                        + "`"@),
                )
                &&& self.next_step(features, write, EventView::Failed(text)) matches StepView::Perform(
                    next,
                ) && next.current == OpView::Say(
                    "warning: coredump failed to generate: "@ + ("failed to write coredump file at `"@
                        + path + "`"@),
                )
                &&& !(self.profile matches Some(Profile::Guest { .. })) ==> self.ends_in_main(
                    self.next_step(features, write, EventView::Done),
                    CauseView::Outside,
                    seq![context, "core dumped at "@ + path],
                )
            }),
    {
        let create = OpView::CreateCoredump { path, bytes, context };
        let write = OpView::WriteCoredump { path, bytes, context };
        let created = self.reaction(features, create, EventView::Done);
        let failed = self.reaction(features, create, EventView::Failed(text));
        let written = self.reaction(features, write, EventView::Done);
        let unwritten = self.reaction(features, write, EventView::Failed(text));
        assert((created + pending).skip(1) =~= pending);
        assert((created + pending)[0] == write);
        assert((failed + pending)[0] == failed[0]);
        assert((unwritten + pending)[0] == unwritten[0]);
        assert((written + pending)[0] == written[0]);
    }

    /// All results of a function are printed in their order, behind a warning
    /// where there are some: each from which it can be read again.
    pub proof fn law_results_are_printed(
        &self,
        features: Features,
        args: Seq<Val>,
        values: Seq<Val>,
        k: int,
    )
        requires
            0 <= k < values.len(),
        ensures
            ({
                let ops = self.reaction(
                    features,
                    OpView::CallFunction(args),
                    EventView::Returned(values),
                );
                &&& ops.len() >= values.len() + 1
                &&& ops[0] is Say
                &&& prints_value(ops[k + 1], values[k])
                &&& !(self.profile matches Some(Profile::Guest { .. })) ==> ops.len()
                    == values.len() + 1
            }),
    {
        let ops = self.reaction(features, OpView::CallFunction(args), EventView::Returned(values));
        assert(ops[k + 1] == crate::invoke::result_op(values[k]));
        match values[k] {
            Val::I32(n) => crate::number::law_printed_integer_is_read_back(n as int),
            Val::I64(n) => crate::number::law_printed_integer_is_read_back(n as int),
            Val::V128(n) => crate::number::law_printed_integer_is_read_back(n as int),
            _ => {},
        }
    }

    /// The program of a component that did not end well makes the run end with
    /// the status of a failure; one that did lets it go on.
    pub proof fn law_components_tell_how_they_ended(&self, features: Features, pending: Seq<OpView>)
        requires
            !(self.profile matches Some(Profile::Guest { .. })),
        ensures
            ({
                let call = ProgressView { current: OpView::CallRun, pending };
                &&& self.ends_in_main(
                    self.next_step(features, call, EventView::Ran(false)),
                    CauseView::Exit(1),
                    Seq::empty(),
                )
                &&& pending.len() == 0 ==> self.next_step(features, call, EventView::Ran(true))
                    == StepView::Finished(Ok(()))
            }),
    {
        let well = self.reaction(features, OpView::CallRun, EventView::Ran(true));
        let badly = self.reaction(features, OpView::CallRun, EventView::Ran(false));
        assert(badly.len() == 1);
        assert((badly + pending)[0] == badly[0]);
        assert(well + pending =~= pending);
    }

    /// Both forms of WASI begin with the arguments of the program and then
    /// deal with its variables in their order: one with a value is set to it,
    /// one without is looked up.
    pub proof fn law_contexts_begin_with_arguments_and_variables(
        &self,
        features: Features,
        event: EventView,
        second: bool,
        k: int,
    )
        requires
            self.argv() is Ok,
            0 <= k < self.vars@.len(),
        ensures
            ({
                let stage = if second {
                    Stage::Preview2
                } else {
                    Stage::Preview1
                };
                let ops = self.reaction(features, OpView::Enter(stage), event);
                &&& ops.len() > self.vars@.len() + 2
                &&& ops[0] == (if second {
                    OpView::NewPreview2
                } else {
                    OpView::NewPreview1
                })
                &&& ops[1] == OpView::SetArgs(self.argv()->Ok_0)
                &&& ops[k + 2] == (match self.vars@[k].1 {
                    Some(value) => OpView::SetVar(self.vars@[k].0@, value@),
                    None => OpView::ReadVar(self.vars@[k].0@),
                })
            }),
    {
        let vars = self.var_ops();
        let stage = if second {
            Stage::Preview2
        } else {
            Stage::Preview1
        };
        let ops = self.reaction(features, OpView::Enter(stage), event);
        assert(ops[k + 2] == vars[k]);
    }

    /// A variable that was looked up is set, under its own name, to the value
    /// that was found, with everything else still pending. One that is not set
    /// ends the run and is named; one that need not be set is left out.
    pub proof fn law_variables_are_inherited(
        &self,
        features: Features,
        key: Seq<char>,
        value: Seq<char>,
        pending: Seq<OpView>,
    )
        ensures
            ({
                let read = ProgressView { current: OpView::ReadVar(key), pending };
                let forward = ProgressView { current: OpView::ForwardVar(key), pending };
                let set = StepView::Perform(
                    ProgressView { current: OpView::SetVar(key, value), pending },
                );
                &&& self.next_step(features, read, EventView::Text(value)) == set
                &&& self.next_step(features, forward, EventView::Text(value)) == set
                &&& self.next_step(features, read, EventView::Failed(value)) == StepView::Finished(
                    Err(
                        FailureView {
                            cause: CauseView::Own(Problem::NoVariable(key)),
                            contexts: Seq::empty(),
                            in_main: false,
                        },
                    ),
                )
                &&& self.next_step(features, forward, EventView::Failed(value))
                    == crate::execute::advance(pending)
            }),
    {
        let found = self.reaction(features, OpView::ReadVar(key), EventView::Text(value));
        let missing = self.reaction(features, OpView::ReadVar(key), EventView::Failed(value));
        let none = self.reaction(features, OpView::ForwardVar(key), EventView::Failed(value));
        let some = self.reaction(features, OpView::ForwardVar(key), EventView::Text(value));
        assert((found + pending).skip(1) =~= pending);
        assert((some + pending).skip(1) =~= pending);
        assert((missing + pending)[0] == missing[0]);
        assert(none + pending =~= pending);
    }
}

} // verus!
