//! How the main module is run: what is invoked with which arguments, what is
//! printed, and what is done about time, profiles and traps.

use crate::command::{PathArg, RunCommand};
use crate::coredump::{coredump_of, dumpable, generate_coredump};
use crate::error::{message_of, Problem, Reason, ReasonView};
use crate::number::{
    decimal, denotes, i32_complaint, i64_complaint, law_printed_integer_is_read_back, numeral,
    parse_i32, parse_i64, parse_u32, parse_u64, show_signed, show_unsigned, signed_decimal,
    u32_complaint, u64_complaint,
};
use crate::parse::Profile;
use crate::plan::{Cause, CauseView, Failure, FailureView, Frame, ModuleKind, Op, OpView, Plan, Stage};
use crate::span::{
    after_epochs, law_sampling_goes_on_without_a_limit, law_time_is_up_at_the_last_epoch,
    lemma_ticks, ticks, ticks_of,
};
use crate::text::{join, join3, texts};
use crate::value::{Val, ValType};
use vstd::prelude::*;

verus! {

/// The value that a text denotes for a parameter. The floating point types
/// take the bits of a number, written as an integer.
pub open spec fn value_of(text: Seq<char>, ty: ValType) -> Result<Val, ReasonView> {
    match ty {
        ValType::I32 => if denotes(text, true, i32::MIN as int, i32::MAX as int) {
            Ok(Val::I32(numeral(text, true)->0 as i32))
        } else {
            Err(Problem::Integer(i32_complaint(text)))
        },
        ValType::I64 => if denotes(text, true, i64::MIN as int, i64::MAX as int) {
            Ok(Val::I64(numeral(text, true)->0 as i64))
        } else {
            Err(Problem::Integer(i64_complaint(text)))
        },
        ValType::F32 => if denotes(text, false, 0, u32::MAX as int) {
            Ok(Val::F32(numeral(text, false)->0 as u32))
        } else {
            Err(Problem::Integer(u32_complaint(text)))
        },
        ValType::F64 => if denotes(text, false, 0, u64::MAX as int) {
            Ok(Val::F64(numeral(text, false)->0 as u64))
        } else {
            Err(Problem::Integer(u64_complaint(text)))
        },
        _ => Err(Problem::UnsupportedType(ty)),
    }
}

/// Reads the value for a parameter.
pub fn parse_value(text: &str, ty: ValType) -> (r: Result<Val, Reason>)
    ensures
        match r {
            Ok(v) => value_of(text@, ty) == Ok::<Val, ReasonView>(v),
            Err(e) => value_of(text@, ty) == Err::<Val, ReasonView>(e@),
        },
{
    match ty {
        ValType::I32 => match parse_i32(text) {
            Ok(v) => Ok(Val::I32(v)),
            Err(t) => Err(Problem::Integer(t)),
        },
        ValType::I64 => match parse_i64(text) {
            Ok(v) => Ok(Val::I64(v)),
            Err(t) => Err(Problem::Integer(t)),
        },
        ValType::F32 => match parse_u32(text) {
            Ok(v) => Ok(Val::F32(v)),
            Err(t) => Err(Problem::Integer(t)),
        },
        ValType::F64 => match parse_u64(text) {
            Ok(v) => Ok(Val::F64(v)),
            Err(t) => Err(Problem::Integer(t)),
        },
        _ => Err(Problem::UnsupportedType(ty)),
    }
}

/// An argument is read as the integer that it denotes, sign and all, exactly
/// where that is in the range of the parameter. For the floating point types
/// it denotes the bits. No argument can be given for other types.
pub proof fn law_arguments_are_what_they_denote(text: Seq<char>, v: Val, ty: ValType)
    ensures
        ty == ValType::I32 ==> (value_of(text, ty) == Ok::<Val, ReasonView>(v) <==> (v matches Val::I32(
            n,
        ) && numeral(text, true) == Some(n as int))),
        ty == ValType::I64 ==> (value_of(text, ty) == Ok::<Val, ReasonView>(v) <==> (v matches Val::I64(
            n,
        ) && numeral(text, true) == Some(n as int))),
        ty == ValType::F32 ==> (value_of(text, ty) == Ok::<Val, ReasonView>(v) <==> (v matches Val::F32(
            n,
        ) && numeral(text, false) == Some(n as int))),
        ty == ValType::F64 ==> (value_of(text, ty) == Ok::<Val, ReasonView>(v) <==> (v matches Val::F64(
            n,
        ) && numeral(text, false) == Some(n as int))),
        ty == ValType::V128 || ty == ValType::FuncRef || ty == ValType::ExternRef ==> value_of(
            text,
            ty,
        ) == Err::<Val, ReasonView>(Problem::UnsupportedType(ty)),
        value_of(text, ty) matches Err(e) ==> match ty {
            ValType::I32 => e == ReasonView::Integer(i32_complaint(text)),
            ValType::I64 => e == ReasonView::Integer(i64_complaint(text)),
            ValType::F32 => e == ReasonView::Integer(u32_complaint(text)),
            ValType::F64 => e == ReasonView::Integer(u64_complaint(text)),
            _ => e == ReasonView::UnsupportedType(ty),
        },
{
}

/// Every integer can be given as an argument: it is read back from its
/// decimal form, and so are the bits of a floating point number.
pub proof fn law_every_integer_can_be_given(a: i32, b: i64, c: u32, d: u64)
    ensures
        value_of(signed_decimal(a as int), ValType::I32) == Ok::<Val, ReasonView>(Val::I32(a)),
        value_of(signed_decimal(b as int), ValType::I64) == Ok::<Val, ReasonView>(Val::I64(b)),
        value_of(decimal(c as nat), ValType::F32) == Ok::<Val, ReasonView>(Val::F32(c)),
        value_of(decimal(d as nat), ValType::F64) == Ok::<Val, ReasonView>(Val::F64(d)),
{
    law_printed_integer_is_read_back(a as int);
    law_printed_integer_is_read_back(b as int);
    law_printed_integer_is_read_back(c as int);
    law_printed_integer_is_read_back(d as int);
}

/// What is said before a function with parameters is called.
pub open spec fn arguments_warning() -> Seq<char> {
    "warning: using `--invoke` with a function that takes arguments is experimental and may break in the future"@
}

/// What is said before results are printed.
pub open spec fn results_warning() -> Seq<char> {
    "warning: using `--invoke` with a function that returns values is experimental and may break in the future"@
}

/// How a result is printed: an integer in decimal, a vector as the number
/// that its bits make up, and of a reference only the kind. A floating point
/// number is printed from its bits.
pub open spec fn result_op(value: Val) -> OpView {
    match value {
        Val::I32(v) => OpView::PrintText(signed_decimal(v as int)),
        Val::I64(v) => OpView::PrintText(signed_decimal(v as int)),
        Val::V128(v) => OpView::PrintText(decimal(v as nat)),
        Val::ExternRef => OpView::PrintText("<externref>"@),
        Val::FuncRef => OpView::PrintText("<funcref>"@),
        Val::F32(_) => OpView::PrintResult(value),
        Val::F64(_) => OpView::PrintResult(value),
    }
}

/// How all results are printed, in their order.
pub open spec fn result_ops(values: Seq<Val>) -> Seq<OpView> {
    Seq::new(values.len(), |i: int| result_op(values[i]))
}

impl RunCommand {
    /// The end of a run in the main module.
    pub open spec fn main_failure(&self, cause: CauseView, contexts: Seq<Seq<char>>) -> OpView {
        OpView::Fail(
            FailureView { cause, contexts: contexts.push(self.main_context()), in_main: true },
        )
    }

    /// What is done once the main module has run, whatever came of it.
    pub open spec fn finish_ops(&self) -> Seq<OpView> {
        match self.profile {
            Some(Profile::Guest { path, .. }) => seq![OpView::WriteProfile(path@)],
            _ => Seq::empty(),
        }
    }

    /// The name of the invoked function, unless it is the default one.
    pub open spec fn invoke_name(&self) -> Option<Seq<char>> {
        match self.invoke {
            Some(name) => Some(name@),
            None => None,
        }
    }

    /// The value for the parameter with position `i`, from the argument
    /// behind the module and those before it.
    pub open spec fn argument(&self, i: int, ty: ValType) -> Result<Val, ReasonView> {
        if i + 1 >= self.module_and_args@.len() {
            Err(Problem::NotEnoughArguments(self.invoke_name()))
        } else {
            match self.module_and_args@[i + 1].whole.utf8 {
                None => Err(
                    Problem::ArgumentForFunction(self.module_and_args@[i + 1].whole.quoted@),
                ),
                Some(text) => value_of(text@, ty),
            }
        }
    }

    /// `i` is the first parameter for which there is no value.
    pub open spec fn first_bad_parameter(&self, params: Seq<ValType>, i: int) -> bool {
        &&& 0 <= i < params.len()
        &&& self.argument(i, params[i]) is Err
        &&& forall|j: int| 0 <= j < i ==> (#[trigger] self.argument(j, params[j])) is Ok
    }

    /// The values for all parameters; arguments behind them are not looked
    /// at.
    pub open spec fn arguments(&self, params: Seq<ValType>) -> Result<Seq<Val>, ReasonView> {
        if exists|i: int| self.first_bad_parameter(params, i) {
            let i = choose|i: int| self.first_bad_parameter(params, i);
            Err(self.argument(i, params[i])->Err_0)
        } else {
            Ok(Seq::new(params.len(), |i: int| self.argument(i, params[i])->Ok_0))
        }
    }

    /// What is done with a function once its parameters are known.
    pub open spec fn invoke_ops(&self, params: Seq<ValType>) -> Seq<OpView> {
        (if params.len() > 0 {
            seq![OpView::Say(arguments_warning())]
        } else {
            Seq::empty()
        }) + match self.arguments(params) {
            Ok(values) => seq![OpView::CallFunction(values)],
            Err(e) => self.finish_ops() + seq![
                self.main_failure(CauseView::Own(e), Seq::empty()),
            ],
        }
    }

    /// What is done with the results of a function.
    pub open spec fn returned_ops(&self, values: Seq<Val>) -> Seq<OpView> {
        (if values.len() > 0 {
            seq![OpView::Say(results_warning())]
        } else {
            Seq::empty()
        }) + result_ops(values) + self.finish_ops()
    }

    /// The context of a failure of the invoked function.
    pub open spec fn invoke_context(&self) -> Seq<char> {
        match self.invoke {
            Some(name) => "failed to invoke `"@ + name@ + "`"@,
            None => "failed to invoke command default"@,
        }
    }

    /// The name of the program in a core dump.
    pub open spec fn source_name(&self) -> Seq<char> {
        match self.main_arg().whole.utf8 {
            Some(text) => text@,
            None => "unknown"@,
        }
    }

    /// What is said where there is no core dump for a trap.
    pub open spec fn coredump_warning(&self, reason: Seq<char>) -> OpView {
        OpView::Say("warning: coredump failed to generate: "@ + reason)
    }

    /// How a run ends after the function that it called failed.
    pub open spec fn raised_end(&self, contexts: Seq<Seq<char>>) -> Seq<OpView> {
        self.finish_ops() + seq![self.main_failure(CauseView::Outside, contexts)]
    }

    /// A core dump is asked for and can be written.
    pub open spec fn dumps(&self, trap: bool, backtrace: Option<Seq<Frame>>) -> bool {
        self.coredump_on_trap is Some && trap && backtrace is Some
    }

    /// What is done after a function failed, in some context.
    pub open spec fn raised_ops(
        &self,
        context: Seq<char>,
        trap: bool,
        backtrace: Option<Seq<Frame>>,
    ) -> Seq<OpView> {
        match self.coredump_on_trap {
            Some(path) => {
                if !trap {
                    self.raised_end(seq![context])
                } else {
                    match backtrace {
                        None => seq![
                            self.coredump_warning(message_of(Problem::NoBacktrace)),
                        ] + self.raised_end(seq![context]),
                        Some(frames) => seq![
                            OpView::CreateCoredump {
                                path: path@,
                                bytes: coredump_of(self.source_name(), frames),
                                context,
                            },
                        ],
                    }
                }
            },
            None => self.raised_end(seq![context]),
        }
    }

    /// The name of the main module in a profile.
    pub open spec fn profiled_name(&self) -> Seq<char> {
        match self.main_arg().whole.utf8 {
            Some(text) => text@,
            None => "<main module>"@,
        }
    }

    /// The time for a run is not nothing where it is counted in samples.
    pub open spec fn countable(&self) -> bool {
        match (self.profile, self.wasm_timeout) {
            (Some(Profile::Guest { .. }), Some(timeout)) => timeout.nanoseconds() > 0,
            _ => true,
        }
    }

    /// What is done about time and profiles.
    pub open spec fn epoch_ops(&self) -> Seq<OpView> {
        match self.profile {
            Some(Profile::Guest { path, interval }) => seq![
                OpView::StartProfile { name: self.profiled_name(), interval },
                OpView::WatchEpochs(
                    match self.wasm_timeout {
                        Some(timeout) => Some(ticks_of(timeout, interval) as u64),
                        None => None,
                    },
                ),
                OpView::SetEpochDeadline(1),
                OpView::SpawnTicker(interval),
            ],
            _ => match self.wasm_timeout {
                Some(timeout) => seq![OpView::SetEpochDeadline(1), OpView::SpawnTimer(timeout)],
                None => Seq::empty(),
            },
        }
    }

    /// What is done about unknown imports.
    pub open spec fn import_ops(&self, kind: ModuleKind) -> Seq<OpView> {
        (if !self.trap_unknown_imports {
            Seq::empty()
        } else {
            match kind {
                ModuleKind::Core => seq![OpView::DefineTraps],
                ModuleKind::Component => seq![
                    self.main_failure(
                        CauseView::Own(Problem::TrapImportsOfComponent),
                        Seq::empty(),
                    ),
                ],
            }
        }) + (if !self.default_values_unknown_imports {
            Seq::empty()
        } else {
            match kind {
                ModuleKind::Core => seq![OpView::DefineDefaults],
                ModuleKind::Component => seq![
                    self.main_failure(
                        CauseView::Own(Problem::DefaultImportsOfComponent),
                        Seq::empty(),
                    ),
                ],
            }
        })
    }

    /// What is instantiated and called.
    pub open spec fn call_ops(&self, kind: ModuleKind) -> Seq<OpView> {
        match kind {
            ModuleKind::Core => seq![
                OpView::InstantiateMain,
                match self.invoke {
                    Some(name) => OpView::LookupExport(name@),
                    None => OpView::LookupDefault,
                },
                OpView::InspectFunction,
            ],
            ModuleKind::Component => if self.invoke is Some {
                seq![
                    self.main_failure(CauseView::Own(Problem::InvokeOfComponent), Seq::empty()),
                ]
            } else {
                seq![OpView::InstantiateCommand, OpView::CallRun]
            },
        }
    }

    /// What is done with the main module.
    pub open spec fn main_ops(&self, kind: ModuleKind) -> Seq<OpView> {
        self.import_ops(kind) + seq![OpView::Enter(Stage::EpochHandler)] + self.call_ops(kind)
    }

    /// The end of a run in the main module.
    pub fn fail_main(&self, cause: Cause, contexts: Vec<String>) -> (r: Op)
        requires
            self.wf(),
        ensures
            r@ == self.main_failure(cause@, texts(contexts@)),
    {
        let mut contexts = contexts;
        let ghost before = texts(contexts@);
        contexts.push(self.describe_main());
        assert(texts(contexts@) =~= before.push(self.main_context()));
        Op::Fail(Failure { cause, contexts, in_main: true })
    }

    /// The end of a run in the main module for a reason of its own.
    fn fail_main_for(&self, e: Reason) -> (r: Op)
        requires
            self.wf(),
        ensures
            r@ == self.main_failure(CauseView::Own(e@), Seq::empty()),
    {
        let contexts: Vec<String> = Vec::new();
        assert(texts(contexts@) =~= Seq::<Seq<char>>::empty());
        self.fail_main(Cause::Own(e), contexts)
    }

    /// What is done once the main module has run.
    pub fn plan_finish(&self) -> (r: Plan)
        ensures
            r@ == self.finish_ops(),
    {
        match &self.profile {
            Some(Profile::Guest { path, .. }) => Plan::of(Op::WriteProfile(path.clone())),
            _ => Plan::new(),
        }
    }

    /// The values for the parameters of a function, or the first reason why
    /// there are none.
    pub fn read_arguments(&self, params: &Vec<ValType>) -> (r: Result<Vec<Val>, Reason>)
        ensures
            match r {
                Ok(values) => self.arguments(params@) == Ok::<Seq<Val>, ReasonView>(values@),
                Err(e) => self.arguments(params@) == Err::<Seq<Val>, ReasonView>(e@),
            },
    {
        let mut values: Vec<Val> = Vec::new();
        let mut i: usize = 0;
        let available: usize = self.module_and_args.len();
        while i < params.len()
            invariant
                available == self.module_and_args@.len(),
                i <= params@.len(),
                values@.len() == i,
                forall|j: int|
                    0 <= j < i ==> (#[trigger] self.argument(j, params@[j])) == Ok::<
                        Val,
                        ReasonView,
                    >(values@[j]),
            decreases params@.len() - i,
        {
            if available == 0 || i >= available - 1 {
                assert(self.first_bad_parameter(params@, i as int));
                return Err(
                    Problem::NotEnoughArguments(
                        match &self.invoke {
                            Some(name) => Some(name.clone()),
                            None => None,
                        },
                    ),
                );
            }
            let arg: &PathArg = &self.module_and_args[i + 1];
            match &arg.whole.utf8 {
                None => {
                    assert(self.first_bad_parameter(params@, i as int));
                    return Err(Problem::ArgumentForFunction(arg.whole.quoted.clone()));
                },
                Some(text) => match parse_value(text.as_str(), params[i]) {
                    Ok(v) => values.push(v),
                    Err(e) => {
                        assert(self.first_bad_parameter(params@, i as int));
                        return Err(e);
                    },
                },
            }
            i += 1;
        }
        proof {
            assert forall|k: int| !self.first_bad_parameter(params@, k) by {
                if 0 <= k < i {
                    assert(self.argument(k, params@[k]) is Ok);
                }
            }
            assert(values@ =~= self.arguments(params@)->Ok_0);
        }
        Ok(values)
    }

    /// What is done with a function once its parameters are known: it is
    /// called with the arguments of the command.
    pub fn invoke_func(&self, params: &Vec<ValType>) -> (r: Plan)
        requires
            self.wf(),
        ensures
            r@ == self.invoke_ops(params@),
    {
        let mut plan = Plan::new();
        if params.len() > 0 {
            plan.push(
                Op::Say(
                    "warning: using `--invoke` with a function that takes arguments is experimental and may break in the future".to_owned(),
                ),
            );
        }
        match self.read_arguments(params) {
            Ok(values) => plan.push(Op::CallFunction(values)),
            Err(e) => {
                plan.append(self.plan_finish());
                plan.push(self.fail_main_for(e));
            },
        }
        assert(plan@ =~= self.invoke_ops(params@));
        plan
    }

    /// What is done with the results of a function: they are printed.
    pub fn print_results(&self, values: &Vec<Val>) -> (r: Plan)
        ensures
            r@ == self.returned_ops(values@),
    {
        let mut plan = Plan::new();
        if values.len() > 0 {
            plan.push(
                Op::Say(
                    "warning: using `--invoke` with a function that returns values is experimental and may break in the future".to_owned(),
                ),
            );
        }
        let ghost start = plan@;
        let mut i: usize = 0;
        assert(plan@ =~= start + result_ops(values@).take(0));
        while i < values.len()
            invariant
                i <= values@.len(),
                plan@ == start + result_ops(values@).take(i as int),
            decreases values@.len() - i,
        {
            let value: Val = values[i];
            match value {
                Val::ExternRef => plan.push(Op::PrintText("<externref>".to_owned())),
                Val::FuncRef => plan.push(Op::PrintText("<funcref>".to_owned())),
                Val::I32(v) => plan.push(Op::PrintText(show_signed(v as i64))),
                Val::I64(v) => plan.push(Op::PrintText(show_signed(v))),
                Val::V128(v) => plan.push(Op::PrintText(show_unsigned(v))),
                Val::F32(_) => plan.push(Op::PrintResult(value)),
                Val::F64(_) => plan.push(Op::PrintResult(value)),
            }
            i += 1;
            assert(plan@ =~= start + result_ops(values@).take(i as int));
        }
        assert(result_ops(values@).take(i as int) =~= result_ops(values@));
        plan.append(self.plan_finish());
        assert(plan@ =~= self.returned_ops(values@));
        plan
    }

    /// The context of a failure of the invoked function.
    pub fn describe_invoke(&self) -> (r: String)
        ensures
            r@ == self.invoke_context(),
    {
        match &self.invoke {
            Some(name) => join3("failed to invoke `", name.as_str(), "`"),
            None => "failed to invoke command default".to_owned(),
        }
    }

    /// The name of the program in a core dump.
    pub fn show_source_name(&self) -> (r: String)
        requires
            self.wf(),
        ensures
            r@ == self.source_name(),
    {
        match &self.module_and_args[0].whole.utf8 {
            Some(text) => text.clone(),
            None => "unknown".to_owned(),
        }
    }

    /// How a run ends after the function that it called failed.
    pub fn end_raised(&self, contexts: Vec<String>) -> (r: Plan)
        requires
            self.wf(),
        ensures
            r@ == self.raised_end(texts(contexts@)),
    {
        let mut plan = self.plan_finish();
        plan.push(self.fail_main(Cause::Outside, contexts));
        assert(plan@ =~= self.raised_end(texts(contexts@)));
        plan
    }

    /// What is said where there is no core dump for a trap.
    pub fn warn_coredump(&self, reason: &str) -> (r: Op)
        ensures
            r@ == self.coredump_warning(reason@),
    {
        Op::Say(join("warning: coredump failed to generate: ", reason))
    }

    /// What is done after a function failed: a trap is dumped where the
    /// command asks for it, and the run ends.
    pub fn handle_coredump(
        &self,
        context: String,
        trap: bool,
        backtrace: &Option<Vec<Frame>>,
    ) -> (r: Plan)
        requires
            self.wf(),
            self.coredump_on_trap is Some && trap && backtrace is Some ==> dumpable(
                self.source_name(),
                backtrace->0@,
            ),
        ensures
            r@ == self.raised_ops(
                context@,
                trap,
                match *backtrace {
                    Some(frames) => Some(frames@),
                    None => None,
                },
            ),
    {
        let path: &String = match &self.coredump_on_trap {
            Some(path) => path,
            None => {
                return self.end_with(context);
            },
        };
        if !trap {
            return self.end_with(context);
        }
        let source_name: String = self.show_source_name();
        match generate_coredump(backtrace, source_name.as_str()) {
            Err(e) => {
                let mut plan = Plan::of(self.warn_coredump(e.message().as_str()));
                plan.append(self.end_with(context));
                plan
            },
            Ok(bytes) => Plan::of(Op::CreateCoredump { path: path.clone(), bytes, context }),
        }
    }

    /// How a run ends after a failure in one context.
    pub fn end_with(&self, context: String) -> (r: Plan)
        requires
            self.wf(),
        ensures
            r@ == self.raised_end(seq![context@]),
    {
        let mut contexts: Vec<String> = Vec::new();
        contexts.push(context);
        assert(texts(contexts@) =~= seq![context@]);
        self.end_raised(contexts)
    }

    /// What is done about time and profiles.
    pub fn setup_epoch_handler(&self) -> (r: Plan)
        requires
            self.wf(),
            self.countable(),
        ensures
            r@ == self.epoch_ops(),
    {
        let mut plan = Plan::new();
        match &self.profile {
            Some(Profile::Guest { path: _, interval }) => {
                let interval = *interval;
                let name: String = match &self.module_and_args[0].whole.utf8 {
                    Some(text) => text.clone(),
                    None => "<main module>".to_owned(),
                };
                plan.push(Op::StartProfile { name, interval });
                match self.wasm_timeout {
                    Some(timeout) => {
                        let count: u64 = ticks(timeout, interval);
                        plan.push(Op::WatchEpochs(Some(count)));
                    },
                    None => plan.push(Op::WatchEpochs(None)),
                }
                plan.push(Op::SetEpochDeadline(1));
                plan.push(Op::SpawnTicker(interval));
            },
            _ => match self.wasm_timeout {
                Some(timeout) => {
                    plan.push(Op::SetEpochDeadline(1));
                    plan.push(Op::SpawnTimer(timeout));
                },
                None => {},
            },
        }
        assert(plan@ =~= self.epoch_ops());
        plan
    }

    /// What is done with the main module.
    pub fn load_main_module(&self, kind: ModuleKind) -> (r: Plan)
        requires
            self.wf(),
        ensures
            r@ == self.main_ops(kind),
    {
        let mut plan = Plan::new();
        if self.trap_unknown_imports {
            match kind {
                ModuleKind::Core => plan.push(Op::DefineTraps),
                ModuleKind::Component => plan.push(
                    self.fail_main_for(Problem::TrapImportsOfComponent),
                ),
            }
        }
        if self.default_values_unknown_imports {
            match kind {
                ModuleKind::Core => plan.push(Op::DefineDefaults),
                ModuleKind::Component => plan.push(
                    self.fail_main_for(Problem::DefaultImportsOfComponent),
                ),
            }
        }
        assert(plan@ =~= self.import_ops(kind));
        plan.push(Op::Enter(Stage::EpochHandler));
        match kind {
            ModuleKind::Core => {
                plan.push(Op::InstantiateMain);
                match &self.invoke {
                    Some(name) => plan.push(Op::LookupExport(name.clone())),
                    None => plan.push(Op::LookupDefault),
                }
                plan.push(Op::InspectFunction);
            },
            ModuleKind::Component => {
                if self.invoke.is_some() {
                    plan.push(self.fail_main_for(Problem::InvokeOfComponent));
                } else {
                    plan.push(Op::InstantiateCommand);
                    plan.push(Op::CallRun);
                }
            },
        }
        assert(plan@ =~= self.main_ops(kind));
        plan
    }

    /// A run with a guest profile is sampled at each epoch: without end where
    /// it has no time limit, and otherwise until the limit, rounded up to
    /// whole intervals, has passed.
    pub proof fn law_profiled_run_is_sampled(&self, n: nat)
        requires
            self.profile matches Some(Profile::Guest { .. }),
            self.countable(),
        ensures
            self.epoch_ops()[1] is WatchEpochs,
            ({
                let left = self.epoch_ops()[1]->WatchEpochs_0;
                let interval = self.profile->0->interval;
                match self.wasm_timeout {
                    None => after_epochs(left, n) == (n, Some(None::<u64>)),
                    Some(timeout) => {
                        let count = ticks_of(timeout, interval);
                        if n < count {
                            after_epochs(left, n) == (n, Some(Some((count - n) as u64)))
                        } else {
                            after_epochs(left, n) == (count as nat, None::<Option<u64>>)
                        }
                    },
                }
            }),
    {
        match self.wasm_timeout {
            None => law_sampling_goes_on_without_a_limit(n),
            Some(timeout) => {
                let interval = self.profile->0->interval;
                lemma_ticks(timeout, interval);
                law_time_is_up_at_the_last_epoch(ticks_of(timeout, interval) as u64, n);
            },
        }
    }

    /// A function gets one value for each parameter, read from the argument
    /// at the same position behind the module, and it gets them exactly where
    /// there is a value for each.
    pub proof fn law_function_gets_its_arguments(&self, params: Seq<ValType>)
        ensures
            self.arguments(params) is Ok <==> forall|i: int|
                0 <= i < params.len() ==> (#[trigger] self.argument(i, params[i])) is Ok,
            self.arguments(params) matches Ok(values) ==> {
                &&& values.len() == params.len()
                &&& params.len() < self.module_and_args@.len() || params.len() == 0
                &&& forall|i: int|
                    0 <= i < params.len() ==> value_of(
                        self.module_and_args@[i + 1].whole.utf8->0@,
                        params[i],
                    ) == Ok::<Val, ReasonView>(#[trigger] values[i])
            },
    {
        let count = params.len() as int;
        if exists|i: int| 0 <= i < count && (#[trigger] self.argument(i, params[i])) is Err {
            let i = choose|i: int|
                0 <= i < count && (#[trigger] self.argument(i, params[i])) is Err;
            self.lemma_some_bad_parameter_is_first(params, i);
            assert(self.argument(i, params[i]) is Err);
        } else if let Ok(values) = self.arguments(params) {
            assert forall|i: int| 0 <= i < count implies value_of(
                self.module_and_args@[i + 1].whole.utf8->0@,
                params[i],
            ) == Ok::<Val, ReasonView>(#[trigger] values[i]) by {
                assert(self.argument(i, params[i]) is Ok);
            }
            if count > 0 {
                assert(self.argument(count - 1, params[count - 1]) is Ok);
            }
        }
    }

    /// Where there is no value for a parameter, there is a first such.
    proof fn lemma_some_bad_parameter_is_first(&self, params: Seq<ValType>, i: int)
        requires
            0 <= i < params.len(),
            self.argument(i, params[i]) is Err,
        ensures
            exists|k: int| self.first_bad_parameter(params, k),
        decreases i,
    {
        if exists|j: int| 0 <= j < i && (#[trigger] self.argument(j, params[j])) is Err {
            let j = choose|j: int| 0 <= j < i && (#[trigger] self.argument(j, params[j])) is Err;
            self.lemma_some_bad_parameter_is_first(params, j);
        } else {
            assert(self.first_bad_parameter(params, i));
        }
    }
}

} // verus!
