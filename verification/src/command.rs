//! The command and what its options say.

use crate::error::{Problem, Reason, ReasonView};
use crate::parse::Profile;
use crate::span::Span;
use crate::text::{join3, pairs, texts};
use vstd::prelude::*;

verus! {

/// An argument of the process, which need not be text.
#[derive(Debug, PartialEq, Eq)]
pub struct OsText {
    /// The argument, if it is text.
    pub utf8: Option<String>,
    /// The argument with what is not text replaced, for messages.
    pub lossy: String,
    /// The argument in quotes and escaped, for messages.
    pub quoted: String,
}

/// An argument that may be a path.
#[derive(Debug, PartialEq, Eq)]
pub struct PathArg {
    pub whole: OsText,
    /// The components of the path, from the outermost.
    pub components: Vec<OsText>,
}

/// Which modules of WASI a program gets.
#[derive(Clone, Copy, Debug, PartialEq, Eq, Structural)]
pub struct WasiModules {
    pub wasi_common: bool,
    pub wasi_nn: bool,
    pub wasi_threads: bool,
    pub wasi_http: bool,
}

/// The features of WebAssembly that decide what is run.
#[derive(Clone, Copy, Debug, PartialEq, Eq, Structural)]
pub struct WasmFeatures {
    pub component_model: Option<bool>,
}

/// The options that a run shares with other commands, as far as they decide
/// what it does.
#[derive(Clone, Copy, Debug, PartialEq, Eq, Structural)]
pub struct CommonOptions {
    pub fuel: Option<u64>,
    pub wasi_modules: Option<WasiModules>,
    pub wasm_features: Option<WasmFeatures>,
}

/// What is built in, and where the process runs.
#[derive(Clone, Copy, Debug, PartialEq, Eq, Structural)]
pub struct Features {
    pub unix: bool,
    pub component_model: bool,
    pub wasi_nn: bool,
    pub wasi_threads: bool,
    pub wasi_http: bool,
}

/// Runs a WebAssembly module.
#[derive(Debug, PartialEq, Eq)]
pub struct RunCommand {
    pub common: CommonOptions,
    /// Allow unknown exports when running commands.
    pub allow_unknown_exports: bool,
    /// Allow the main module to import unknown functions, using an
    /// implementation that immediately traps, when running commands.
    pub trap_unknown_imports: bool,
    /// Allow the main module to import unknown functions, using an
    /// implementation that returns default values, when running commands.
    pub default_values_unknown_imports: bool,
    /// Allow executing precompiled WebAssembly modules as `*.cwasm` files.
    ///
    /// Note that this option is not safe to pass if the module being passed in
    /// is arbitrary user input. Only precompiled modules that were generated
    /// by the same engine should be passed with this option specified.
    pub allow_precompiled: bool,
    /// Inherit environment variables and file descriptors following the
    /// systemd listen fd specification (UNIX only).
    pub listenfd: bool,
    /// Grant access to the given TCP listen sockets.
    pub tcplisten: Vec<String>,
    /// Grant access to the given host directories.
    pub dirs: Vec<String>,
    /// Pass environment variables to the program.
    ///
    /// `FOO=BAR` sets the variable `FOO` to the value `BAR`. `FOO` alone sets
    /// it to the value that it has in the calling process.
    pub vars: Vec<(String, Option<String>)>,
    /// The name of the function to run.
    pub invoke: Option<String>,
    /// Grant access to guest directories mapped as host directories.
    pub map_dirs: Vec<(String, String)>,
    /// Pre-load machine learning graphs for use by wasi-nn.
    pub graphs: Vec<(String, String)>,
    /// Load the given WebAssembly modules before the main module.
    pub preloads: Vec<(String, String)>,
    /// Maximum execution time of wasm code before timing out.
    pub wasm_timeout: Option<Span>,
    /// Profiling strategy.
    pub profile: Option<Profile>,
    /// Enable coredump generation after a WebAssembly trap.
    pub coredump_on_trap: Option<String>,
    /// Maximum size, in bytes, that a linear memory is allowed to reach.
    pub max_memory_size: Option<usize>,
    /// Maximum size, in table elements, that a table is allowed to reach.
    pub max_table_elements: Option<u32>,
    /// Maximum number of WebAssembly instances allowed to be created.
    pub max_instances: Option<usize>,
    /// Maximum number of WebAssembly tables allowed to be created.
    pub max_tables: Option<usize>,
    /// Maximum number of WebAssembly linear memories allowed to be created.
    pub max_memories: Option<usize>,
    /// Force a trap to be raised on `memory.grow` and `table.grow` failure
    /// instead of returning -1 from these instructions.
    pub trap_on_grow_failure: bool,
    /// Enables memory error checking.
    pub wmemcheck: bool,
    /// The WebAssembly module to run and arguments to pass to it.
    ///
    /// Arguments passed to the wasm module will be configured as WASI CLI
    /// arguments unless `invoke` is given, in which case arguments will be
    /// interpreted as arguments to the function specified.
    pub module_and_args: Vec<PathArg>,
    /// Indicates that the first form of WASI should be backed by the
    /// implementation of the second.
    pub preview2: bool,
}

/// The modules of WASI that a program gets where the command does not say:
/// those that are no experiments.
pub open spec fn default_wasi_modules() -> WasiModules {
    WasiModules { wasi_common: true, wasi_nn: false, wasi_threads: false, wasi_http: false }
}

/// Calls `wasmtime_cli_flags::WasiModules::default`, which enables
/// `wasi_common` and nothing else, and moves its fields.
#[verifier::external_body]
fn wasi_modules_by_default() -> (r: WasiModules)
    ensures
        r == default_wasi_modules(),
{
    let m = wasmtime_cli_flags::WasiModules::default();
    WasiModules {
        wasi_common: m.wasi_common,
        wasi_nn: m.wasi_nn,
        wasi_threads: m.wasi_threads,
        wasi_http: m.wasi_http,
    }
}

impl RunCommand {
    /// A command names a module to run, and its lengths of time are in
    /// normal form.
    pub open spec fn wf(&self) -> bool {
        &&& self.module_and_args@.len() > 0
        &&& self.wasm_timeout matches Some(timeout) ==> timeout.wf()
        &&& self.profile matches Some(Profile::Guest { interval, .. }) ==> interval.wf()
    }

    /// The path of the module to run.
    pub open spec fn main_arg(&self) -> PathArg {
        self.module_and_args@[0]
    }

    /// The modules of WASI that the program gets.
    pub open spec fn wasi_modules(&self) -> WasiModules {
        match self.common.wasi_modules {
            Some(modules) => modules,
            None => default_wasi_modules(),
        }
    }

    /// The command allows components to be run.
    pub open spec fn components_allowed(&self) -> bool {
        self.common.wasm_features matches Some(features) && features.component_model == Some(true)
    }

    /// The modules of WASI that the program gets.
    pub fn enabled_wasi_modules(&self) -> (r: WasiModules)
        ensures
            r == self.wasi_modules(),
    {
        match self.common.wasi_modules {
            Some(modules) => modules,
            None => wasi_modules_by_default(),
        }
    }

    /// Refuses precompiled modules unless they are allowed.
    pub fn ensure_allow_precompiled(&self) -> (r: Result<(), Reason>)
        ensures
            match r {
                Ok(_) => self.allow_precompiled,
                Err(e) => !self.allow_precompiled && e@ == ReasonView::PrecompiledNotAllowed,
            },
    {
        if self.allow_precompiled {
            Ok(())
        } else {
            Err(Problem::PrecompiledNotAllowed)
        }
    }

    /// Refuses components unless they are allowed.
    pub fn ensure_allow_components(&self) -> (r: Result<(), Reason>)
        ensures
            match r {
                Ok(_) => self.components_allowed(),
                Err(e) => !self.components_allowed() && e@ == ReasonView::ComponentNotAllowed,
            },
    {
        let allowed: bool = match self.common.wasm_features {
            Some(features) => match features.component_model {
                Some(on) => on,
                None => false,
            },
            None => false,
        };
        if allowed {
            Ok(())
        } else {
            Err(Problem::ComponentNotAllowed)
        }
    }

    /// How many arguments the program gets: all that the command gives, or
    /// its name alone where a function is invoked, whose arguments they are.
    pub open spec fn program_arg_count(&self) -> nat {
        if self.invoke is Some && self.module_and_args@.len() > 0 {
            1
        } else {
            self.module_and_args@.len()
        }
    }

    /// What stands for an argument in the arguments of the program: of the
    /// first, the path of the module, only the last component, so as not to
    /// tell the program where it lies.
    pub open spec fn program_arg(&self, i: int) -> OsText {
        if i == 0 {
            self.main_arg().components@.last()
        } else {
            self.module_and_args@[i].whole
        }
    }

    /// `i` is the first argument of the program that is not text.
    pub open spec fn first_bad_arg(&self, i: int) -> bool {
        &&& 0 <= i < self.program_arg_count()
        &&& self.program_arg(i).utf8 is None
        &&& forall|j: int| 0 <= j < i ==> (#[trigger] self.program_arg(j)).utf8 is Some
    }

    /// The arguments of the program, if all of them are text.
    pub open spec fn argv(&self) -> Result<Seq<Seq<char>>, ReasonView> {
        if exists|i: int| self.first_bad_arg(i) {
            let i = choose|i: int| self.first_bad_arg(i);
            Err(Problem::ArgumentForProgram(self.program_arg(i).quoted@))
        } else {
            Ok(
                Seq::new(
                    self.program_arg_count(),
                    |i: int| self.program_arg(i).utf8->0@,
                ),
            )
        }
    }

    /// The arguments of the program: the base name of the module, and the
    /// arguments behind it unless they are those of a function to invoke.
    pub fn compute_argv(&self) -> (r: Result<Vec<String>, Reason>)
        requires
            self.module_and_args@.len() > 0,
            self.main_arg().components@.len() > 0,
        ensures
            match r {
                Ok(args) => self.argv() == Ok::<Seq<Seq<char>>, ReasonView>(texts(args@)),
                Err(e) => self.argv() == Err::<Seq<Seq<char>>, ReasonView>(e@),
            },
    {
        let mut result: Vec<String> = Vec::new();
        let mut i: usize = 0;
        let count: usize = if self.invoke.is_some() {
            1
        } else {
            self.module_and_args.len()
        };
        while i < count
            invariant
                self.module_and_args@.len() > 0,
                self.main_arg().components@.len() > 0,
                count == self.program_arg_count(),
                i <= count,
                result@.len() == i,
                forall|j: int|
                    0 <= j < i ==> (#[trigger] self.program_arg(j)).utf8 is Some
                        && self.program_arg(j).utf8->0@ == result@[j]@,
            decreases count - i,
        {
            let arg = &self.module_and_args[i];
            let text: &OsText = if i == 0 {
                &arg.components[arg.components.len() - 1]
            } else {
                &arg.whole
            };
            assert(*text == self.program_arg(i as int));
            match &text.utf8 {
                Some(t) => {
                    result.push(t.clone());
                },
                None => {
                    assert(self.first_bad_arg(i as int));
                    return Err(Problem::ArgumentForProgram(text.quoted.clone()));
                },
            }
            i += 1;
        }
        proof {
            assert forall|k: int| !self.first_bad_arg(k) by {
                if 0 <= k < i {
                    assert(self.program_arg(k).utf8 is Some);
                }
            }
            assert(texts(result@) =~= self.argv()->Ok_0);
        }
        Ok(result)
    }

    /// The directories for the program: under which name, and which of the
    /// host's.
    pub open spec fn preopen_dirs(&self) -> Seq<(Seq<char>, Seq<char>)> {
        Seq::new(self.dirs@.len(), |i: int| (self.dirs@[i]@, self.dirs@[i]@)) + Seq::new(
            self.map_dirs@.len(),
            |i: int| (self.map_dirs@[i].0@, self.map_dirs@[i].1@),
        )
    }

    /// The directories for the program: under which name, and which of the
    /// host's. Those that keep their name come first.
    pub fn compute_preopen_dirs(&self) -> (r: Vec<(String, String)>)
        ensures
            pairs(r@) == self.preopen_dirs(),
    {
        let mut result: Vec<(String, String)> = Vec::new();
        let mut i: usize = 0;
        while i < self.dirs.len()
            invariant
                i <= self.dirs@.len(),
                result@.len() == i,
                forall|j: int|
                    0 <= j < i ==> (#[trigger] result@[j]).0@ == self.dirs@[j]@ && result@[j].1@
                        == self.dirs@[j]@,
            decreases self.dirs@.len() - i,
        {
            result.push((self.dirs[i].clone(), self.dirs[i].clone()));
            i += 1;
        }
        let mut k: usize = 0;
        while k < self.map_dirs.len()
            invariant
                k <= self.map_dirs@.len(),
                result@.len() == self.dirs@.len() + k,
                forall|j: int|
                    0 <= j < self.dirs@.len() ==> (#[trigger] result@[j]).0@ == self.dirs@[j]@
                        && result@[j].1@ == self.dirs@[j]@,
                forall|j: int|
                    self.dirs@.len() <= j < result@.len() ==> (#[trigger] result@[j]).0@
                        == self.map_dirs@[j - self.dirs@.len()].0@ && result@[j].1@
                        == self.map_dirs@[j - self.dirs@.len()].1@,
            decreases self.map_dirs@.len() - k,
        {
            result.push((self.map_dirs[k].0.clone(), self.map_dirs[k].1.clone()));
            k += 1;
        }
        assert(pairs(result@) =~= self.preopen_dirs());
        result
    }

    /// The context of every failure of the main module.
    pub open spec fn main_context(&self) -> Seq<char> {
        "failed to run main module `"@ + self.main_arg().whole.lossy@ + "`"@
    }

    /// The context of every failure of the main module.
    pub fn describe_main(&self) -> (r: String)
        requires
            self.wf(),
        ensures
            r@ == self.main_context(),
    {
        join3(
            "failed to run main module `",
            self.module_and_args[0].whole.lossy.as_str(),
            "`",
        )
    }

    /// A program gets the arguments that the command gives, as they are but
    /// for the first, of which it gets the last component only, and only the
    /// first where a function is invoked; and it gets them exactly where all
    /// of these are text.
    pub proof fn law_program_gets_its_arguments(&self)
        ensures
            self.argv() is Ok <==> forall|i: int|
                0 <= i < self.program_arg_count() ==> (#[trigger] self.program_arg(i)).utf8 is Some,
            self.argv() matches Ok(args) ==> {
                &&& self.invoke is None ==> args.len() == self.module_and_args@.len()
                &&& self.invoke is Some ==> args.len() <= 1
                &&& args.len() > 0 ==> args[0] == self.main_arg().components@.last().utf8->0@
                &&& forall|i: int|
                    0 < i < args.len() ==> #[trigger] args[i]
                        == self.module_and_args@[i].whole.utf8->0@
            },
    {
        let count = self.program_arg_count() as int;
        if exists|i: int| 0 <= i < count && (#[trigger] self.program_arg(i)).utf8 is None {
            let i = choose|i: int| 0 <= i < count && (#[trigger] self.program_arg(i)).utf8 is None;
            self.lemma_some_bad_arg_is_first(i);
        }
    }

    /// Where an argument is not text, there is a first such.
    proof fn lemma_some_bad_arg_is_first(&self, i: int)
        requires
            0 <= i < self.program_arg_count(),
            self.program_arg(i).utf8 is None,
        ensures
            exists|k: int| self.first_bad_arg(k),
        decreases i,
    {
        if exists|j: int| 0 <= j < i && (#[trigger] self.program_arg(j)).utf8 is None {
            let j = choose|j: int| 0 <= j < i && (#[trigger] self.program_arg(j)).utf8 is None;
            self.lemma_some_bad_arg_is_first(j);
        } else {
            assert(self.first_bad_arg(i));
        }
    }

    /// The program gets the modules of WASI that the command names, and where
    /// it names none, those that are common and no others.
    pub proof fn law_wasi_modules_are_the_given_ones(&self)
        ensures
            match self.common.wasi_modules {
                Some(given) => self.wasi_modules() == given,
                None => {
                    &&& self.wasi_modules().wasi_common
                    &&& !self.wasi_modules().wasi_nn
                    &&& !self.wasi_modules().wasi_threads
                    &&& !self.wasi_modules().wasi_http
                },
            },
    {
    }

    /// Components are allowed only where the command turns them on: not where
    /// it says nothing of them, and not where it turns them off.
    pub proof fn law_components_have_to_be_turned_on(&self)
        ensures
            self.components_allowed() <==> {
                &&& self.common.wasm_features is Some
                &&& self.common.wasm_features->0.component_model == Some(true)
            },
    {
    }

    /// The arguments of a program are told from those of the command, one by
    /// one: the last component of the path of the module, and behind it the
    /// other arguments where no function is invoked. The first of them that
    /// is not text is the one that is complained about.
    pub proof fn law_arguments_are_told_one_by_one(&self)
        requires
            self.module_and_args@.len() > 0,
        ensures
            ({
                let given = self.module_and_args@;
                let program = given[0].components@.last();
                match self.argv() {
                    Ok(args) => {
                        &&& args.len() == (if self.invoke is Some {
                            1
                        } else {
                            given.len()
                        })
                        &&& program.utf8 is Some && args[0] == program.utf8->0@
                        &&& forall|i: int|
                            1 <= i < args.len() ==> (#[trigger] given[i]).whole.utf8 is Some
                                && args[i] == given[i].whole.utf8->0@
                    },
                    Err(e) => {
                        ||| program.utf8 is None && e == ReasonView::ArgumentForProgram(
                            program.quoted@,
                        )
                        ||| self.invoke is None && program.utf8 is Some && exists|i: int|
                            {
                                &&& 1 <= i < given.len()
                                &&& (#[trigger] given[i]).whole.utf8 is None
                                &&& e == ReasonView::ArgumentForProgram(given[i].whole.quoted@)
                                &&& forall|j: int|
                                    1 <= j < i ==> (#[trigger] given[j]).whole.utf8 is Some
                            }
                    },
                }
            }),
    {
        let given = self.module_and_args@;
        self.law_program_gets_its_arguments();
        assert(self.program_arg(0) == given[0].components@.last());
        match self.argv() {
            Ok(args) => {
                assert(self.program_arg(0).utf8 is Some);
                assert forall|i: int| 1 <= i < args.len() implies (
                #[trigger] given[i]).whole.utf8 is Some && args[i] == given[i].whole.utf8->0@ by {
                    assert(self.program_arg(i).utf8 is Some);
                }
            },
            Err(e) => {
                let i = choose|i: int| self.first_bad_arg(i);
                assert(self.first_bad_arg(i));
                assert(e == ReasonView::ArgumentForProgram(self.program_arg(i).quoted@));
                if i > 0 {
                    assert(self.program_arg(0).utf8 is Some);
                    assert forall|j: int| 1 <= j < i implies (#[trigger] given[j]).whole.utf8 is Some by {
                        assert(self.program_arg(j).utf8 is Some);
                    }
                    assert(self.program_arg(i) == given[i].whole);
                    assert(given[i].whole.utf8 is None);
                    assert(self.invoke is None);
                }
            },
        }
    }

    /// The program gets each directory that the command names, and no others:
    /// first those that keep their name, then those that are mapped, each of
    /// the host's under the name that is given with it.
    pub proof fn law_directories_are_the_given_ones(&self, i: int, k: int)
        ensures
            self.preopen_dirs().len() == self.dirs@.len() + self.map_dirs@.len(),
            0 <= i < self.dirs@.len() ==> {
                &&& self.preopen_dirs()[i].0 == self.dirs@[i]@
                &&& self.preopen_dirs()[i].1 == self.dirs@[i]@
            },
            0 <= k < self.map_dirs@.len() ==> {
                &&& self.preopen_dirs()[self.dirs@.len() + k].0 == self.map_dirs@[k].0@
                &&& self.preopen_dirs()[self.dirs@.len() + k].1 == self.map_dirs@[k].1@
            },
    {
    }
}

} // verus!
