//! How the bytes of a file become a module: which kind it is, what it is
//! made from, and whether the command allows it.

use crate::command::{Features, RunCommand};
use crate::error::{Problem, Reason, ReasonView};
use crate::format::{
    binary_of, format_complaint, is_binary, named_path, parsable, read_format, PathText,
    PathTextView,
};
use crate::plan::{Event, EventView, Location, ModuleKind, Source, SourceView, Target};
use crate::text::same;
use vstd::prelude::*;
use vstd::utf8::{
    is_char_boundary_iff_not_is_continuation_byte, valid_first_scalar, valid_utf8,
    valid_utf8_split,
};

verus! {

/// The engine that compiles and runs modules.
#[verifier::external_type_specification]
#[verifier::external_body]
pub struct ExEngine(wasmtime::Engine);

/// The bytes that a component starts with.
pub open spec fn is_component(bytes: Seq<u8>) -> bool {
    bytes.len() >= 8 && bytes.take(8) == seq![
        0x00u8,
        0x61u8,
        0x73u8,
        0x6du8,
        0x0du8,
        0x00u8,
        0x01u8,
        0x00u8,
    ]
}

/// The flags of an ELF header have this value, in the byte order that the
/// header names.
pub open spec fn has_flags(bytes: Seq<u8>, flags: u8) -> bool {
    let at = if bytes[4] == 2 {
        48
    } else {
        36
    };
    bytes.subrange(at, at + 4) == if bytes[5] == 1 {
        seq![flags, 0, 0, 0]
    } else {
        seq![0, 0, 0, flags]
    }
}

/// Which kind of precompiled code the header of a file names, if any: an ELF
/// header with the ABI of the engine, whose flags name the kind.
pub open spec fn marked_kind(bytes: Seq<u8>) -> Option<ModuleKind> {
    if bytes.len() < 52 || bytes.take(4) != seq![0x7fu8, 0x45u8, 0x4cu8, 0x46u8] || bytes[7] != 200
        || bytes[8] != 0 {
        None
    } else if has_flags(bytes, 1) {
        Some(ModuleKind::Core)
    } else if has_flags(bytes, 2) {
        Some(ModuleKind::Component)
    } else {
        None
    }
}

/// A kind was detected only where the header names it.
pub open spec fn detectable(detected: Option<ModuleKind>, bytes: Seq<u8>) -> bool {
    detected is Some ==> detected == marked_kind(bytes)
}

/// No precompiled code is left out of what can be parsed: a header that names
/// a kind of it is no text.
pub proof fn law_precompiled_code_is_no_text(bytes: Seq<u8>)
    requires
        marked_kind(bytes) is Some,
    ensures
        !valid_utf8(bytes),
        parsable(bytes),
{
    if valid_utf8(bytes) {
        is_char_boundary_iff_not_is_continuation_byte(bytes, 7);
        valid_utf8_split(bytes, 7);
        let rest = bytes.subrange(7, bytes.len() as int);
        assert(rest[0] == 200 && rest[1] == 0);
        assert(valid_first_scalar(rest));
    }
}

/// Calls `wasmtime::Engine::detect_precompiled`, and tells the two kinds of
/// its answer apart. It answers with a kind only where the header of an ELF
/// file names it. Whether it does answer then is left open: that takes a
/// whole file that can be parsed, and depends on where the bytes lie in
/// memory.
#[verifier::external_body]
fn detect_precompiled(engine: &wasmtime::Engine, bytes: &[u8]) -> (r: Option<ModuleKind>)
    ensures
        detectable(r, bytes@),
{
    match engine.detect_precompiled(bytes) {
        Some(wasmtime::Precompiled::Module) => Some(ModuleKind::Core),
        Some(wasmtime::Precompiled::Component) => Some(ModuleKind::Component),
        None => None,
    }
}

/// Calls `wasmparser::Parser::is_component`, which compares the first eight
/// bytes with those of a component.
#[verifier::external_body]
fn looks_like_component(bytes: &[u8]) -> (r: bool)
    ensures
        r == is_component(bytes@),
{
    wasmparser::Parser::is_component(bytes)
}

/// What a module is, and what it is made from.
pub type Contents = (ModuleKind, Source);

impl RunCommand {
    /// The path of a module as the command gives it, if it is text.
    pub open spec fn given_path(&self, target: Target) -> Option<Seq<char>> {
        match target {
            Target::Main => match self.main_arg().whole.utf8 {
                Some(t) => Some(t@),
                None => None,
            },
            Target::Preload(i) => Some(self.preloads@[i as int].1@),
        }
    }

    /// A module exists that the command names.
    pub open spec fn has_target(&self, target: Target) -> bool {
        match target {
            Target::Main => self.module_and_args@.len() > 0,
            Target::Preload(i) => i < self.preloads@.len(),
        }
    }

    /// Where a module is read from: `-` is the standard input, where there
    /// is a file for it.
    pub open spec fn location_of(&self, features: Features, target: Target) -> Location {
        if features.unix && self.given_path(target) == Some("-"@) {
            Location::Stdin
        } else {
            Location::Given
        }
    }

    /// The path that a module is read from.
    pub open spec fn path_of(&self, target: Target, location: Location) -> PathTextView {
        match location {
            Location::Stdin => PathTextView { text: Some("/dev/stdin"@), lossy: "/dev/stdin"@ },
            Location::Given => PathTextView {
                text: self.given_path(target),
                lossy: match target {
                    Target::Main => self.main_arg().whole.lossy@,
                    Target::Preload(i) => self.preloads@[i as int].1@,
                },
            },
        }
    }

    /// Where a module is read from.
    pub fn load_module(&self, features: &Features, target: Target) -> (r: Location)
        requires
            self.has_target(target),
        ensures
            r == self.location_of(*features, target),
    {
        let is_dash: bool = match target {
            Target::Main => match &self.module_and_args[0].whole.utf8 {
                Some(t) => same(t.as_str(), "-"),
                None => false,
            },
            Target::Preload(i) => same(self.preloads[i].1.as_str(), "-"),
        };
        if features.unix && is_dash {
            Location::Stdin
        } else {
            Location::Given
        }
    }

    /// The path that a module is read from.
    pub fn show_path(&self, target: Target, location: Location) -> (r: PathText)
        requires
            self.has_target(target),
        ensures
            r@ == self.path_of(target, location),
    {
        match location {
            Location::Stdin => PathText {
                text: Some("/dev/stdin".to_owned()),
                lossy: "/dev/stdin".to_owned(),
            },
            Location::Given => match target {
                Target::Main => PathText {
                    text: match &self.module_and_args[0].whole.utf8 {
                        Some(text) => Some(text.clone()),
                        None => None,
                    },
                    lossy: self.module_and_args[0].whole.lossy.clone(),
                },
                Target::Preload(i) => PathText {
                    text: Some(self.preloads[i].1.clone()),
                    lossy: self.preloads[i].1.clone(),
                },
            },
        }
    }

    /// What becomes of precompiled code of some kind.
    pub open spec fn precompiled_contents(
        &self,
        features: Features,
        kind: ModuleKind,
        mapped: bool,
    ) -> Result<(ModuleKind, SourceView), ReasonView> {
        if kind == ModuleKind::Component && !features.component_model {
            Err(Problem::ComponentsNotSupported)
        } else if !self.allow_precompiled {
            Err(Problem::PrecompiledNotAllowed)
        } else if kind == ModuleKind::Component && !self.components_allowed() {
            Err(Problem::ComponentNotAllowed)
        } else if mapped {
            Ok((kind, SourceView::PrecompiledFile))
        } else {
            Ok((kind, SourceView::PrecompiledBytes))
        }
    }

    /// What becomes of a binary.
    pub open spec fn wasm_contents(&self, features: Features, wasm: Seq<u8>) -> Result<
        (ModuleKind, SourceView),
        ReasonView,
    > {
        if !is_component(wasm) {
            Ok((ModuleKind::Core, SourceView::Wasm(wasm)))
        } else if !features.component_model {
            Err(Problem::ComponentsNotSupported)
        } else if !self.components_allowed() {
            Err(Problem::ComponentNotAllowed)
        } else {
            Ok((ModuleKind::Component, SourceView::Wasm(wasm)))
        }
    }

    /// What becomes of the bytes of a file, given which kind of precompiled
    /// code they were detected to be.
    pub open spec fn contents_of(
        &self,
        features: Features,
        detected: Option<ModuleKind>,
        path: PathTextView,
        bytes: Seq<u8>,
        mapped: bool,
    ) -> Result<(ModuleKind, SourceView), ReasonView> {
        match detected {
            Some(kind) => self.precompiled_contents(features, kind, mapped),
            None => match binary_of(bytes) {
                Some(wasm) => self.wasm_contents(features, wasm),
                None => Err(
                    Problem::TextFormat(format_complaint(named_path(path, bytes), bytes)),
                ),
            },
        }
    }

    /// What becomes of precompiled code of some kind: it has to be allowed,
    /// and so has a component. Code in a file that is mapped into memory is
    /// used from there.
    pub fn load_precompiled(&self, features: &Features, kind: ModuleKind, mapped: bool) -> (r: Result<
        Contents,
        Reason,
    >)
        ensures
            match r {
                Ok(c) => self.precompiled_contents(*features, kind, mapped) == Ok::<
                    (ModuleKind, SourceView),
                    ReasonView,
                >((c.0, c.1@)),
                Err(e) => self.precompiled_contents(*features, kind, mapped) == Err::<
                    (ModuleKind, SourceView),
                    ReasonView,
                >(e@),
            },
    {
        let component: bool = match kind {
            ModuleKind::Component => true,
            ModuleKind::Core => false,
        };
        if component && !features.component_model {
            return Err(Problem::ComponentsNotSupported);
        }
        self.ensure_allow_precompiled()?;
        if component {
            self.ensure_allow_components()?;
        }
        Ok(
            (
                kind,
                if mapped {
                    Source::PrecompiledFile
                } else {
                    Source::PrecompiledBytes
                },
            ),
        )
    }

    /// What becomes of a binary: a component has to be allowed, and anything
    /// else is a core module.
    pub fn load_wasm(&self, features: &Features, wasm: Vec<u8>) -> (r: Result<Contents, Reason>)
        ensures
            match r {
                Ok(c) => self.wasm_contents(*features, wasm@) == Ok::<
                    (ModuleKind, SourceView),
                    ReasonView,
                >((c.0, c.1@)),
                Err(e) => self.wasm_contents(*features, wasm@) == Err::<
                    (ModuleKind, SourceView),
                    ReasonView,
                >(e@),
            },
    {
        if looks_like_component(wasm.as_slice()) {
            if !features.component_model {
                return Err(Problem::ComponentsNotSupported);
            }
            self.ensure_allow_components()?;
            Ok((ModuleKind::Component, Source::Wasm(wasm)))
        } else {
            Ok((ModuleKind::Core, Source::Wasm(wasm)))
        }
    }

    /// What becomes of the bytes of a file: precompiled code if they were
    /// detected to be some, or else a binary or a module in the text format.
    /// The path is named in messages about the text format. The binary that a
    /// text stands for gives the same as the text.
    pub fn load_detected(
        &self,
        features: &Features,
        detected: Option<ModuleKind>,
        path: &PathText,
        bytes: &[u8],
        mapped: bool,
    ) -> (r: Result<Contents, Reason>)
        requires
            detected is None ==> parsable(bytes@),
        ensures
            match r {
                Ok(c) => self.contents_of(*features, detected, path@, bytes@, mapped) == Ok::<
                    (ModuleKind, SourceView),
                    ReasonView,
                >((c.0, c.1@)),
                Err(e) => self.contents_of(*features, detected, path@, bytes@, mapped) == Err::<
                    (ModuleKind, SourceView),
                    ReasonView,
                >(e@),
            },
            detected is None && is_binary(bytes@) ==> match r {
                Ok(c) => self.wasm_contents(*features, bytes@) == Ok::<
                    (ModuleKind, SourceView),
                    ReasonView,
                >((c.0, c.1@)),
                Err(e) => self.wasm_contents(*features, bytes@) == Err::<
                    (ModuleKind, SourceView),
                    ReasonView,
                >(e@),
            },
            detected is None ==> (binary_of(bytes@) matches Some(wasm) ==> (is_binary(wasm) ==> forall|
                other: PathTextView,
                how: bool,
            |
                #[trigger] self.contents_of(*features, None, other, wasm, how) == self.contents_of(
                    *features,
                    None,
                    path@,
                    bytes@,
                    mapped,
                ))),
    {
        match detected {
            Some(kind) => self.load_precompiled(features, kind, mapped),
            None => match read_format(path, bytes) {
                Ok(wasm) => self.load_wasm(features, wasm),
                Err(complaint) => Err(Problem::TextFormat(complaint)),
            },
        }
    }

    /// What becomes of the bytes of a file: precompiled code, a binary, or a
    /// module in the text format. Bytes whose header names no kind of
    /// precompiled code are one of the latter; otherwise the engine decides
    /// whether they are precompiled code of that kind.
    pub fn load_module_contents(
        &self,
        features: &Features,
        engine: &wasmtime::Engine,
        path: &PathText,
        bytes: &[u8],
        mapped: bool,
    ) -> (r: Result<Contents, Reason>)
        requires
            parsable(bytes@),
        ensures
            exists|detected: Option<ModuleKind>|
                {
                    &&& #[trigger] detectable(detected, bytes@)
                    &&& match r {
                        Ok(c) => self.contents_of(*features, detected, path@, bytes@, mapped)
                            == Ok::<(ModuleKind, SourceView), ReasonView>((c.0, c.1@)),
                        Err(e) => self.contents_of(*features, detected, path@, bytes@, mapped)
                            == Err::<(ModuleKind, SourceView), ReasonView>(e@),
                    }
                },
            is_binary(bytes@) ==> match r {
                Ok(c) => self.wasm_contents(*features, bytes@) == Ok::<
                    (ModuleKind, SourceView),
                    ReasonView,
                >((c.0, c.1@)),
                Err(e) => self.wasm_contents(*features, bytes@) == Err::<
                    (ModuleKind, SourceView),
                    ReasonView,
                >(e@),
            },
    {
        let detected: Option<ModuleKind> = detect_precompiled(engine, bytes);
        assert(is_binary(bytes@) ==> detected is None) by {
            if is_binary(bytes@) {
                assert(bytes@.take(4)[0] == 0x00u8);
            }
        }
        self.load_detected(features, detected, path, bytes, mapped)
    }

    /// A file that is mapped into memory and the same file where it has to be
    /// read give the same: both are refused for the same reason, or both are
    /// modules of the same kind. The one proviso is that the same is detected
    /// of both, which is certain where the header names no kind of
    /// precompiled code.
    pub proof fn law_mapped_and_read_files_give_the_same(
        &self,
        features: Features,
        mapped: Option<ModuleKind>,
        read: Option<ModuleKind>,
        path: PathTextView,
        bytes: Seq<u8>,
    )
        requires
            detectable(mapped, bytes),
            detectable(read, bytes),
            mapped == read || marked_kind(bytes) is None,
        ensures
            match (
                self.contents_of(features, mapped, path, bytes, true),
                self.contents_of(features, read, path, bytes, false),
            ) {
                (Ok(one), Ok(other)) => one.0 == other.0 && (one.1 is Wasm ==> one.1 == other.1),
                (Err(one), Err(other)) => one == other,
                _ => false,
            },
    {
    }

    /// A module is read from the standard input exactly where its path is a
    /// dash and the process runs where there is a file for that; any other
    /// path is the one that is read.
    pub proof fn law_modules_are_read_from_their_paths(&self, features: Features, target: Target)
        ensures
            ({
                let text = match target {
                    Target::Main => match self.module_and_args@[0].whole.utf8 {
                        Some(text) => Some(text@),
                        None => None,
                    },
                    Target::Preload(i) => Some(self.preloads@[i as int].1@),
                };
                let shown = match target {
                    Target::Main => self.module_and_args@[0].whole.lossy@,
                    Target::Preload(i) => self.preloads@[i as int].1@,
                };
                let path = self.path_of(target, self.location_of(features, target));
                if features.unix && text == Some("-"@) {
                    &&& self.location_of(features, target) == Location::Stdin
                    &&& path.text == Some("/dev/stdin"@)
                    &&& path.lossy == "/dev/stdin"@
                } else {
                    &&& self.location_of(features, target) == Location::Given
                    &&& path.text == text
                    &&& path.lossy == shown
                }
            }),
    {
    }

    /// Precompiled code is used, as it is, exactly where the command allows
    /// it and, for a component, where components are built in and turned on.
    /// It is refused for the first of these that is missing, and what is not
    /// built in is missing before all else.
    pub proof fn law_precompiled_code_is_used_where_allowed(
        &self,
        features: Features,
        kind: ModuleKind,
        path: PathTextView,
        bytes: Seq<u8>,
        mapped: bool,
    )
        ensures
            ({
                let contents = self.contents_of(features, Some(kind), path, bytes, mapped);
                let component = kind == ModuleKind::Component;
                let turned_on = self.common.wasm_features is Some
                    && self.common.wasm_features->0.component_model == Some(true);
                &&& component && !features.component_model ==> contents == Err::<
                    (ModuleKind, SourceView),
                    ReasonView,
                >(Problem::ComponentsNotSupported)
                &&& (!component || features.component_model) && !self.allow_precompiled ==> contents
                    == Err::<(ModuleKind, SourceView), ReasonView>(Problem::PrecompiledNotAllowed)
                &&& component && features.component_model && self.allow_precompiled && !turned_on
                    ==> contents == Err::<(ModuleKind, SourceView), ReasonView>(
                    Problem::ComponentNotAllowed,
                )
                &&& self.allow_precompiled && (!component || features.component_model && turned_on)
                    ==> contents == Ok::<(ModuleKind, SourceView), ReasonView>(
                    (
                        kind,
                        if mapped {
                            SourceView::PrecompiledFile
                        } else {
                            SourceView::PrecompiledBytes
                        },
                    ),
                )
            }),
    {
        self.law_components_have_to_be_turned_on();
    }

    /// What is no precompiled code is made from the binary that its bytes
    /// stand for, all of it: a component where that begins as components do,
    /// and then only where components are built in and turned on, and a core
    /// module otherwise, which needs no permission. Bytes that stand for no
    /// binary are refused with what is said of their format.
    pub proof fn law_binaries_are_used_whole(
        &self,
        features: Features,
        path: PathTextView,
        bytes: Seq<u8>,
        mapped: bool,
    )
        ensures
            ({
                let contents = self.contents_of(features, None, path, bytes, mapped);
                let turned_on = self.common.wasm_features is Some
                    && self.common.wasm_features->0.component_model == Some(true);
                match binary_of(bytes) {
                    Some(wasm) => {
                        &&& !is_component(wasm) ==> contents == Ok::<
                            (ModuleKind, SourceView),
                            ReasonView,
                        >((ModuleKind::Core, SourceView::Wasm(wasm)))
                        &&& is_component(wasm) && !features.component_model ==> contents == Err::<
                            (ModuleKind, SourceView),
                            ReasonView,
                        >(Problem::ComponentsNotSupported)
                        &&& is_component(wasm) && features.component_model && !turned_on ==> contents
                            == Err::<(ModuleKind, SourceView), ReasonView>(
                            Problem::ComponentNotAllowed,
                        )
                        &&& is_component(wasm) && features.component_model && turned_on ==> contents
                            == Ok::<(ModuleKind, SourceView), ReasonView>(
                            (ModuleKind::Component, SourceView::Wasm(wasm)),
                        )
                    },
                    None => {
                        let named = if path.text is Some {
                            path.text
                        } else if valid_utf8(bytes) {
                            None
                        } else {
                            Some(path.lossy)
                        };
                        contents == Err::<(ModuleKind, SourceView), ReasonView>(
                            Problem::TextFormat(format_complaint(named, bytes)),
                        )
                    },
                }
            }),
    {
        self.law_components_have_to_be_turned_on();
    }

    /// A dash is read where `/dev/stdin` is read, and gives the same.
    pub proof fn law_dash_is_the_standard_input(
        &self,
        other: &RunCommand,
        features: Features,
    )
        requires
            features.unix,
            self.given_path(Target::Main) == Some("-"@),
            other.given_path(Target::Main) == Some("/dev/stdin"@),
            other.main_arg().whole.lossy@ == "/dev/stdin"@,
        ensures
            self.path_of(Target::Main, self.location_of(features, Target::Main)) == other.path_of(
                Target::Main,
                other.location_of(features, Target::Main),
            ),
    {
        reveal_strlit("-");
        reveal_strlit("/dev/stdin");
        assert("-"@.len() != "/dev/stdin"@.len());
    }
}

impl<'a> Event<'a> {
    /// The bytes of a module have been read, and are to be run by an engine.
    pub fn contents(engine: &wasmtime::Engine, bytes: &'a [u8]) -> (r: Event<'a>)
        ensures
            r@ matches EventView::Contents { detected, bytes: read } && detectable(
                detected,
                bytes@,
            ) && read == bytes@,
    {
        Event::Contents { detected: detect_precompiled(engine, bytes), bytes }
    }
}

} // verus!
