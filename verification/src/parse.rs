//! How the values of options are read.

use crate::error::{Problem, Reason, ReasonView};
use crate::span::{duration_of, is_readable, parse_dur, readable, Span};
use crate::text::{
    cut, cut_at_first, ends_cleanly, find_from, joined, law_joined_text_is_cut_again,
    law_pieces_make_the_text, law_two_pieces, lemma_find_from, lemma_one_piece, occurs, occurs_at,
    pieces, same, split, texts,
};
use vstd::prelude::*;

verus! {

/// A profiler outside of the process.
#[derive(Clone, Copy, Debug, PartialEq, Eq, Structural)]
pub enum ProfilingStrategy {
    PerfMap,
    JitDump,
    VTune,
}

/// How a run is profiled.
#[derive(Debug, PartialEq, Eq)]
pub enum Profile {
    /// By a profiler outside of the process.
    Native(ProfilingStrategy),
    /// By samples taken in the process, one in each interval, which are
    /// written to a file.
    Guest { path: String, interval: Span },
}

/// A way of profiling as contracts speak of it.
pub enum ProfileView {
    Native(ProfilingStrategy),
    Guest { path: Seq<char>, interval: Span },
}

impl View for Profile {
    type V = ProfileView;

    open spec fn view(&self) -> ProfileView {
        match self {
            Profile::Native(strategy) => ProfileView::Native(*strategy),
            Profile::Guest { path, interval } => ProfileView::Guest {
                path: path@,
                interval: *interval,
            },
        }
    }
}

/// A name without an equals sign is read back from `NAME=VALUE`, with the
/// value whatever it holds, and from `NAME` alone without one.
pub proof fn law_name_and_value_are_read_back(name: Seq<char>, value: Seq<char>)
    requires
        !name.contains('='),
    ensures
        cut_at_first(name + "="@ + value, "="@) == Some((name, value)),
        cut_at_first(name, "="@) is None,
{
    reveal_strlit("=");
    let equals = "="@;
    assert forall|i: int| 0 <= i < name.len() implies !occurs_at(name + equals, equals, i) by {
        assert((name + equals).subrange(i, i + 1)[0] == name[i]);
    }
    law_joined_text_is_cut_again(name, equals, value);
    lemma_find_from(name, equals, 0);
    if let Some(i) = find_from(name, equals, 0) {
        assert(name.subrange(i, i + 1)[0] == name[i]);
    }
}

/// What is read as a name and a value, or a path, makes up the text with an
/// equals sign between them, and the name holds none.
pub proof fn law_name_and_value_make_the_text(s: Seq<char>, name: Seq<char>, value: Seq<char>)
    requires
        cut_at_first(s, "="@) == Some((name, value)),
    ensures
        s == name + "="@ + value,
        !name.contains('='),
{
    reveal_strlit("=");
    lemma_find_from(s, "="@, 0);
    let i = find_from(s, "="@, 0)->0;
    assert(s.subrange(i, i + 1) == "="@);
    assert(s.subrange(i, i + 1)[0] == s[i]);
    assert(s =~= name + "="@ + value);
    if name.contains('=') {
        let j = name.index_of('=');
        assert(s[j] == '=');
        assert(s.subrange(j, j + 1) =~= "="@);
        assert(occurs_at(s, "="@, j));
    }
}

/// Reads `NAME` or `NAME=VALUE`. The name ends before the first equals sign;
/// the value may hold more of them.
pub fn parse_env_var(s: &str) -> (r: Result<(String, Option<String>), Reason>)
    ensures
        match r {
            Ok(pair) => match cut_at_first(s@, "="@) {
                Some(parts) => {
                    &&& pair.0@ == parts.0
                    &&& pair.1 matches Some(value) && value@ == parts.1
                },
                None => pair.0@ == s@ && pair.1 is None,
            },
            Err(_) => false,
        },
{
    match cut(s, "=") {
        Some((name, value)) => Ok((name, Some(value))),
        None => Ok((s.to_owned(), None)),
    }
}

/// Reads `FIRST::SECOND`, with one double colon.
fn parse_pair(s: &str) -> (r: Result<(String, String), Reason>)
    ensures
        match r {
            Ok(pair) => pieces(s@, "::"@) == seq![pair.0@, pair.1@],
            Err(e) => pieces(s@, "::"@).len() != 2 && e@ == ReasonView::DoubleColon,
        },
{
    proof {
        reveal_strlit("::");
    }
    let mut parts = split(s, "::");
    let ghost all = texts(parts@);
    if parts.len() != 2 {
        return Err(Problem::DoubleColon);
    }
    let second = parts.remove(1);
    let first = parts.remove(0);
    assert(all =~= seq![first@, second@]);
    Ok((first, second))
}

/// Reads `GUEST_DIR::HOST_DIR`, with exactly one double colon.
pub fn parse_map_dirs(s: &str) -> (r: Result<(String, String), Reason>)
    ensures
        match r {
            Ok(pair) => pieces(s@, "::"@) == seq![pair.0@, pair.1@],
            Err(e) => pieces(s@, "::"@).len() != 2 && e@ == ReasonView::DoubleColon,
        },
{
    parse_pair(s)
}

/// Reads `FORMAT::HOST_DIR`, with exactly one double colon.
pub fn parse_graphs(s: &str) -> (r: Result<(String, String), Reason>)
    ensures
        match r {
            Ok(pair) => pieces(s@, "::"@) == seq![pair.0@, pair.1@],
            Err(e) => pieces(s@, "::"@).len() != 2 && e@ == ReasonView::DoubleColon,
        },
{
    parse_pair(s)
}

/// Reads `NAME=MODULE_PATH`. The name ends before the first equals sign; the
/// path may hold more of them.
pub fn parse_preloads(s: &str) -> (r: Result<(String, String), Reason>)
    ensures
        match r {
            Ok(pair) => cut_at_first(s@, "="@) == Some((pair.0@, pair.1@)),
            Err(e) => cut_at_first(s@, "="@) is None && e@ == ReasonView::Equals,
        },
{
    match cut(s, "=") {
        Some(pair) => Ok(pair),
        None => Err(Problem::Equals),
    }
}

/// The interval between two samples where none is given.
pub open spec fn default_interval() -> Span {
    Span { secs: 0, nanos: 10_000_000 }
}

/// What a text means as a way of profiling.
pub open spec fn profile_of(s: Seq<char>) -> Result<ProfileView, ReasonView> {
    let parts = pieces(s, ","@);
    if parts.len() == 1 && parts[0] == "perfmap"@ {
        Ok(ProfileView::Native(ProfilingStrategy::PerfMap))
    } else if parts.len() == 1 && parts[0] == "jitdump"@ {
        Ok(ProfileView::Native(ProfilingStrategy::JitDump))
    } else if parts.len() == 1 && parts[0] == "vtune"@ {
        Ok(ProfileView::Native(ProfilingStrategy::VTune))
    } else if parts.len() == 1 && parts[0] == "guest"@ {
        Ok(
            ProfileView::Guest {
                path: "wasmtime-guest-profile.json"@,
                interval: default_interval(),
            },
        )
    } else if parts.len() == 2 && parts[0] == "guest"@ {
        Ok(ProfileView::Guest { path: parts[1], interval: default_interval() })
    } else if parts.len() == 3 && parts[0] == "guest"@ {
        match duration_of(parts[2]) {
            Ok(interval) => Ok(ProfileView::Guest { path: parts[1], interval }),
            Err(e) => Err(e),
        }
    } else {
        Err(Problem::UnknownProfile(s))
    }
}

/// A text without commas is clear of them.
proof fn lemma_without_commas(s: Seq<char>)
    requires
        !s.contains(','),
    ensures
        ends_cleanly(s, ","@),
        !occurs(s, ","@),
{
    reveal_strlit(",");
    let comma = ","@;
    assert forall|i: int| 0 <= i < s.len() implies !occurs_at(s + comma, comma, i) by {
        assert((s + comma).subrange(i, i + 1)[0] == s[i]);
    }
    assert forall|i: int| !occurs_at(s, comma, i) by {
        if occurs_at(s, comma, i) {
            assert(s.subrange(i, i + 1)[0] == s[i]);
        }
    }
}

/// A guest profile is read with the path that is given and, where one is
/// given, with the interval as a duration is read. An interval that is no
/// duration is refused for the reason that a duration is.
pub proof fn law_guest_profile_is_read(path: Seq<char>, interval: Seq<char>)
    requires
        !path.contains(','),
        !interval.contains(','),
    ensures
        profile_of("guest"@ + ","@ + path) == Ok::<ProfileView, ReasonView>(
            ProfileView::Guest { path, interval: Span { secs: 0, nanos: 10_000_000 } },
        ),
        profile_of("guest"@ + ","@ + (path + ","@ + interval)) == match duration_of(interval) {
            Ok(length) => Ok::<ProfileView, ReasonView>(
                ProfileView::Guest { path, interval: length },
            ),
            Err(e) => Err(e),
        },
        profile_readable("guest"@ + ","@ + (path + ","@ + interval)) <==> readable(interval),
{
    reveal_strlit("guest");
    reveal_strlit(",");
    let guest = "guest"@;
    let comma = ","@;
    let rest = path + comma + interval;
    let whole = guest + comma + rest;
    lemma_without_commas(guest);
    lemma_without_commas(path);
    lemma_without_commas(interval);
    law_two_pieces(guest + comma + path, comma, guest, path);
    law_two_pieces(rest, comma, path, interval);
    law_joined_text_is_cut_again(guest, comma, rest);
    lemma_find_from(whole, comma, 0);
    let i = find_from(whole, comma, 0)->0;
    assert(whole.take(i) == guest && whole.skip(i + 1) == rest);
    assert(pieces(whole, comma) == seq![guest] + seq![path, interval]);
    assert(pieces(whole, comma) =~= seq![guest, path, interval]);
}

/// A name without commas is all there is to its pieces.
proof fn lemma_name_is_one_piece(name: Seq<char>)
    requires
        !name.contains(','),
    ensures
        pieces(name, ","@) == seq![name],
{
    reveal_strlit(",");
    lemma_without_commas(name);
    lemma_one_piece(name, ","@);
}

/// One piece is the text, and of two or three the text is made up with commas.
proof fn lemma_pieces_at_commas(s: Seq<char>)
    ensures
        ({
            let parts = pieces(s, ","@);
            &&& parts.len() == 1 ==> s == parts[0]
            &&& parts.len() == 2 ==> s == parts[0] + ","@ + parts[1]
            &&& parts.len() == 3 ==> s == parts[0] + ","@ + (parts[1] + ","@ + parts[2])
        }),
{
    reveal_strlit(",");
    let parts = pieces(s, ","@);
    law_pieces_make_the_text(s, ","@);
    reveal_with_fuel(joined, 4);
    if parts.len() == 2 {
        assert(parts.skip(1)[0] == parts[1]);
    }
    if parts.len() == 3 {
        assert(parts.skip(1)[0] == parts[1]);
        assert(parts.skip(1).skip(1)[0] == parts[2]);
    }
}

/// Each profiler has its one name, and no other text names it.
pub proof fn law_profilers_have_their_own_names(s: Seq<char>)
    ensures
        profile_of(s) == Ok::<ProfileView, ReasonView>(
            ProfileView::Native(ProfilingStrategy::PerfMap),
        ) <==> s == "perfmap"@,
        profile_of(s) == Ok::<ProfileView, ReasonView>(
            ProfileView::Native(ProfilingStrategy::JitDump),
        ) <==> s == "jitdump"@,
        profile_of(s) == Ok::<ProfileView, ReasonView>(
            ProfileView::Native(ProfilingStrategy::VTune),
        ) <==> s == "vtune"@,
{
    lemma_profile_names();
    lemma_pieces_at_commas(s);
}

/// The names of ways of profiling hold no commas, and differ.
proof fn lemma_profile_names()
    ensures
        pieces("perfmap"@, ","@) == seq!["perfmap"@],
        pieces("jitdump"@, ","@) == seq!["jitdump"@],
        pieces("vtune"@, ","@) == seq!["vtune"@],
        pieces("guest"@, ","@) == seq!["guest"@],
        "perfmap"@ != "jitdump"@,
        "perfmap"@ != "vtune"@,
        "perfmap"@ != "guest"@,
        "jitdump"@ != "vtune"@,
        "jitdump"@ != "guest"@,
        "vtune"@ != "guest"@,
{
    reveal_strlit("perfmap");
    reveal_strlit("jitdump");
    reveal_strlit("vtune");
    reveal_strlit("guest");
    lemma_name_is_one_piece("perfmap"@);
    lemma_name_is_one_piece("jitdump"@);
    lemma_name_is_one_piece("vtune"@);
    lemma_name_is_one_piece("guest"@);
    assert("perfmap"@[0] != "jitdump"@[0]);
    assert("perfmap"@[0] != "vtune"@[0]);
    assert("perfmap"@[0] != "guest"@[0]);
    assert("jitdump"@[0] != "vtune"@[0]);
    assert("jitdump"@[0] != "guest"@[0]);
    assert("vtune"@[0] != "guest"@[0]);
}

/// A guest profile alone is written every ten milliseconds to a file with a
/// name of its own. Nothing is a guest profile but what begins with its name,
/// and what is read of it makes up the text. Anything that is no way of
/// profiling is refused with the text itself, unless it is the interval that
/// is no duration.
pub proof fn law_profiles_are_read_as_they_are_written(s: Seq<char>)
    ensures
        s == "guest"@ ==> profile_of(s) == Ok::<ProfileView, ReasonView>(
            ProfileView::Guest {
                path: "wasmtime-guest-profile.json"@,
                interval: Span { secs: 0, nanos: 10_000_000 },
            },
        ),
        profile_of(s) matches Ok(ProfileView::Guest { path, interval }) ==> {
            let by_default = Span { secs: 0, nanos: 10_000_000 };
            ||| s == "guest"@ && path == "wasmtime-guest-profile.json"@ && interval == by_default
            ||| s == "guest"@ + ","@ + path && interval == by_default
            ||| exists|given: Seq<char>|
                s == "guest"@ + ","@ + (path + ","@ + given) && #[trigger] duration_of(given)
                    == Ok::<Span, ReasonView>(interval)
        },
        profile_of(s) matches Err(e) ==> {
            ||| e == ReasonView::UnknownProfile(s)
            ||| exists|path: Seq<char>, given: Seq<char>|
                #![trigger path + ","@ + given]
                s == "guest"@ + ","@ + (path + ","@ + given) && duration_of(given) == Err::<
                    Span,
                    ReasonView,
                >(e)
        },
{
    lemma_profile_names();
    lemma_pieces_at_commas(s);
    let parts = pieces(s, ","@);
    if parts.len() == 3 {
        let (path, given) = (parts[1], parts[2]);
        assert(s == parts[0] + ","@ + (path + ","@ + given));
        let read = duration_of(given);
    }
}

/// Where a text gives an interval, the interval can be read.
pub open spec fn profile_readable(s: Seq<char>) -> bool {
    let parts = pieces(s, ","@);
    parts.len() == 3 && parts[0] == "guest"@ ==> readable(parts[2])
}

/// Reads `perfmap`, `jitdump`, `vtune` or `guest[,path[,interval]]`.
pub fn parse_profile(s: &str) -> (r: Result<Profile, Reason>)
    requires
        profile_readable(s@),
    ensures
        match r {
            Ok(profile) => {
                &&& profile_of(s@) == Ok::<ProfileView, ReasonView>(profile@)
                &&& profile matches Profile::Guest { interval, .. } ==> interval.wf()
            },
            Err(e) => profile_of(s@) == Err::<ProfileView, ReasonView>(e@),
        },
{
    proof {
        reveal_strlit(",");
    }
    let mut parts = split(s, ",");
    let ghost all = texts(parts@);
    let count: usize = parts.len();
    let interval = Span { secs: 0, nanos: 10_000_000 };
    if count == 1 {
        let name = parts.remove(0);
        assert(all[0] == name@);
        if same(name.as_str(), "perfmap") {
            return Ok(Profile::Native(ProfilingStrategy::PerfMap));
        }
        if same(name.as_str(), "jitdump") {
            return Ok(Profile::Native(ProfilingStrategy::JitDump));
        }
        if same(name.as_str(), "vtune") {
            return Ok(Profile::Native(ProfilingStrategy::VTune));
        }
        if same(name.as_str(), "guest") {
            return Ok(
                Profile::Guest { path: "wasmtime-guest-profile.json".to_owned(), interval },
            );
        }
    } else if count == 2 || count == 3 {
        assert(all[0] == parts@[0]@ && all[1] == parts@[1]@);
        if same(parts[0].as_str(), "guest") {
            if count == 2 {
                let path = parts.remove(1);
                return Ok(Profile::Guest { path, interval });
            }
            assert(all[2] == parts@[2]@);
            let given = parse_dur(parts[2].as_str());
            let path = parts.remove(1);
            return match given {
                Ok(interval) => Ok(Profile::Guest { path, interval }),
                Err(e) => Err(e),
            };
        }
    }
    Err(Problem::UnknownProfile(s.to_owned()))
}

/// The path and the interval that a text gives for a profile, if it gives an
/// interval.
pub fn given_interval(s: &str) -> (r: Option<(String, String)>)
    ensures
        match r {
            Some(given) => pieces(s@, ","@) == seq!["guest"@, given.0@, given.1@],
            None => !(pieces(s@, ","@).len() == 3 && pieces(s@, ","@)[0] == "guest"@),
        },
{
    proof {
        reveal_strlit(",");
    }
    let mut parts = split(s, ",");
    let ghost all = texts(parts@);
    if parts.len() != 3 {
        return None;
    }
    assert(all[0] == parts@[0]@);
    if !same(parts[0].as_str(), "guest") {
        return None;
    }
    let interval = parts.remove(2);
    let path = parts.remove(1);
    assert(all =~= seq!["guest"@, path@, interval@]);
    Some((path, interval))
}

/// Whether `parse_profile` can read a text.
pub fn is_profile_readable(s: &str) -> (r: bool)
    ensures
        r == profile_readable(s@),
{
    match given_interval(s) {
        Some((_, interval)) => is_readable(interval.as_str()),
        None => true,
    }
}

/// Reads a way of profiling wherever it can be read.
pub fn try_parse_profile(s: &str) -> (r: Option<Result<Profile, Reason>>)
    ensures
        r is Some <==> profile_readable(s@),
        r matches Some(Ok(profile)) ==> {
            &&& profile_of(s@) == Ok::<ProfileView, ReasonView>(profile@)
            &&& profile matches Profile::Guest { interval, .. } ==> interval.wf()
        },
        r matches Some(Err(e)) ==> profile_of(s@) == Err::<ProfileView, ReasonView>(e@),
{
    if is_profile_readable(s) {
        Some(parse_profile(s))
    } else {
        None
    }
}

} // verus!
