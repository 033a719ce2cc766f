//! Searching, cutting and splitting text, stated over its characters.

use vstd::prelude::*;
use vstd::string::*;

verus! {

/// `pattern` stands in `s` at position `i`.
pub open spec fn occurs_at(s: Seq<char>, pattern: Seq<char>, i: int) -> bool {
    &&& 0 <= i
    &&& i + pattern.len() <= s.len()
    &&& s.subrange(i, i + pattern.len()) == pattern
}

/// `pattern` stands somewhere in `s`.
pub open spec fn occurs(s: Seq<char>, pattern: Seq<char>) -> bool {
    exists|i: int| occurs_at(s, pattern, i)
}

/// The first position at or after `from` where `pattern` stands in `s`.
pub open spec fn find_from(s: Seq<char>, pattern: Seq<char>, from: int) -> Option<int>
    decreases s.len() - from + 1,
{
    if from < 0 || from + pattern.len() > s.len() {
        None
    } else if occurs_at(s, pattern, from) {
        Some(from)
    } else {
        find_from(s, pattern, from + 1)
    }
}

/// What stands before and after the first `separator` in `s`.
pub open spec fn cut_at_first(s: Seq<char>, separator: Seq<char>) -> Option<(Seq<char>, Seq<char>)> {
    match find_from(s, separator, 0) {
        Some(i) => Some((s.take(i), s.skip(i + separator.len()))),
        None => None,
    }
}

/// The parts of `s` between the separators, found from left to right; the
/// whole of `s` where there is none.
pub open spec fn pieces(s: Seq<char>, separator: Seq<char>) -> Seq<Seq<char>>
    decreases s.len(),
{
    match find_from(s, separator, 0) {
        Some(i) => {
            if separator.len() > 0 && 0 <= i && i + separator.len() <= s.len() {
                seq![s.take(i)] + pieces(s.skip(i + separator.len()), separator)
            } else {
                seq![s]
            }
        },
        None => seq![s],
    }
}

/// The characters of each string of a list.
pub open spec fn texts(list: Seq<String>) -> Seq<Seq<char>> {
    Seq::new(list.len(), |i: int| list[i]@)
}

/// The characters of both strings of each pair of a list.
pub open spec fn pairs(list: Seq<(String, String)>) -> Seq<(Seq<char>, Seq<char>)> {
    Seq::new(list.len(), |i: int| (list[i].0@, list[i].1@))
}

/// A search that succeeds gives the first occurrence, and one that fails
/// means that there is none.
pub proof fn lemma_find_from(s: Seq<char>, pattern: Seq<char>, from: int)
    requires
        0 <= from,
    ensures
        match find_from(s, pattern, from) {
            Some(i) => {
                &&& from <= i
                &&& occurs_at(s, pattern, i)
                &&& forall|j: int| from <= j < i ==> !occurs_at(s, pattern, j)
            },
            None => forall|j: int| from <= j ==> !occurs_at(s, pattern, j),
        },
    decreases s.len() - from + 1,
{
    if from + pattern.len() > s.len() {
    } else if occurs_at(s, pattern, from) {
    } else {
        lemma_find_from(s, pattern, from + 1);
        assert(forall|j: int| from <= j && occurs_at(s, pattern, j) ==> from + 1 <= j);
    }
}

/// The first occurrence is unique, so a position that is one is what the
/// search gives.
pub proof fn lemma_find_from_is(s: Seq<char>, pattern: Seq<char>, i: int)
    requires
        occurs_at(s, pattern, i),
        forall|j: int| 0 <= j < i ==> !occurs_at(s, pattern, j),
    ensures
        find_from(s, pattern, 0) == Some(i),
{
    lemma_find_from(s, pattern, 0);
}

/// Parts with a separator between each two of them.
pub open spec fn joined(parts: Seq<Seq<char>>, separator: Seq<char>) -> Seq<char>
    decreases parts.len(),
{
    if parts.len() == 0 {
        Seq::empty()
    } else if parts.len() == 1 {
        parts[0]
    } else {
        parts[0] + separator + joined(parts.skip(1), separator)
    }
}

/// A text is its pieces with the separator between them, and no piece holds
/// the separator.
pub proof fn law_pieces_make_the_text(s: Seq<char>, separator: Seq<char>)
    requires
        separator.len() > 0,
    ensures
        joined(pieces(s, separator), separator) == s,
        pieces(s, separator).len() > 0,
        forall|i: int|
            0 <= i < pieces(s, separator).len() ==> !occurs(
                #[trigger] pieces(s, separator)[i],
                separator,
            ),
    decreases s.len(),
{
    lemma_find_from(s, separator, 0);
    if let Some(i) = find_from(s, separator, 0) {
        let head = s.take(i);
        let rest = s.skip(i + separator.len());
        let all = pieces(s, separator);
        law_pieces_make_the_text(rest, separator);
        assert(all.skip(1) =~= pieces(rest, separator));
        assert(s.subrange(i, i + separator.len()) == separator);
        assert(head + separator + rest =~= s);
        assert forall|k: int| 0 <= k < all.len() implies !occurs(#[trigger] all[k], separator) by {
            if k == 0 {
                assert forall|j: int| !occurs_at(head, separator, j) by {
                    if occurs_at(head, separator, j) {
                        assert(s.subrange(j, j + separator.len()) =~= head.subrange(
                            j,
                            j + separator.len(),
                        ));
                        assert(occurs_at(s, separator, j));
                    }
                }
            } else {
                assert(all[k] == pieces(rest, separator)[k - 1]);
            }
        }
    }
}

/// The separator does not begin in `before` when it stands behind it.
pub open spec fn ends_cleanly(before: Seq<char>, separator: Seq<char>) -> bool {
    forall|i: int| 0 <= i < before.len() ==> !occurs_at(before + separator, separator, i)
}

/// Two texts with a separator between them are cut into the two again,
/// exactly where the separator does not begin in the first of them.
pub proof fn law_joined_text_is_cut_again(
    before: Seq<char>,
    separator: Seq<char>,
    after: Seq<char>,
)
    ensures
        cut_at_first(before + separator + after, separator) == Some((before, after))
            <==> ends_cleanly(before, separator),
{
    let s = before + separator + after;
    let front = before + separator;
    assert forall|i: int| 0 <= i < before.len() implies occurs_at(s, separator, i) == occurs_at(
        front,
        separator,
        i,
    ) by {
        assert(s.subrange(i, i + separator.len()) =~= front.subrange(i, i + separator.len()));
    }
    assert(s.subrange(before.len() as int, before.len() as int + separator.len())
        =~= separator);
    assert(occurs_at(s, separator, before.len() as int));
    lemma_find_from(s, separator, 0);
    if ends_cleanly(before, separator) {
        lemma_find_from_is(s, separator, before.len() as int);
        assert(s.take(before.len() as int) =~= before);
        assert(s.skip(before.len() as int + separator.len()) =~= after);
    } else {
        let i = find_from(s, separator, 0)->0;
        assert(i < before.len());
        assert(s.take(i).len() == i);
    }
}

/// Two texts with a separator between them have these two as their pieces,
/// exactly where the separator does not begin in the first of them and does
/// not occur in the second; no other text has them.
pub proof fn law_two_pieces(s: Seq<char>, separator: Seq<char>, first: Seq<char>, second: Seq<char>)
    requires
        separator.len() > 0,
    ensures
        pieces(s, separator) == seq![first, second] <==> {
            &&& s == first + separator + second
            &&& ends_cleanly(first, separator)
            &&& !occurs(second, separator)
        },
{
    lemma_find_from(s, separator, 0);
    law_joined_text_is_cut_again(first, separator, second);
    if !occurs(second, separator) {
        lemma_one_piece(second, separator);
    }
    if pieces(s, separator) == seq![first, second] {
        law_pieces_make_the_text(s, separator);
        assert(find_from(s, separator, 0) is Some);
        let i = find_from(s, separator, 0)->0;
        let rest = s.skip(i + separator.len());
        assert(pieces(s, separator)[0] == s.take(i));
        assert(pieces(s, separator).skip(1) =~= pieces(rest, separator));
        assert(pieces(s, separator).skip(1) =~= seq![second]);
        law_pieces_make_the_text(rest, separator);
        assert(rest == second);
        assert(s.subrange(i, i + separator.len()) == separator);
        assert(s =~= first + separator + second);
        assert(!occurs(pieces(s, separator)[1], separator));
    } else if s == first + separator + second && ends_cleanly(first, separator) && !occurs(
        second,
        separator,
    ) {
        let i = find_from(s, separator, 0)->0;
        assert(s.take(i) == first && s.skip(i + separator.len()) == second);
        assert(pieces(s, separator) =~= seq![first, second]);
    }
}

/// A text without the separator is one piece.
pub proof fn lemma_one_piece(s: Seq<char>, separator: Seq<char>)
    requires
        separator.len() > 0,
        !occurs(s, separator),
    ensures
        pieces(s, separator) == seq![s],
{
    lemma_find_from(s, separator, 0);
}

/// The characters of a string, as a vector.
pub fn characters(s: &str) -> (r: Vec<char>)
    ensures
        r@ == s@,
{
    let mut out: Vec<char> = Vec::new();
    for c in it: s.chars()
        invariant
            out@ == it.seq().take(it.index() as int),
            it.seq() == s@,
    {
        out.push(c);
        assert(it.seq().take(it.index() as int + 1) == it.seq().take(it.index() as int).push(c));
    }
    assert(s@.take(s@.len() as int) == s@);
    out
}

/// The first position at or after `from` where `pattern` stands in `s`.
fn find_characters(s: &Vec<char>, pattern: &Vec<char>, from: usize) -> (r: Option<usize>)
    ensures
        match (r, find_from(s@, pattern@, from as int)) {
            (Some(i), Some(j)) => i == j,
            (None, None) => true,
            _ => false,
        },
{
    let length: usize = s.len();
    let mut i: usize = from;
    while i <= length && pattern.len() <= length - i
        invariant
            length == s@.len(),
            from <= i,
            i <= s@.len() + 1 || i == from,
            find_from(s@, pattern@, from as int) == find_from(s@, pattern@, i as int),
        decreases s@.len() + 1 - i,
    {
        let mut k: usize = 0;
        while k < pattern.len() && s[i + k] == pattern[k]
            invariant
                i + pattern@.len() <= s@.len() == length,
                k <= pattern@.len(),
                forall|j: int| 0 <= j < k ==> s@[i + j] == #[trigger] pattern@[j],
            decreases pattern@.len() - k,
        {
            k += 1;
        }
        if k == pattern.len() {
            assert(s@.subrange(i as int, i + pattern@.len()) =~= pattern@);
            return Some(i);
        }
        proof {
            if occurs_at(s@, pattern@, i as int) {
                assert(s@.subrange(i as int, i + pattern@.len())[k as int] == s@[i + k]);
            }
        }
        if i == usize::MAX {
            return None;
        }
        i += 1;
    }
    None
}

/// What stands before and after the first `separator`, or nothing where it
/// does not occur.
pub fn cut(s: &str, separator: &str) -> (r: Option<(String, String)>)
    ensures
        match (r, cut_at_first(s@, separator@)) {
            (Some(p), Some(q)) => p.0@ == q.0 && p.1@ == q.1,
            (None, None) => true,
            _ => false,
        },
{
    let hay = characters(s);
    let pattern = characters(separator);
    let length: usize = hay.len();
    proof {
        lemma_find_from(s@, separator@, 0);
    }
    match find_characters(&hay, &pattern, 0) {
        Some(i) => {
            let before = s.substring_char(0, i).to_owned();
            let after = s.substring_char(i + pattern.len(), length).to_owned();
            Some((before, after))
        },
        None => None,
    }
}

/// Whether `pattern` stands somewhere in `s`.
pub fn contains(s: &str, pattern: &str) -> (r: bool)
    ensures
        r == occurs(s@, pattern@),
{
    let hay = characters(s);
    let wanted = characters(pattern);
    proof {
        lemma_find_from(s@, pattern@, 0);
    }
    match find_characters(&hay, &wanted, 0) {
        Some(_) => true,
        None => false,
    }
}

/// The parts of `s` between the separators.
pub fn split(s: &str, separator: &str) -> (r: Vec<String>)
    requires
        separator@.len() > 0,
    ensures
        texts(r@) == pieces(s@, separator@),
{
    let mut out: Vec<String> = Vec::new();
    let mut rest: String = s.to_owned();
    assert(texts(out@) + pieces(rest@, separator@) =~= pieces(s@, separator@));
    loop
        invariant
            separator@.len() > 0,
            texts(out@) + pieces(rest@, separator@) == pieces(s@, separator@),
        decreases rest@.len(),
    {
        let ghost before = texts(out@);
        let ghost whole = rest@;
        proof {
            lemma_find_from(rest@, separator@, 0);
        }
        match cut(rest.as_str(), separator) {
            Some((head, tail)) => {
                out.push(head);
                rest = tail;
                proof {
                    assert(texts(out@) =~= before.push(head@));
                    assert(texts(out@) + pieces(rest@, separator@) =~= before + pieces(
                        whole,
                        separator@,
                    ));
                }
            },
            None => {
                out.push(rest);
                assert(texts(out@) =~= before + pieces(whole, separator@));
                return out;
            },
        }
    }
}

/// The same pairs once more.
pub fn copy_pairs(list: &Vec<(String, String)>) -> (r: Vec<(String, String)>)
    ensures
        pairs(r@) == pairs(list@),
{
    let mut out: Vec<(String, String)> = Vec::new();
    let mut i: usize = 0;
    while i < list.len()
        invariant
            i <= list@.len(),
            out@.len() == i,
            forall|j: int|
                0 <= j < i ==> (#[trigger] out@[j]).0@ == list@[j].0@ && out@[j].1@ == list@[j].1@,
        decreases list@.len() - i,
    {
        out.push((list[i].0.clone(), list[i].1.clone()));
        i += 1;
    }
    assert(pairs(out@) =~= pairs(list@));
    out
}

/// Whether two texts are the same.
pub fn same(a: &str, b: &str) -> (r: bool)
    ensures
        r == (a@ == b@),
{
    let left: String = a.to_owned();
    let right: String = b.to_owned();
    left == right
}

/// Two texts, one after the other.
pub fn join(a: &str, b: &str) -> (r: String)
    ensures
        r@ == a@ + b@,
{
    let mut out: String = a.to_owned();
    out.append(b);
    out
}

/// Three texts, one after the other.
pub fn join3(a: &str, b: &str, c: &str) -> (r: String)
    ensures
        r@ == a@ + b@ + c@,
{
    let mut out: String = join(a, b);
    out.append(c);
    out
}

} // verus!
