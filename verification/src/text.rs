//! Text helpers: comparison without regard to ASCII letter case, splitting
//! and trimming, and lists of texts without repeats.

use vstd::prelude::*;

verus! {

/// `c` with an ASCII upper-case letter turned to lower case.
pub open spec fn char_lower(c: char) -> char {
    if 65 <= c as u32 <= 90 {
        ((c as u32) + 32) as char
    } else {
        c
    }
}

/// Equality of two texts up to ASCII letter case.
pub open spec fn eq_ignore_ascii_case(a: Seq<char>, b: Seq<char>) -> bool {
    &&& a.len() == b.len()
    &&& forall|i: int| 0 <= i < a.len() ==> char_lower(#[trigger] a[i]) == char_lower(b[i])
}

/// Calls `str::eq_ignore_ascii_case`. Its documentation says that the two
/// strings match when they are equal once the ASCII letters of both are
/// turned to lower case; nothing else is claimed.
#[verifier::external_body]
pub(crate) fn str_eq_ignore_ascii_case(a: &str, b: &str) -> (r: bool)
    ensures
        r == eq_ignore_ascii_case(a@, b@),
{
    a.eq_ignore_ascii_case(b)
}

/// Calls `str::split_once` with a colon. Its documentation says that the
/// string is split at the first occurrence of the delimiter, into what
/// stands before it and what stands after it, and that `None` comes back
/// where the delimiter does not occur.
#[verifier::external_body]
pub(crate) fn split_once_colon<'a>(s: &'a str) -> (parts: Option<(&'a str, &'a str)>)
    ensures
        match parts {
            Some((before, after)) => s@ == before@ + seq![':'] + after@ && !before@.contains(':'),
            None => !s@.contains(':'),
        },
{
    s.split_once(':')
}

/// Index of the first `c` in `s`; the length of `s` where there is none.
pub open spec fn first_index(s: Seq<char>, c: char) -> int
    decreases s.len(),
{
    if s.len() == 0 {
        0
    } else if s[0] == c {
        0
    } else {
        1 + first_index(s.skip(1), c)
    }
}

/// In a text split at a delimiter that does not occur before the split,
/// the first delimiter stands at the split.
pub proof fn lemma_first_index_split(before: Seq<char>, c: char, after: Seq<char>)
    requires
        !before.contains(c),
    ensures
        first_index(before + seq![c] + after, c) == before.len(),
    decreases before.len(),
{
    let joined = before + seq![c] + after;
    if before.len() == 0 {
        assert(joined[0] == c);
    } else {
        assert(joined[0] == before[0]);
        assert(before.contains(before[0]));
        let rest = before.skip(1);
        assert forall|i: int| 0 <= i < rest.len() implies rest[i] != c by {
            assert(rest[i] == before[i + 1]);
            assert(before.contains(before[i + 1]));
        }
        assert(joined.skip(1) =~= rest + seq![c] + after);
        lemma_first_index_split(rest, c, after);
    }
}

/// Without the delimiter in it, a text has no first one.
pub proof fn lemma_first_index_none(s: Seq<char>, c: char)
    ensures
        0 <= first_index(s, c) <= s.len(),
        first_index(s, c) < s.len() <==> s.contains(c),
    decreases s.len(),
{
    if s.len() > 0 {
        lemma_first_index_none(s.skip(1), c);
        if s[0] != c {
            if s.contains(c) {
                let k = choose|k: int| 0 <= k < s.len() && s[k] == c;
                assert(s.skip(1)[k - 1] == c);
            }
            if s.skip(1).contains(c) {
                let k = choose|k: int| 0 <= k < s.skip(1).len() && s.skip(1)[k] == c;
                assert(s[k + 1] == c);
            }
        }
    }
}

/// Whether `c` is white space: the characters with the Unicode property
/// `White_Space`.
pub open spec fn is_white_space(c: char) -> bool {
    let code = c as u32;
    ||| 0x09 <= code <= 0x0D
    ||| code == 0x20
    ||| code == 0x85
    ||| code == 0xA0
    ||| code == 0x1680
    ||| 0x2000 <= code <= 0x200A
    ||| code == 0x2028
    ||| code == 0x2029
    ||| code == 0x202F
    ||| code == 0x205F
    ||| code == 0x3000
}

/// `s` without the white space it begins with.
pub open spec fn trimmed_start(s: Seq<char>) -> Seq<char>
    decreases s.len(),
{
    if s.len() > 0 && is_white_space(s[0]) {
        trimmed_start(s.skip(1))
    } else {
        s
    }
}

/// `s` without the white space it ends with.
pub open spec fn trimmed_end(s: Seq<char>) -> Seq<char>
    decreases s.len(),
{
    if s.len() > 0 && is_white_space(s.last()) {
        trimmed_end(s.drop_last())
    } else {
        s
    }
}

/// `s` without the white space at either end.
pub open spec fn trimmed(s: Seq<char>) -> Seq<char> {
    trimmed_end(trimmed_start(s))
}

/// Calls `str::trim`. Its documentation says that leading and trailing
/// white space is removed, white space being what the Unicode property
/// `White_Space` covers.
#[verifier::external_body]
pub(crate) fn trim<'a>(s: &'a str) -> (r: &'a str)
    ensures
        r@ == trimmed(s@),
{
    s.trim()
}

/// The texts of a list of strings.
pub open spec fn texts(list: Seq<String>) -> Seq<Seq<char>> {
    list.map_values(|s: String| s@)
}

/// The text of an optional string.
pub open spec fn option_text(text: Option<String>) -> Option<Seq<char>> {
    match text {
        Some(s) => Some(s@),
        None => None,
    }
}

/// `list` with `text` at the end, unless it is there already.
pub open spec fn with_text(list: Seq<Seq<char>>, text: Seq<char>) -> Seq<Seq<char>> {
    if list.contains(text) {
        list
    } else {
        list.push(text)
    }
}

/// `list` with each of `more` that it lacks, in the order of `more`.
pub open spec fn with_texts(list: Seq<Seq<char>>, more: Seq<Seq<char>>) -> Seq<Seq<char>>
    decreases more.len(),
{
    if more.len() == 0 {
        list
    } else {
        with_text(with_texts(list, more.drop_last()), more.last())
    }
}

/// Whether `text` stands in `list`.
pub fn has_text(list: &Vec<String>, text: &String) -> (r: bool)
    ensures
        r == texts(list@).contains(text@),
{
    let mut i: usize = 0;
    while i < list.len()
        invariant
            i <= list@.len(),
            forall|k: int| 0 <= k < i ==> texts(list@)[k] != text@,
        decreases list@.len() - i,
    {
        if list[i] == *text {
            assert(texts(list@)[i as int] == text@);
            return true;
        }
        i += 1;
    }
    false
}

/// Adds a copy of each of `more` that `list` lacks.
pub fn add_texts(list: &mut Vec<String>, more: &Vec<String>)
    ensures
        texts(final(list)@) == with_texts(texts(old(list)@), texts(more@)),
{
    let mut i: usize = 0;
    assert(texts(more@).take(0) == Seq::<Seq<char>>::empty());
    while i < more.len()
        invariant
            i <= more@.len(),
            texts(list@) == with_texts(texts(old(list)@), texts(more@).take(i as int)),
        decreases more@.len() - i,
    {
        assert(texts(more@).take(i + 1).drop_last() == texts(more@).take(i as int));
        let ghost before = texts(list@);
        if !has_text(list, &more[i]) {
            list.push(more[i].clone());
            assert(texts(list@) =~= before.push(more@[i as int]@));
        }
        i += 1;
    }
    assert(texts(more@).take(more@.len() as int) == texts(more@));
}

} // verus!
