//! Message keywords, and the mailbox that some of them file a message
//! into.

use vstd::prelude::*;
use crate::mailbox::{DRAFTS_ID, JUNK_ID, TRASH_ID};
use crate::text::{eq_ignore_ascii_case, str_eq_ignore_ascii_case, texts};

verus! {

/// A keyword of a stored message.
#[derive(Debug, Clone, PartialEq, Eq)]
pub enum Keyword {
    Seen,
    Draft,
    Flagged,
    Answered,
    Recent,
    Important,
    Phishing,
    Junk,
    NotJunk,
    Deleted,
    Forwarded,
    MdnSent,
    Other(String),
}

/// A keyword, a custom one by its text.
pub enum KeywordView {
    Seen,
    Draft,
    Flagged,
    Answered,
    Recent,
    Important,
    Phishing,
    Junk,
    NotJunk,
    Deleted,
    Forwarded,
    MdnSent,
    Other(Seq<char>),
}

impl View for Keyword {
    type V = KeywordView;

    open spec fn view(&self) -> KeywordView {
        match *self {
            Keyword::Seen => KeywordView::Seen,
            Keyword::Draft => KeywordView::Draft,
            Keyword::Flagged => KeywordView::Flagged,
            Keyword::Answered => KeywordView::Answered,
            Keyword::Recent => KeywordView::Recent,
            Keyword::Important => KeywordView::Important,
            Keyword::Phishing => KeywordView::Phishing,
            Keyword::Junk => KeywordView::Junk,
            Keyword::NotJunk => KeywordView::NotJunk,
            Keyword::Deleted => KeywordView::Deleted,
            Keyword::Forwarded => KeywordView::Forwarded,
            Keyword::MdnSent => KeywordView::MdnSent,
            Keyword::Other(text) => KeywordView::Other(text@),
        }
    }
}

/// The keywords of a list, each by its view.
pub open spec fn keywords_view(keywords: Seq<Keyword>) -> Seq<KeywordView> {
    keywords.map_values(|k: Keyword| k@)
}

/// Whether `flag` is `name` behind a dollar sign or a backslash, ASCII
/// letter case aside.
pub open spec fn names(flag: Seq<char>, name: Seq<char>) -> bool {
    eq_ignore_ascii_case(flag, seq!['$'] + name) || eq_ignore_ascii_case(flag, seq!['\\'] + name)
}

/// The keyword that a flag stands for: a system keyword where the flag
/// names one, else a custom keyword with the flag as its text.
pub open spec fn keyword_of(flag: Seq<char>) -> KeywordView {
    if names(flag, "seen"@) {
        KeywordView::Seen
    } else if names(flag, "draft"@) {
        KeywordView::Draft
    } else if names(flag, "flagged"@) {
        KeywordView::Flagged
    } else if names(flag, "answered"@) {
        KeywordView::Answered
    } else if names(flag, "recent"@) {
        KeywordView::Recent
    } else if names(flag, "important"@) {
        KeywordView::Important
    } else if names(flag, "phishing"@) {
        KeywordView::Phishing
    } else if names(flag, "junk"@) {
        KeywordView::Junk
    } else if names(flag, "notjunk"@) {
        KeywordView::NotJunk
    } else if names(flag, "deleted"@) {
        KeywordView::Deleted
    } else if names(flag, "forwarded"@) {
        KeywordView::Forwarded
    } else if names(flag, "mdnsent"@) {
        KeywordView::MdnSent
    } else {
        KeywordView::Other(flag)
    }
}

/// The mailbox that a keyword files a message into, if it does.
pub open spec fn filing_target(keyword: KeywordView) -> Option<u32> {
    match keyword {
        KeywordView::Junk => Some(JUNK_ID),
        KeywordView::Deleted => Some(TRASH_ID),
        KeywordView::Draft => Some(DRAFTS_ID),
        _ => None,
    }
}

/// Whether `flag` is `dollar` or `backslash`, which are one name behind
/// either sign.
fn flag_names(flag: &str, dollar: &str, backslash: &str, name: Ghost<Seq<char>>) -> (r: bool)
    requires
        dollar@ == seq!['$'] + name@,
        backslash@ == seq!['\\'] + name@,
    ensures
        r == names(flag@, name@),
{
    str_eq_ignore_ascii_case(flag, dollar) || str_eq_ignore_ascii_case(flag, backslash)
}

impl Keyword {
    /// The keyword that `flag` stands for.
    pub fn parse(flag: &str) -> (keyword: Keyword)
        ensures
            keyword@ == keyword_of(flag@),
    {
        proof {
            reveal_strlit("seen");
            reveal_strlit("$seen");
            reveal_strlit("\\seen");
            reveal_strlit("draft");
            reveal_strlit("$draft");
            reveal_strlit("\\draft");
            reveal_strlit("flagged");
            reveal_strlit("$flagged");
            reveal_strlit("\\flagged");
            reveal_strlit("answered");
            reveal_strlit("$answered");
            reveal_strlit("\\answered");
            reveal_strlit("recent");
            reveal_strlit("$recent");
            reveal_strlit("\\recent");
            reveal_strlit("important");
            reveal_strlit("$important");
            reveal_strlit("\\important");
            reveal_strlit("phishing");
            reveal_strlit("$phishing");
            reveal_strlit("\\phishing");
            reveal_strlit("junk");
            reveal_strlit("$junk");
            reveal_strlit("\\junk");
            reveal_strlit("notjunk");
            reveal_strlit("$notjunk");
            reveal_strlit("\\notjunk");
            reveal_strlit("deleted");
            reveal_strlit("$deleted");
            reveal_strlit("\\deleted");
            reveal_strlit("forwarded");
            reveal_strlit("$forwarded");
            reveal_strlit("\\forwarded");
            reveal_strlit("mdnsent");
            reveal_strlit("$mdnsent");
            reveal_strlit("\\mdnsent");
            assert("$seen"@ =~= seq!['$'] + "seen"@);
            assert("\\seen"@ =~= seq!['\\'] + "seen"@);
            assert("$draft"@ =~= seq!['$'] + "draft"@);
            assert("\\draft"@ =~= seq!['\\'] + "draft"@);
            assert("$flagged"@ =~= seq!['$'] + "flagged"@);
            assert("\\flagged"@ =~= seq!['\\'] + "flagged"@);
            assert("$answered"@ =~= seq!['$'] + "answered"@);
            assert("\\answered"@ =~= seq!['\\'] + "answered"@);
            assert("$recent"@ =~= seq!['$'] + "recent"@);
            assert("\\recent"@ =~= seq!['\\'] + "recent"@);
            assert("$important"@ =~= seq!['$'] + "important"@);
            assert("\\important"@ =~= seq!['\\'] + "important"@);
            assert("$phishing"@ =~= seq!['$'] + "phishing"@);
            assert("\\phishing"@ =~= seq!['\\'] + "phishing"@);
            assert("$junk"@ =~= seq!['$'] + "junk"@);
            assert("\\junk"@ =~= seq!['\\'] + "junk"@);
            assert("$notjunk"@ =~= seq!['$'] + "notjunk"@);
            assert("\\notjunk"@ =~= seq!['\\'] + "notjunk"@);
            assert("$deleted"@ =~= seq!['$'] + "deleted"@);
            assert("\\deleted"@ =~= seq!['\\'] + "deleted"@);
            assert("$forwarded"@ =~= seq!['$'] + "forwarded"@);
            assert("\\forwarded"@ =~= seq!['\\'] + "forwarded"@);
            assert("$mdnsent"@ =~= seq!['$'] + "mdnsent"@);
            assert("\\mdnsent"@ =~= seq!['\\'] + "mdnsent"@);
        }
        if flag_names(flag, "$seen", "\\seen", Ghost("seen"@)) {
            Keyword::Seen
        } else if flag_names(flag, "$draft", "\\draft", Ghost("draft"@)) {
            Keyword::Draft
        } else if flag_names(flag, "$flagged", "\\flagged", Ghost("flagged"@)) {
            Keyword::Flagged
        } else if flag_names(flag, "$answered", "\\answered", Ghost("answered"@)) {
            Keyword::Answered
        } else if flag_names(flag, "$recent", "\\recent", Ghost("recent"@)) {
            Keyword::Recent
        } else if flag_names(flag, "$important", "\\important", Ghost("important"@)) {
            Keyword::Important
        } else if flag_names(flag, "$phishing", "\\phishing", Ghost("phishing"@)) {
            Keyword::Phishing
        } else if flag_names(flag, "$junk", "\\junk", Ghost("junk"@)) {
            Keyword::Junk
        } else if flag_names(flag, "$notjunk", "\\notjunk", Ghost("notjunk"@)) {
            Keyword::NotJunk
        } else if flag_names(flag, "$deleted", "\\deleted", Ghost("deleted"@)) {
            Keyword::Deleted
        } else if flag_names(flag, "$forwarded", "\\forwarded", Ghost("forwarded"@)) {
            Keyword::Forwarded
        } else if flag_names(flag, "$mdnsent", "\\mdnsent", Ghost("mdnsent"@)) {
            Keyword::MdnSent
        } else {
            Keyword::Other(flag.to_owned())
        }
    }

    /// Whether two keywords are the same.
    pub fn same(&self, other: &Keyword) -> (r: bool)
        ensures
            r == (self@ == other@),
    {
        match (self, other) {
            (Keyword::Seen, Keyword::Seen) => true,
            (Keyword::Draft, Keyword::Draft) => true,
            (Keyword::Flagged, Keyword::Flagged) => true,
            (Keyword::Answered, Keyword::Answered) => true,
            (Keyword::Recent, Keyword::Recent) => true,
            (Keyword::Important, Keyword::Important) => true,
            (Keyword::Phishing, Keyword::Phishing) => true,
            (Keyword::Junk, Keyword::Junk) => true,
            (Keyword::NotJunk, Keyword::NotJunk) => true,
            (Keyword::Deleted, Keyword::Deleted) => true,
            (Keyword::Forwarded, Keyword::Forwarded) => true,
            (Keyword::MdnSent, Keyword::MdnSent) => true,
            (Keyword::Other(a), Keyword::Other(b)) => *a == *b,
            _ => false,
        }
    }

    /// The mailbox that this keyword files a message into, if it does.
    pub fn target(&self) -> (r: Option<u32>)
        ensures
            r == filing_target(self@),
    {
        match self {
            Keyword::Junk => Some(JUNK_ID),
            Keyword::Deleted => Some(TRASH_ID),
            Keyword::Draft => Some(DRAFTS_ID),
            _ => None,
        }
    }
}

/// Whether `keyword` stands in `keywords`.
pub fn has_keyword(keywords: &Vec<Keyword>, keyword: &Keyword) -> (r: bool)
    ensures
        r == keywords_view(keywords@).contains(keyword@),
{
    let mut i: usize = 0;
    while i < keywords.len()
        invariant
            i <= keywords@.len(),
            forall|k: int| 0 <= k < i ==> keywords_view(keywords@)[k] != keyword@,
        decreases keywords@.len() - i,
    {
        if keywords[i].same(keyword) {
            assert(keywords_view(keywords@)[i as int] == keyword@);
            return true;
        }
        i += 1;
    }
    false
}

/// `keywords` with `keyword` at the end, unless it is there already.
pub open spec fn with_keyword(keywords: Seq<KeywordView>, keyword: KeywordView) -> Seq<
    KeywordView,
> {
    if keywords.contains(keyword) {
        keywords
    } else {
        keywords.push(keyword)
    }
}

/// `keywords` with the keyword of each of `flags` that it lacks, in the
/// order of `flags`.
pub open spec fn with_flags(keywords: Seq<KeywordView>, flags: Seq<Seq<char>>) -> Seq<KeywordView>
    decreases flags.len(),
{
    if flags.len() == 0 {
        keywords
    } else {
        with_keyword(with_flags(keywords, flags.drop_last()), keyword_of(flags.last()))
    }
}

/// Adds the keyword of each of `flags` that `keywords` lacks.
pub fn add_flags(keywords: &mut Vec<Keyword>, flags: &Vec<String>)
    ensures
        keywords_view(final(keywords)@) == with_flags(keywords_view(old(keywords)@), texts(flags@)),
{
    let mut i: usize = 0;
    assert(texts(flags@).take(0) == Seq::<Seq<char>>::empty());
    while i < flags.len()
        invariant
            i <= flags@.len(),
            keywords_view(keywords@) == with_flags(
                keywords_view(old(keywords)@),
                texts(flags@).take(i as int),
            ),
        decreases flags@.len() - i,
    {
        assert(texts(flags@).take(i + 1).drop_last() == texts(flags@).take(i as int));
        let keyword = Keyword::parse(flags[i].as_str());
        let ghost before = keywords_view(keywords@);
        if !has_keyword(keywords, &keyword) {
            keywords.push(keyword);
            assert(keywords_view(keywords@) =~= before.push(keyword@));
        }
        i += 1;
    }
    assert(texts(flags@).take(flags@.len() as int) == texts(flags@));
}

} // verus!
