//! Case-insensitive substring search over the search text of a record.

use vstd::prelude::*;
use crate::text::{chars_of, string_from_chars};
use crate::person::{Person, PersonView};

verus! {

/// The lowercase form of a text, as Unicode defines it.
pub uninterp spec fn lower_of(s: Seq<char>) -> Seq<char>;

/// Relies on `str::to_lowercase`: the result depends on the characters alone,
/// and the empty text stays empty.
#[verifier::external_body]
pub(crate) fn lowercase(s: &str) -> (r: String)
    ensures
        r@ == lower_of(s@),
        s@.len() == 0 ==> r@.len() == 0,
{
    s.to_lowercase()
}

/// `needle` occurs in `hay` as a contiguous run.
pub open spec fn contains_seq(hay: Seq<char>, needle: Seq<char>) -> bool {
    exists|i: int| 0 <= i && i + needle.len() <= hay.len() && #[trigger] hay.subrange(i, i + needle.len()) == needle
}

/// The present stack entries, one after another.
pub open spec fn stack_text(entries: Seq<Option<Seq<char>>>) -> Seq<char>
    decreases entries.len(),
{
    if entries.len() == 0 {
        Seq::empty()
    } else {
        let rest = stack_text(entries.drop_last());
        match entries.last() {
            Some(e) => rest + e,
            None => rest,
        }
    }
}

/// The text that a search looks in, before case folding: the concatenation
/// of name, nick and the present stack entries.
pub open spec fn search_text(p: PersonView) -> Seq<char> {
    p.name + p.nick + match p.stack {
        Some(e) => stack_text(e),
        None => Seq::empty(),
    }
}

/// `p` matches the search term `term`: the folded term occurs in the folded
/// search text.
pub open spec fn matches_term(term: Seq<char>, p: PersonView) -> bool {
    contains_seq(lower_of(search_text(p)), lower_of(term))
}

/// Whether `needle` occurs in `hay` at position `at`.
fn occurs_at(hay: &Vec<char>, needle: &Vec<char>, at: usize) -> (r: bool)
    requires
        at + needle@.len() <= hay@.len(),
    ensures
        r == (hay@.subrange(at as int, at + needle@.len()) == needle@),
{
    let n = hay.len();
    let mut k: usize = 0;
    while k < needle.len()
        invariant
            n == hay@.len(),
            at + needle@.len() <= hay@.len(),
            k <= needle@.len(),
            forall|j: int| 0 <= j < k ==> hay@[at + j] == needle@[j],
        decreases needle@.len() - k,
    {
        if hay[at + k] != needle[k] {
            assert(hay@.subrange(at as int, at + needle@.len())[k as int] != needle@[k as int]);
            return false;
        }
        k = k + 1;
    }
    assert(hay@.subrange(at as int, at + needle@.len()) =~= needle@);
    true
}

/// Whether the (already folded) term occurs in the (already folded) text.
pub fn matches_folded(term: &str, text: &str) -> (r: bool)
    ensures
        r == contains_seq(text@, term@),
{
    let hay = chars_of(text);
    let needle = chars_of(term);
    if needle.len() > hay.len() {
        return false;
    }
    let last = hay.len() - needle.len();
    let mut i: usize = 0;
    while i <= last
        invariant
            last == hay@.len() - needle@.len(),
            hay@ == text@,
            needle@ == term@,
            forall|j: int| 0 <= j < i ==> #[trigger] hay@.subrange(j, j + needle@.len()) != needle@,
        decreases last + 1 - i,
    {
        if occurs_at(&hay, &needle, i) {
            return true;
        }
        if i == last {
            return false;
        }
        i = i + 1;
    }
    false
}

/// The search text of a record, before case folding.
pub fn search_text_of(p: &Person) -> (r: String)
    ensures
        r@ == search_text(p@),
{
    let mut out = chars_of(p.name.as_str());
    let nick = chars_of(p.nick.as_str());
    let mut i: usize = 0;
    let ghost base = out@;
    while i < nick.len()
        invariant
            i <= nick@.len(),
            out@ == base + nick@.subrange(0, i as int),
        decreases nick@.len() - i,
    {
        out.push(nick[i]);
        i = i + 1;
    }
    assert(nick@.subrange(0, nick@.len() as int) =~= nick@);
    match &p.stack {
        Some(entries) => {
            let ghost head = out@;
            let ghost ev = p@.stack->Some_0;
            let mut k: usize = 0;
            while k < entries.len()
                invariant
                    k <= entries@.len(),
                    ev == entries@.map_values(|e: Option<String>| crate::person::entry_view(e)),
                    out@ == head + stack_text(ev.subrange(0, k as int)),
                decreases entries@.len() - k,
            {
                assert(ev.subrange(0, k + 1).drop_last() =~= ev.subrange(0, k as int));
                match &entries[k] {
                    Some(e) => {
                        let ec = chars_of(e.as_str());
                        let ghost mid = out@;
                        let mut j: usize = 0;
                        while j < ec.len()
                            invariant
                                j <= ec@.len(),
                                out@ == mid + ec@.subrange(0, j as int),
                            decreases ec@.len() - j,
                        {
                            out.push(ec[j]);
                            j = j + 1;
                        }
                        assert(ec@.subrange(0, ec@.len() as int) =~= ec@);
                        assert(out@ =~= head + stack_text(ev.subrange(0, k + 1)));
                    },
                    None => {},
                }
                k = k + 1;
            }
            assert(ev.subrange(0, entries@.len() as int) =~= ev);
        },
        None => {},
    }
    assert(out@ =~= search_text(p@));
    string_from_chars(&out)
}

/// Characters that a LIKE pattern treats specially.
pub open spec fn like_special(c: char) -> bool {
    c == '%' || c == '_' || c == '\\'
}

/// `s` with a backslash before each character that LIKE treats specially.
pub open spec fn like_escaped(s: Seq<char>) -> Seq<char>
    decreases s.len(),
{
    if s.len() == 0 {
        Seq::empty()
    } else if like_special(s.last()) {
        like_escaped(s.drop_last()) + seq!['\\', s.last()]
    } else {
        like_escaped(s.drop_last()) + seq![s.last()]
    }
}

/// The LIKE pattern that matches the texts in which `term` occurs literally:
/// `%`, the escaped term, `%`.
pub fn like_pattern(term: &str) -> (r: String)
    ensures
        r@ == seq!['%'] + like_escaped(term@) + seq!['%'],
{
    let cs = chars_of(term);
    let mut out: Vec<char> = Vec::new();
    out.push('%');
    let mut i: usize = 0;
    while i < cs.len()
        invariant
            i <= cs@.len(),
            cs@ == term@,
            out@ == seq!['%'] + like_escaped(cs@.subrange(0, i as int)),
        decreases cs@.len() - i,
    {
        assert(cs@.subrange(0, i + 1).drop_last() =~= cs@.subrange(0, i as int));
        let c = cs[i];
        if c == '%' || c == '_' || c == '\\' {
            out.push('\\');
        }
        out.push(c);
        assert(out@ =~= seq!['%'] + like_escaped(cs@.subrange(0, i + 1)));
        i = i + 1;
    }
    assert(cs@.subrange(0, cs@.len() as int) =~= cs@);
    out.push('%');
    string_from_chars(&out)
}

} // verus!
