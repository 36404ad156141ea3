//! Turning a page body written in markup into clean, whitespace-normalized
//! plain text.
//!
//! The body of a page arrives as markup: text interleaved with tags written
//! between `<` and `>`. Extraction walks the characters once in reading
//! order, replaces every tag by a single separating space, and then collapses
//! runs of whitespace into single spaces while trimming both ends. The result
//! is a single flat string that holds no markup delimiter at all.
//!
//! The character model is deliberately narrow, and that narrowness is the
//! documented policy: whitespace means the four ASCII characters space,
//! tab, line feed and carriage return — Unicode spaces pass through as
//! ordinary text — and markup means `<`-to-`>` tags only, so a character
//! entity (an ampersand escape) is kept exactly as written rather than
//! decoded. Anything the model keeps is therefore a character the source
//! wrote, and the no-markup guarantee below is absolute.

use vstd::prelude::*;

verus! {

/// The whitespace characters that normalization collapses.
pub open spec fn is_space_char(c: char) -> bool {
    c == ' ' || c == '\t' || c == '\n' || c == '\r'
}

/// The two characters that delimit a markup tag.
pub open spec fn is_markup_delim(c: char) -> bool {
    c == '<' || c == '>'
}

/// One left-to-right pass over `s` that removes markup: the returned pair is
/// the emitted text and whether the scan ends inside an unclosed tag.
///
/// Outside a tag, `<` opens a tag and is emitted as a separating space; a
/// stray `>` is likewise turned into a space, so no delimiter is ever
/// emitted. Inside a tag every character is dropped until the closing `>`.
pub open spec fn strip_markup_rec(s: Seq<char>, in_tag: bool) -> (Seq<char>, bool)
    decreases s.len(),
{
    if s.len() == 0 {
        (Seq::empty(), in_tag)
    } else {
        let prev = strip_markup_rec(s.drop_last(), in_tag);
        let c = s.last();
        if prev.1 {
            if c == '>' {
                (prev.0, false)
            } else {
                (prev.0, true)
            }
        } else {
            if c == '<' {
                (prev.0.push(' '), true)
            } else if c == '>' {
                (prev.0.push(' '), false)
            } else {
                (prev.0.push(c), false)
            }
        }
    }
}

/// The text of `s` with every markup tag replaced by a single space.
pub open spec fn strip_markup_spec(s: Seq<char>) -> Seq<char> {
    strip_markup_rec(s, false).0
}

/// One left-to-right pass that collapses whitespace: the returned pair is
/// the emitted text and whether a separating space is still pending.
///
/// A run of whitespace after some emitted text becomes a single pending
/// space, written out only when another non-space character follows; leading
/// and trailing whitespace therefore disappears, and every whitespace
/// character becomes a plain space.
pub open spec fn normalize_ws_rec(s: Seq<char>) -> (Seq<char>, bool)
    decreases s.len(),
{
    if s.len() == 0 {
        (Seq::empty(), false)
    } else {
        let prev = normalize_ws_rec(s.drop_last());
        let c = s.last();
        if is_space_char(c) {
            (prev.0, prev.0.len() > 0)
        } else {
            if prev.1 {
                (prev.0.push(' ').push(c), false)
            } else {
                (prev.0.push(c), false)
            }
        }
    }
}

/// `s` with runs of whitespace collapsed to single spaces and both ends
/// trimmed.
pub open spec fn normalize_ws_spec(s: Seq<char>) -> Seq<char> {
    normalize_ws_rec(s).0
}

/// The plain text of a markup body: tags replaced by separating spaces,
/// then whitespace normalized.
pub open spec fn clean_text_spec(s: Seq<char>) -> Seq<char> {
    normalize_ws_spec(strip_markup_spec(s))
}

proof fn lemma_strip_rec_no_markup(s: Seq<char>, in_tag: bool)
    ensures
        forall|i: int|
            0 <= i < strip_markup_rec(s, in_tag).0.len() ==> !is_markup_delim(
                #[trigger] strip_markup_rec(s, in_tag).0[i],
            ),
    decreases s.len(),
{
    if s.len() > 0 {
        lemma_strip_rec_no_markup(s.drop_last(), in_tag);
        let prev = strip_markup_rec(s.drop_last(), in_tag);
        let cur = strip_markup_rec(s, in_tag);
        let c = s.last();
        assert forall|i: int| 0 <= i < cur.0.len() implies !is_markup_delim(cur.0[i]) by {
            if i < prev.0.len() {
                assert(cur.0[i] == prev.0[i]);
            } else {
                assert(cur.0[i] == ' ' || (cur.0[i] == c && !is_markup_delim(c)));
            }
        }
    }
}

proof fn lemma_normalize_rec_keeps_no_markup(s: Seq<char>)
    requires
        forall|i: int| 0 <= i < s.len() ==> !is_markup_delim(s[i]),
    ensures
        forall|i: int|
            0 <= i < normalize_ws_rec(s).0.len() ==> !is_markup_delim(
                #[trigger] normalize_ws_rec(s).0[i],
            ),
    decreases s.len(),
{
    if s.len() > 0 {
        assert(forall|i: int| 0 <= i < s.drop_last().len() ==> !is_markup_delim(s.drop_last()[i]));
        lemma_normalize_rec_keeps_no_markup(s.drop_last());
        let prev = normalize_ws_rec(s.drop_last());
        let cur = normalize_ws_rec(s);
        let c = s.last();
        assert(!is_markup_delim(c));
        if !is_space_char(c) {
            assert forall|i: int| 0 <= i < cur.0.len() implies !is_markup_delim(cur.0[i]) by {
                if i < prev.0.len() {
                    assert(cur.0[i] == prev.0[i]);
                } else {
                    assert(cur.0[i] == ' ' || cur.0[i] == c);
                }
            }
        }
    }
}

/// No markup delimiter survives extraction: for every input, the cleaned
/// text contains neither `<` nor `>` at any position.
pub proof fn lemma_clean_text_no_markup(s: Seq<char>)
    ensures
        forall|i: int|
            0 <= i < clean_text_spec(s).len() ==> !is_markup_delim(#[trigger] clean_text_spec(s)[i]),
{
    lemma_strip_rec_no_markup(s, false);
    lemma_normalize_rec_keeps_no_markup(strip_markup_spec(s));
}

/// Relies on `str::chars`: yields exactly the characters of the string, in
/// order.
#[verifier::external_body]
pub(crate) fn chars_of(s: &str) -> (r: Vec<char>)
    ensures
        r@ == s@,
{
    let mut out: Vec<char> = Vec::new();
    for c in s.chars() {
        out.push(c);
    }
    out
}

/// Relies on `String::push`: appends one character, so the result holds
/// exactly the characters of `v`, in order.
#[verifier::external_body]
pub(crate) fn string_from_chars(v: &Vec<char>) -> (r: String)
    ensures
        r@ == v@,
{
    let mut out = String::new();
    for c in v.iter() {
        out.push(*c);
    }
    out
}

fn strip_markup(v: &Vec<char>) -> (r: Vec<char>)
    ensures
        r@ == strip_markup_spec(v@),
{
    let n = v.len();
    let mut out: Vec<char> = Vec::new();
    let mut in_tag: bool = false;
    let mut i: usize = 0;
    while i < n
        invariant
            n == v@.len(),
            i <= n,
            out@ == strip_markup_rec(v@.take(i as int), false).0,
            in_tag == strip_markup_rec(v@.take(i as int), false).1,
        decreases n - i,
    {
        proof {
            assert(v@.take(i + 1).drop_last() =~= v@.take(i as int));
            assert(v@.take(i + 1).last() == v@[i as int]);
        }
        let c = v[i];
        if in_tag {
            if c == '>' {
                in_tag = false;
            }
        } else {
            if c == '<' {
                out.push(' ');
                in_tag = true;
            } else if c == '>' {
                out.push(' ');
            } else {
                out.push(c);
            }
        }
        i = i + 1;
    }
    proof {
        assert(v@.take(n as int) =~= v@);
    }
    out
}

fn normalize_ws(v: &Vec<char>) -> (r: Vec<char>)
    ensures
        r@ == normalize_ws_spec(v@),
{
    let n = v.len();
    let mut out: Vec<char> = Vec::new();
    let mut pending: bool = false;
    let mut i: usize = 0;
    while i < n
        invariant
            n == v@.len(),
            i <= n,
            out@ == normalize_ws_rec(v@.take(i as int)).0,
            pending == normalize_ws_rec(v@.take(i as int)).1,
        decreases n - i,
    {
        proof {
            assert(v@.take(i + 1).drop_last() =~= v@.take(i as int));
            assert(v@.take(i + 1).last() == v@[i as int]);
        }
        let c = v[i];
        let space = c == ' ' || c == '\t' || c == '\n' || c == '\r';
        if space {
            pending = out.len() > 0;
        } else {
            if pending {
                out.push(' ');
            }
            out.push(c);
            pending = false;
        }
        i = i + 1;
    }
    proof {
        assert(v@.take(n as int) =~= v@);
    }
    out
}

/// Collapses runs of whitespace in `s` into single spaces and trims both
/// ends, without touching anything else.
pub fn normalize_text(s: &str) -> (r: String)
    ensures
        r@ == normalize_ws_spec(s@),
{
    let chars = chars_of(s);
    let cleaned = normalize_ws(&chars);
    string_from_chars(&cleaned)
}

/// Extracts the plain text of a markup body: every tag becomes a single
/// separating space, whitespace runs collapse to single spaces, and both
/// ends are trimmed. The result never contains a markup delimiter.
pub fn clean_text(s: &str) -> (r: String)
    ensures
        r@ == clean_text_spec(s@),
        forall|i: int| 0 <= i < r@.len() ==> !is_markup_delim(r@[i]),
{
    let chars = chars_of(s);
    let stripped = strip_markup(&chars);
    let cleaned = normalize_ws(&stripped);
    proof {
        lemma_clean_text_no_markup(s@);
        assert forall|i: int| 0 <= i < cleaned@.len() implies !is_markup_delim(cleaned@[i]) by {
            assert(cleaned@[i] == clean_text_spec(s@)[i]);
        }
    }
    string_from_chars(&cleaned)
}

} // verus!
