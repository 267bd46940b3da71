//! Activities (.pka): their instructions as readable text, the network
//! description, and the pages a request may ask for.
use vstd::prelude::*;

use crate::error::{cat, PtError};
use crate::text::{
    chars_of, eq_chars, int_str, is_one_of, int_text, find, find_after, is_ascii_alnum, is_ascii_alphanumeric, is_space, is_whitespace,
    lemma_find, lemma_find_from, occurs_at, find_from, lower_seq, contains, lowercase_ascii, push_all, replace, replace_chars, single, slice_range,
    string_of, trim, trimmed,
};

verus! {

/// Assessment counts: how many are right out of how many.
#[derive(Debug, Clone, Copy, PartialEq, Eq)]
pub struct Tally {
    pub correct: i64,
    pub total: i64,
}

#[derive(Debug, Clone, Default)]
pub struct InstructionsRequest {
    /// Page number starting at 1. Defaults to 1.
    pub page: Option<i64>,
}

#[derive(Debug, Clone, PartialEq, Eq)]
pub struct Instructions {
    pub page: i64,
    pub pages: i64,
    /// The page as readable text.
    pub text: String,
    /// The page as Packet Tracer stores it.
    pub html: String,
}

#[derive(Debug, Clone, Default)]
pub struct DescriptionRequest {
    /// New description (HTML or plain text). Omit to only read it.
    pub text: Option<String>,
}

#[derive(Debug, Clone, PartialEq, Eq)]
pub struct Description {
    pub text: String,
    pub html: String,
}

/// The page a request asks for, when the activity has `pages` of them.
pub fn instruction_page(request: &InstructionsRequest, pages: i64) -> (r: Result<i64, PtError>)
    ensures
        ({
            let page = match request.page {
                Some(p) => p,
                None => 1,
            };
            &&& (1 <= page <= pages) ==> r == Ok::<i64, PtError>(page)
            &&& !(1 <= page <= pages) ==> (r matches Err(PtError::InvalidInput(m)) && m@
                == "page must be between 1 and "@ + int_str(pages as int))
        }),
{
    let page = match request.page {
        Some(p) => p,
        None => 1,
    };
    if page < 1 || page > pages {
        let count = int_text(pages);
        return Err(PtError::InvalidInput(cat("page must be between 1 and ", count.as_str())));
    }
    Ok(page)
}

/// The instructions page as it is answered: the stored HTML and its text.
pub fn instructions_of(page: i64, pages: i64, html: String) -> (r: Instructions)
    ensures
        r.page == page,
        r.pages == pages,
        r.html == html,
        r.text@ == html_text(html@),
{
    let text = html_to_text(html.as_str());
    Instructions { page, pages, text, html }
}

/// The description as it is answered: the stored HTML and its text.
pub fn description_of(html: String) -> (r: Description)
    ensures
        r.html == html,
        r.text@ == html_text(html@),
{
    let text = html_to_text(html.as_str());
    Description { text, html }
}

/// The characters of an optional character vector.
pub open spec fn view_opt(o: Option<Vec<char>>) -> Option<Seq<char>> {
    match o {
        Some(v) => Some(v@),
        None => None,
    }
}

pub open spec fn is_quote(c: char) -> bool {
    c == '"' || c == '\''
}

/// Characters that end an unquoted attribute value: ASCII whitespace and `>`.
pub open spec fn ends_uri(c: char) -> bool {
    c == ' ' || c == '\t' || c == '\n' || c == '\r' || c == '\x0C' || c == '>'
}

/// The length of the unquoted URI rest at the start of `t`: up to the first
/// character that ends an attribute value, or all of `t`.
pub open spec fn uri_end(t: Seq<char>) -> int
    decreases t.len(),
{
    if t.len() == 0 || ends_uri(t[0]) {
        0
    } else {
        1 + uri_end(t.drop_first())
    }
}

pub proof fn lemma_uri_end_bounds(t: Seq<char>)
    ensures
        0 <= uri_end(t) <= t.len(),
        uri_end(t) < t.len() ==> ends_uri(t[uri_end(t)]),
        forall|j: int| 0 <= j < uri_end(t) ==> !ends_uri(#[trigger] t[j]),
    decreases t.len(),
{
    if t.len() > 0 && !ends_uri(t[0]) {
        lemma_uri_end_bounds(t.drop_first());
        assert forall|j: int| 0 <= j < uri_end(t) implies !ends_uri(#[trigger] t[j]) by {
            if j > 0 {
                assert(t[j] == t.drop_first()[j - 1]);
            }
        }
    }
}

/// Characters after which a URI value can begin outside quotes: `=`, ASCII
/// whitespace and `>`.
pub open spec fn starts_value(c: char) -> bool {
    c == '=' || ends_uri(c)
}

/// `s`, which follows the character `before`, with every `data:` URI replaced
/// by `data:,image-removed`. A `data:` right after a quote runs up to the
/// matching closing quote, or to the end when the quote is never closed. A
/// `data:` that begins an unquoted value (after `=`, ASCII whitespace or `>`,
/// or at the start of the text) runs up to the next ASCII whitespace or `>`,
/// or to the end. A `data:` inside another word, such as `https://x/data:y`,
/// is no URI of its own and stays.
pub open spec fn strip_after(before: char, s: Seq<char>) -> Seq<char>
    decreases s.len(),
{
    let n = "data:"@.len();
    match find(s, "data:"@) {
        None => s,
        Some(k) => if 0 <= k && k + n <= s.len() && n > 0 {
            let tail = s.skip(k + n);
            let prev = if k > 0 { s[k - 1] } else { before };
            if is_quote(prev) {
                s.take(k) + "data:,image-removed"@ + match find(tail, seq![prev]) {
                    None => Seq::empty(),
                    Some(e) => if 0 <= e <= tail.len() {
                        strip_after(if e > 0 { tail[e - 1] } else { ':' }, tail.skip(e))
                    } else {
                        Seq::empty()
                    },
                }
            } else if starts_value(prev) {
                let e = uri_end(tail);
                s.take(k) + "data:,image-removed"@ + if 0 <= e <= tail.len() {
                    strip_after(if e > 0 { tail[e - 1] } else { ':' }, tail.skip(e))
                } else {
                    Seq::empty()
                }
            } else {
                s.take(k + n) + strip_after(':', tail)
            }
        } else {
            s
        },
    }
}

/// `s` with every `data:` URI replaced by `data:,image-removed`; the start of
/// the text counts as the start of a value.
pub open spec fn strip_images(s: Seq<char>) -> Seq<char> {
    strip_after(' ', s)
}

/// The character before position `pos` of `h`, or a space at the start.
pub open spec fn char_before(h: Seq<char>, pos: int) -> char {
    if pos > 0 { h[pos - 1] } else { ' ' }
}

proof fn lemma_find_is(s: Seq<char>, p: Seq<char>, k: int)
    requires
        occurs_at(s, p, k),
        forall|j: int| 0 <= j < k ==> !occurs_at(s, p, j),
    ensures
        find(s, p) == Some(k),
{
    lemma_find_from(s, p, 0);
}

proof fn lemma_find_kept_prefix(s: Seq<char>, o: Seq<char>, k: int)
    requires
        find(s, "data:"@) == Some(k),
        "data:"@.len() == 5,
        0 <= k,
        k + 5 <= s.len(),
        k + 5 <= o.len(),
        o.take(k + 5) == s.take(k + 5),
    ensures
        find(o, "data:"@) == Some(k),
{
    let d = "data:"@;
    lemma_find(s, d);
    assert forall|j: int| 0 <= j <= k implies occurs_at(o, d, j) == occurs_at(s, d, j) by {
        assert(o.subrange(j, j + 5) =~= o.take(k + 5).subrange(j, j + 5));
        assert(s.subrange(j, j + 5) =~= s.take(k + 5).subrange(j, j + 5));
    }
    lemma_find_is(o, d, k);
}

proof fn lemma_not_at_start(t: Seq<char>)
    requires
        t.len() > 0,
        t[0] != 'd',
        "data:"@ == seq!['d', 'a', 't', 'a', ':'],
    ensures
        find(t, "data:"@) matches Some(k) ==> 1 <= k && k + 5 <= t.len(),
{
    lemma_find(t, "data:"@);
    if let Some(k) = find(t, "data:"@) {
        if k == 0 {
            assert(t.subrange(0, 5)[0] == t[0]);
        }
    }
}

/// The piece after a replaced or kept `data:` keeps its first character.
proof fn lemma_first_kept(c: char, t: Seq<char>)
    requires
        t.len() > 0,
        t[0] != 'd',
        "data:"@ == seq!['d', 'a', 't', 'a', ':'],
    ensures
        strip_after(c, t).len() > 0,
        strip_after(c, t)[0] == t[0],
{
    lemma_not_at_start(t);
}

/// What comes before a text matters only for a `data:` at its very start.
proof fn lemma_before_irrelevant(c1: char, c2: char, t: Seq<char>)
    requires
        t.len() > 0,
        t[0] != 'd',
        "data:"@ == seq!['d', 'a', 't', 'a', ':'],
    ensures
        strip_after(c1, t) == strip_after(c2, t),
{
    lemma_not_at_start(t);
}

proof fn lemma_uri_end_append(a: Seq<char>, x: Seq<char>)
    requires
        forall|i: int| 0 <= i < a.len() ==> !ends_uri(#[trigger] a[i]),
    ensures
        uri_end(a + x) == a.len() + uri_end(x),
    decreases a.len(),
{
    if a.len() > 0 {
        assert((a + x).drop_first() =~= a.drop_first() + x);
        assert((a + x)[0] == a[0]);
        lemma_uri_end_append(a.drop_first(), x);
    } else {
        assert(a + x =~= x);
    }
}

/// Stripping what a stripped piece left changes nothing, whatever came
/// before it.
proof fn lemma_piece_stable(c: char, c2: char, t: Seq<char>)
    requires
        t.len() > 0 ==> t[0] != 'd',
        strip_after(c, strip_after(c, t)) == strip_after(c, t),
        "data:"@ == seq!['d', 'a', 't', 'a', ':'],
    ensures
        strip_after(c2, strip_after(c, t)) == strip_after(c, t),
        strip_after(c, t).len() == 0 <==> t.len() == 0,
        t.len() > 0 ==> strip_after(c, t)[0] == t[0],
{
    if t.len() > 0 {
        lemma_first_kept(c, t);
        lemma_before_irrelevant(c2, c, strip_after(c, t));
    } else {
        lemma_find(t, "data:"@);
    }
}

/// Removing inline images from a text, which follows `before`, a second
/// time changes nothing.
#[verifier::rlimit(100)]
#[verifier::spinoff_prover]
pub proof fn lemma_strip_after_once(before: char, s: Seq<char>)
    ensures
        strip_after(before, strip_after(before, s)) == strip_after(before, s),
    decreases s.len(),
{
    reveal_strlit("data:");
    reveal_strlit("data:,image-removed");
    let d = "data:"@;
    let big = "data:,image-removed"@;
    assert(d =~= seq!['d', 'a', 't', 'a', ':']);
    let rest_c = seq![',', 'i', 'm', 'a', 'g', 'e', '-', 'r', 'e', 'm', 'o', 'v', 'e', 'd'];
    assert(big =~= d + rest_c);
    let o = strip_after(before, s);
    lemma_find(s, d);
    match find(s, d) {
        None => {},
        Some(k) => {
            let tail = s.skip(k + 5);
            let prev = if k > 0 { s[k - 1] } else { before };
            if is_quote(prev) || starts_value(prev) {
                let e: int = if is_quote(prev) {
                    match find(tail, seq![prev]) {
                        None => tail.len() as int,
                        Some(e) => e,
                    }
                } else {
                    uri_end(tail)
                };
                if is_quote(prev) {
                    lemma_find(tail, seq![prev]);
                    if let Some(e1) = find(tail, seq![prev]) {
                        assert(tail.subrange(e1, e1 + 1)[0] == tail[e1]);
                    }
                } else {
                    lemma_uri_end_bounds(tail);
                }
                let piece = tail.skip(e);
                let c = if e > 0 { tail[e - 1] } else { ':' };
                let x = if is_quote(prev) && find(tail, seq![prev]) is None {
                    Seq::<char>::empty()
                } else {
                    strip_after(c, piece)
                };
                assert(piece.len() > 0 ==> piece[0] == tail[e]);
                if !(is_quote(prev) && find(tail, seq![prev]) is None) {
                    lemma_strip_after_once(c, piece);
                    lemma_piece_stable(c, 'd', piece);
                } else {
                    lemma_find(x, d);
                }
                assert(o =~= s.take(k) + big + x);
                assert(x.len() > 0 ==> (if is_quote(prev) { x[0] == prev } else { ends_uri(x[0]) }));
                assert(o.take(k + 5) =~= s.take(k + 5));
                lemma_find_kept_prefix(s, o, k);
                assert(k > 0 ==> o[k - 1] == s[k - 1]);
                let tail_o = o.skip(k + 5);
                assert(tail_o =~= rest_c + x);
                assert(tail_o.skip(14) =~= x);
                assert(tail_o[13] == 'd');
                assert(o.take(k) =~= s.take(k));
                if is_quote(prev) {
                    let q = seq![prev];
                    assert forall|j: int| 0 <= j < 14 implies !occurs_at(tail_o, q, j) by {
                        assert(tail_o.subrange(j, j + 1)[0] == rest_c[j]);
                    }
                    if x.len() > 0 {
                        assert(tail_o.subrange(14, 15) =~= q);
                        lemma_find_is(tail_o, q, 14);
                    } else {
                        lemma_find(tail_o, q);
                        assert forall|j: int| 14 <= j implies !occurs_at(tail_o, q, j) by {}
                        if find(tail_o, q) is Some {
                            let j = find(tail_o, q)->0;
                            assert(occurs_at(tail_o, q, j));
                        }
                    }
                } else {
                    assert forall|i: int| 0 <= i < rest_c.len() implies !ends_uri(#[trigger] rest_c[i]) by {}
                    lemma_uri_end_append(rest_c, x);
                    assert(uri_end(x) == 0);
                }
            } else {
                let y = strip_after(':', tail);
                lemma_strip_after_once(':', tail);
                assert(o =~= s.take(k + 5) + y);
                assert(o.take(k + 5) =~= s.take(k + 5));
                lemma_find_kept_prefix(s, o, k);
                assert(k > 0 ==> o[k - 1] == s[k - 1]);
                assert(o.skip(k + 5) =~= y);
            }
        },
    }
}

/// Removing inline images a second time changes nothing.
pub proof fn lemma_images_stripped_once(s: Seq<char>)
    ensures
        strip_images(strip_images(s)) == strip_images(s),
{
    lemma_strip_after_once(' ', s);
}

/// Replaces every `data:` URI in the HTML, the embedded images of activity
/// instructions, with a short placeholder.
#[verifier::rlimit(100)]
#[verifier::spinoff_prover]
pub fn without_inline_images(html: &str) -> (out: String)
    ensures
        out@ == strip_images(html@),
{
    let h = chars_of(html);
    let data = chars_of("data:");
    let removed = chars_of("data:,image-removed");
    proof {
        reveal_strlit("data:");
        assert(data@ =~= seq!['d', 'a', 't', 'a', ':']);
    }
    let mut kept: Vec<char> = Vec::new();
    let mut pos: usize = 0;
    assert(h@.skip(0) =~= h@);
    while pos < h.len()
        invariant
            pos <= h@.len(),
            data@ == "data:"@,
            data@ =~= seq!['d', 'a', 't', 'a', ':'],
            removed@ == "data:,image-removed"@,
            kept@ + strip_after(char_before(h@, pos as int), h@.skip(pos as int)) == strip_images(
                h@,
            ),
        decreases h.len() - pos,
    {
        let ghost rest = h@.skip(pos as int);
        let before: char = if pos == 0 {
            ' '
        } else {
            h[pos - 1]
        };
        match find_after(&h, &data, pos) {
            None => {
                let tail = slice_range(&h, pos, h.len());
                push_all(&mut kept, &tail);
                assert(tail@ =~= rest);
                pos = h.len();
                assert(h@.skip(pos as int) =~= Seq::<char>::empty());
                assert(find(Seq::<char>::empty(), "data:"@) is None);
            },
            Some(k) => {
                proof {
                    lemma_find(rest, data@);
                }
                let at = pos + k;
                let prev: char = if k > 0 {
                    h[at - 1]
                } else {
                    before
                };
                assert(k > 0 ==> rest[k - 1] == h@[at - 1]);
                assert(h@[at + 4] == rest[k + 4]);
                assert(rest.subrange(k as int, k + 5) =~= data@);
                assert(h@[at + 4] == data@[4]);
                let ghost tail = rest.skip(k + 5);
                assert(tail =~= h@.skip(at + 5));
                if prev == '"' || prev == '\'' {
                    let chunk = slice_range(&h, pos, at);
                    push_all(&mut kept, &chunk);
                    push_all(&mut kept, &removed);
                    assert(chunk@ =~= rest.take(k as int));
                    let quote = single(prev);
                    match find_after(&h, &quote, at + 5) {
                        None => {
                            pos = h.len();
                            assert(h@.skip(pos as int) =~= Seq::<char>::empty());
                            assert(find(Seq::<char>::empty(), "data:"@) is None);
                        },
                        Some(e) => {
                            proof {
                                lemma_find(tail, quote@);
                            }
                            assert(tail.skip(e as int) =~= h@.skip(at + 5 + e));
                            assert(e > 0 ==> tail[e - 1] == h@[at + 5 + e - 1]);
                            pos = at + 5 + e;
                        },
                    }
                } else if prev == '=' || prev == ' ' || prev == '\t' || prev == '\n' || prev
                    == '\r' || prev == '\x0C' || prev == '>' {
                    let chunk = slice_range(&h, pos, at);
                    push_all(&mut kept, &chunk);
                    push_all(&mut kept, &removed);
                    assert(chunk@ =~= rest.take(k as int));
                    let mut stop: usize = at + 5;
                    proof {
                        lemma_uri_end_bounds(tail);
                    }
                    while stop < h.len() && !(h[stop] == ' ' || h[stop] == '\t' || h[stop] == '\n'
                        || h[stop] == '\r' || h[stop] == '\x0C' || h[stop] == '>')
                        invariant
                            at + 5 <= stop <= h@.len(),
                            tail =~= h@.skip(at + 5),
                            0 <= uri_end(tail) <= tail.len(),
                            uri_end(tail) < tail.len() ==> ends_uri(tail[uri_end(tail)]),
                            forall|j: int| 0 <= j < uri_end(tail) ==> !ends_uri(#[trigger] tail[j]),
                            stop - (at + 5) <= uri_end(tail),
                        decreases h.len() - stop,
                    {
                        assert(tail[stop - (at + 5)] == h@[stop as int]);
                        stop = stop + 1;
                    }
                    proof {
                        if stop < h.len() {
                            assert(tail[stop - (at + 5)] == h@[stop as int]);
                        }
                    }
                    assert(stop - (at + 5) == uri_end(tail));
                    assert(tail.skip(uri_end(tail)) =~= h@.skip(stop as int));
                    assert(stop > at + 5 ==> tail[stop - (at + 5) - 1] == h@[stop - 1]);
                    pos = stop;
                } else {
                    let chunk = slice_range(&h, pos, at + 5);
                    push_all(&mut kept, &chunk);
                    assert(chunk@ =~= rest.take(k + 5));
                    pos = at + 5;
                }
            },
        }
    }
    assert(h@.skip(pos as int) =~= Seq::<char>::empty());
    assert(find(Seq::<char>::empty(), "data:"@) is None);
    string_of(&kept)
}

/// `s` without its leading slashes.
pub open spec fn slash_free(s: Seq<char>) -> Seq<char>
    decreases s.len(),
{
    if s.len() > 0 && s[0] == '/' {
        slash_free(s.drop_first())
    } else {
        s
    }
}

/// The leading ASCII letters and digits of `s`.
pub open spec fn alnum_prefix(s: Seq<char>) -> Seq<char>
    decreases s.len(),
{
    if s.len() > 0 && is_ascii_alnum(s[0]) {
        seq![s[0]] + alnum_prefix(s.drop_first())
    } else {
        Seq::empty()
    }
}

/// The element name of a tag's inside text, in lower case: `/P class=x` names `p`.
pub open spec fn tag_name(tag: Seq<char>) -> Seq<char> {
    lower_seq(alnum_prefix(slash_free(tag)))
}

/// Elements whose content is not text.
pub open spec fn is_hidden_tag(name: Seq<char>) -> bool {
    name == "style"@ || name == "script"@ || name == "head"@
}

/// Elements that start a new line.
pub open spec fn is_break_tag(name: Seq<char>) -> bool {
    ||| name == "br"@
    ||| name == "p"@
    ||| name == "div"@
    ||| name == "li"@
    ||| name == "tr"@
    ||| name == "h1"@
    ||| name == "h2"@
    ||| name == "h3"@
    ||| name == "h4"@
    ||| name == "h5"@
    ||| name == "h6"@
}

pub open spec fn is_closing(tag: Seq<char>) -> bool {
    tag.len() > 0 && tag[0] == '/'
}

pub open spec fn is_self_closing(tag: Seq<char>) -> bool {
    tag.len() > 0 && tag.last() == '/'
}

/// The hidden element the reader is inside after the tag `tag`.
pub open spec fn next_hidden(tag: Seq<char>, hidden: Option<Seq<char>>) -> Option<Seq<char>> {
    match hidden {
        Some(inside) => if is_closing(tag) && inside == tag_name(tag) {
            None
        } else {
            hidden
        },
        None => if !is_closing(tag) && is_hidden_tag(tag_name(tag)) && !is_self_closing(tag) {
            Some(tag_name(tag))
        } else {
            None
        },
    }
}

/// The text a tag stands for: `[image]` for an image, a line break for a block.
pub open spec fn tag_text(tag: Seq<char>, hidden: Option<Seq<char>>) -> Seq<char> {
    if hidden is Some || next_hidden(tag, None) is Some {
        Seq::empty()
    } else if tag_name(tag) == "img"@ {
        "[image]"@
    } else if is_break_tag(tag_name(tag)) {
        seq!['\n']
    } else {
        Seq::empty()
    }
}

/// The text of `rest` read tag by tag, starting inside the hidden element
/// `hidden` if any. A `<` without a closing `>` ends the text.
pub open spec fn strip_tags(rest: Seq<char>, hidden: Option<Seq<char>>) -> Seq<char>
    decreases rest.len(),
{
    match find(rest, seq!['<']) {
        None => if hidden is None {
            rest
        } else {
            Seq::empty()
        },
        Some(open) => if 0 <= open < rest.len() {
            let before = if hidden is None {
                rest.take(open)
            } else {
                Seq::empty()
            };
            match find(rest.skip(open), seq!['>']) {
                None => before,
                Some(close) => if 0 < close && open + close < rest.len() {
                    let tag = trim(rest.subrange(open + 1, open + close));
                    before + tag_text(tag, hidden) + strip_tags(
                        rest.skip(open + close + 1),
                        next_hidden(tag, hidden),
                    )
                } else {
                    before
                },
            }
        } else {
            rest
        },
    }
}

/// The HTML entities Packet Tracer's rich text uses, decoded in this order.
pub open spec fn decode_entities(s: Seq<char>) -> Seq<char> {
    let s1 = replace(s, "&nbsp;"@, " "@);
    let s2 = replace(s1, "&lt;"@, "<"@);
    let s3 = replace(s2, "&gt;"@, ">"@);
    let s4 = replace(s3, "&quot;"@, "\""@);
    let s5 = replace(s4, "&#39;"@, "'"@);
    let s6 = replace(s5, "&apos;"@, "'"@);
    replace(s6, "&amp;"@, "&"@)
}

/// The words of `s` (runs of non-whitespace) separated by single spaces,
/// continuing after `started` output with a space `pending`.
pub open spec fn squeeze_from(s: Seq<char>, started: bool, pending: bool) -> Seq<char>
    decreases s.len(),
{
    if s.len() == 0 {
        Seq::empty()
    } else if is_space(s[0]) {
        squeeze_from(s.drop_first(), started, started)
    } else {
        (if pending {
            seq![' ']
        } else {
            Seq::empty()
        }) + seq![s[0]] + squeeze_from(s.drop_first(), true, false)
    }
}

/// The words of `s` separated by single spaces: `split_whitespace` joined by `" "`.
pub open spec fn squeeze(s: Seq<char>) -> Seq<char> {
    squeeze_from(s, false, false)
}

/// A squeezed line as it lands in the output: nothing when empty, and after a
/// line break unless it is the first.
pub open spec fn emit(line: Seq<char>, first: bool) -> Seq<char> {
    if line.len() == 0 {
        Seq::empty()
    } else if first {
        line
    } else {
        seq!['\n'] + line
    }
}

/// The non-empty squeezed lines of `s`, joined by line breaks.
pub open spec fn text_lines(s: Seq<char>, first: bool) -> Seq<char>
    decreases s.len(),
{
    match find(s, seq!['\n']) {
        None => emit(squeeze(s), first),
        Some(k) => if 0 <= k < s.len() {
            let line = squeeze(s.take(k));
            emit(line, first) + text_lines(s.skip(k + 1), first && line.len() == 0)
        } else {
            emit(squeeze(s), first)
        },
    }
}

/// Packet Tracer's rich-text HTML as readable lines.
pub open spec fn html_text(html: Seq<char>) -> Seq<char> {
    text_lines(decode_entities(strip_tags(html, None)), true)
}

/// Text whose only whitespace are single spaces and line breaks, each between
/// two other characters: non-empty lines, each with its words separated by
/// single spaces.
pub open spec fn tidy_text(t: Seq<char>) -> bool {
    &&& t.len() > 0 ==> !is_space(t[0]) && !is_space(t.last())
    &&& forall|i: int| 0 <= i < t.len() && #[trigger] is_space(t[i]) ==> t[i] == ' ' || t[i] == '\n'
    &&& forall|i: int| 0 <= i < t.len() - 1 && #[trigger] is_space(t[i]) ==> !is_space(t[i + 1])
}

/// A squeezed piece: its only whitespace are single spaces, it ends with a
/// word, and it starts with one unless it continues started output.
pub open spec fn squeezed(out: Seq<char>, started: bool) -> bool {
    &&& forall|i: int| 0 <= i < out.len() && #[trigger] is_space(out[i]) ==> out[i] == ' '
    &&& forall|i: int| 0 <= i < out.len() - 1 && #[trigger] is_space(out[i]) ==> !is_space(out[i + 1])
    &&& out.len() > 0 ==> !is_space(out.last())
    &&& out.len() > 0 && is_space(out[0]) ==> started
}

proof fn lemma_squeezed(s: Seq<char>, started: bool, pending: bool)
    requires
        pending ==> started,
    ensures
        squeezed(squeeze_from(s, started, pending), started),
    decreases s.len(),
{
    if s.len() > 0 {
        if is_space(s[0]) {
            lemma_squeezed(s.drop_first(), started, started);
        } else {
            let rest = squeeze_from(s.drop_first(), true, false);
            lemma_squeezed(s.drop_first(), true, false);
            let head: Seq<char> = if pending { seq![' '] } else { Seq::empty() };
            let out = head + seq![s[0]] + rest;
            assert(squeeze_from(s, started, pending) == out);
            let h = head.len() as int;
            assert(out[h] == s[0]);
            assert forall|i: int| 0 <= i < out.len() && #[trigger] is_space(out[i]) implies out[i] == ' ' by {
                if i > h {
                    assert(out[i] == rest[i - h - 1]);
                }
            }
            assert forall|i: int| 0 <= i < out.len() - 1 && #[trigger] is_space(out[i]) implies !is_space(out[i + 1]) by {
                if i > h {
                    assert(out[i] == rest[i - h - 1]);
                    assert(out[i + 1] == rest[i - h]);
                }
            }
            if rest.len() > 0 {
                assert(out.last() == rest.last());
            }
        }
    }
}

/// A non-empty squeezed line followed by nothing, or by a line break and
/// tidy text, is tidy text.
proof fn lemma_tidy_join(l: Seq<char>, t: Seq<char>)
    requires
        l.len() > 0,
        squeezed(l, false),
        t.len() == 0 || (t.len() > 1 && t[0] == '\n' && tidy_text(t.drop_first())),
    ensures
        tidy_text(l + t),
{
    let out = l + t;
    let n = l.len() as int;
    assert('\n' as u32 == 10);
    assert(' ' as u32 == 32);
    assert(is_space('\n'));
    assert(out[0] == l[0]);
    if t.len() > 0 {
        let u = t.drop_first();
        assert(out.last() == u.last());
        assert forall|i: int| 0 <= i < out.len() && #[trigger] is_space(out[i]) implies out[i] == ' ' || out[i] == '\n' by {
            if i < n {
                assert(out[i] == l[i]);
            } else if i > n {
                assert(out[i] == u[i - n - 1]);
            }
        }
        assert forall|i: int| 0 <= i < out.len() - 1 && #[trigger] is_space(out[i]) implies !is_space(out[i + 1]) by {
            if i < n - 1 {
                assert(out[i] == l[i]);
                assert(out[i + 1] == l[i + 1]);
            } else if i == n - 1 {
                assert(out[i] == l.last());
            } else if i == n {
                assert(out[i + 1] == u[0]);
            } else {
                assert(out[i] == u[i - n - 1]);
                assert(out[i + 1] == u[i - n]);
            }
        }
    } else {
        assert(out =~= l);
        assert forall|i: int| 0 <= i < out.len() && #[trigger] is_space(out[i]) implies out[i] == ' ' || out[i] == '\n' by {
            assert(out[i] == l[i]);
        }
    }
}

proof fn lemma_lines_tidy(s: Seq<char>, first: bool)
    ensures
        first ==> tidy_text(text_lines(s, first)),
        !first ==> (text_lines(s, first).len() == 0 || (text_lines(s, first).len() > 1
            && text_lines(s, first)[0] == '\n' && tidy_text(text_lines(s, first).drop_first()))),
    decreases s.len(),
{
    lemma_find(s, seq!['\n']);
    match find(s, seq!['\n']) {
        None => {
            lemma_squeezed(s, false, false);
            lemma_emit(squeeze(s), first, Seq::empty());
        },
        Some(k) => {
            let line = squeeze(s.take(k));
            lemma_squeezed(s.take(k), false, false);
            let rest = s.skip(k + 1);
            lemma_lines_tidy(rest, first && line.len() == 0);
            lemma_emit(line, first, text_lines(rest, first && line.len() == 0));
        },
    }
}

proof fn lemma_emit(line: Seq<char>, first: bool, t: Seq<char>)
    requires
        squeezed(line, false),
        (first && line.len() == 0) ==> tidy_text(t),
        !(first && line.len() == 0) ==> (t.len() == 0 || (t.len() > 1 && t[0] == '\n' && tidy_text(t.drop_first()))),
    ensures
        first ==> tidy_text(emit(line, first) + t),
        !first ==> ((emit(line, first) + t).len() == 0 || ((emit(line, first) + t).len() > 1
            && (emit(line, first) + t)[0] == '\n' && tidy_text((emit(line, first) + t).drop_first()))),
{
    if line.len() == 0 {
        assert(emit(line, first) + t =~= t);
    } else {
        lemma_tidy_join(line, t);
        if !first {
            assert((emit(line, first) + t).drop_first() =~= line + t);
        }
    }
}

/// The readable text of any HTML is tidy: non-empty lines joined by line
/// breaks, each line's words separated by single spaces, no other
/// whitespace.
pub proof fn lemma_html_text_is_tidy(html: Seq<char>)
    ensures
        tidy_text(html_text(html)),
{
    lemma_lines_tidy(decode_entities(strip_tags(html, None)), true);
}

/// A squeezed line is its own squeeze: its words are already separated by
/// single spaces and it has no other whitespace.
proof fn lemma_squeeze_line(l: Seq<char>, started: bool, pending: bool)
    requires
        forall|i: int| 0 <= i < l.len() && #[trigger] is_space(l[i]) ==> l[i] == ' ',
        forall|i: int| 0 <= i < l.len() - 1 && #[trigger] is_space(l[i]) ==> !is_space(l[i + 1]),
        l.len() > 0 ==> !is_space(l.last()),
        l.len() > 0 && is_space(l[0]) ==> started && !pending,
    ensures
        l.len() > 0 && !is_space(l[0]) ==> squeeze_from(l, started, pending) == (if pending {
            seq![' ']
        } else {
            Seq::<char>::empty()
        }) + l,
        l.len() > 0 && is_space(l[0]) ==> squeeze_from(l, started, pending) == l,
        l.len() == 0 ==> squeeze_from(l, started, pending) == l,
    decreases l.len(),
{
    if l.len() > 0 {
        let t = l.drop_first();
        assert forall|i: int| 0 <= i < t.len() && #[trigger] is_space(t[i]) implies t[i] == ' ' by {
            assert(t[i] == l[i + 1]);
        }
        assert forall|i: int| 0 <= i < t.len() - 1 && #[trigger] is_space(t[i]) implies !is_space(t[i + 1]) by {
            assert(t[i] == l[i + 1]);
            assert(t[i + 1] == l[i + 2]);
        }
        if t.len() > 0 {
            assert(t.last() == l.last());
        }
        if is_space(l[0]) {
            assert(t.len() > 0);
            assert(!is_space(t[0]));
            lemma_squeeze_line(t, started, started);
            assert(l[0] == ' ');
            assert(seq![' '] + t =~= l);
        } else {
            if t.len() > 0 && is_space(t[0]) {
                lemma_squeeze_line(t, true, false);
            } else {
                lemma_squeeze_line(t, true, false);
            }
            assert(seq![l[0]] + t =~= l);
            if pending {
                assert(seq![' '] + seq![l[0]] + t =~= seq![' '] + l);
            } else {
                assert(Seq::<char>::empty() + seq![l[0]] + t =~= l);
            }
        }
    }
}

/// Tidy text reads back as itself, line by line.
proof fn lemma_lines_of_tidy(t: Seq<char>, first: bool)
    requires
        tidy_text(t),
        t.len() > 0,
    ensures
        text_lines(t, first) == if first {
            t
        } else {
            seq!['\n'] + t
        },
    decreases t.len(),
{
    assert(is_space('\n')) by {
        assert('\n' as u32 == 10);
    }
    lemma_find(t, seq!['\n']);
    match find(t, seq!['\n']) {
        None => {
            assert forall|i: int| 0 <= i < t.len() && #[trigger] is_space(t[i]) implies t[i] == ' ' by {
                if t[i] == '\n' {
                    assert(t.subrange(i, i + 1) =~= seq!['\n']);
                    assert(occurs_at(t, seq!['\n'], i));
                    assert(contains(t, seq!['\n']));
                }
            }
            lemma_squeeze_line(t, false, false);
        },
        Some(k) => {
            assert(t.subrange(k, k + 1)[0] == t[k]);
            assert(t[k] == '\n');
            let l = t.take(k);
            assert(k > 0);
            assert(k < t.len() - 1);
            assert forall|i: int| 0 <= i < l.len() && #[trigger] is_space(l[i]) implies l[i] == ' ' by {
                assert(l[i] == t[i]);
                if t[i] == '\n' {
                    assert(t.subrange(i, i + 1) =~= seq!['\n']);
                    assert(occurs_at(t, seq!['\n'], i));
                    assert(contains(t, seq!['\n']));
                }
            }
            assert forall|i: int| 0 <= i < l.len() - 1 && #[trigger] is_space(l[i]) implies !is_space(l[i + 1]) by {
                assert(l[i] == t[i]);
                assert(l[i + 1] == t[i + 1]);
            }
            assert(l.last() == t[k - 1]);
            assert(is_space(t[k]));
            lemma_squeeze_line(l, false, false);
            assert(squeeze(l) == l);
            let rest = t.skip(k + 1);
            assert(rest[0] == t[k + 1]);
            assert(rest.last() == t.last());
            assert forall|i: int| 0 <= i < rest.len() && #[trigger] is_space(rest[i]) implies rest[i] == ' ' || rest[i] == '\n' by {
                assert(rest[i] == t[i + k + 1]);
            }
            assert forall|i: int| 0 <= i < rest.len() - 1 && #[trigger] is_space(rest[i]) implies !is_space(rest[i + 1]) by {
                assert(rest[i] == t[i + k + 1]);
                assert(rest[i + 1] == t[i + k + 2]);
            }
            lemma_lines_of_tidy(rest, false);
            if first {
                assert(l + (seq!['\n'] + rest) =~= t);
            } else {
                assert(seq!['\n'] + l + (seq!['\n'] + rest) =~= seq!['\n'] + t);
            }
        },
    }
}

proof fn lemma_replace_absent(s: Seq<char>, p: Seq<char>, r: Seq<char>)
    requires
        p.len() > 0,
        p[0] == '&',
        forall|i: int| 0 <= i < s.len() ==> s[i] != '&',
    ensures
        replace(s, p, r) == s,
{
    lemma_find(s, p);
    if let Some(k) = find(s, p) {
        assert(s.subrange(k, k + p.len())[0] == s[k]);
    }
}

/// Tidy text without `<` or `&` is its own readable text.
pub proof fn lemma_html_text_of_text(t: Seq<char>)
    requires
        tidy_text(t),
        forall|i: int| 0 <= i < t.len() ==> t[i] != '<' && t[i] != '&',
    ensures
        html_text(t) == t,
{
    lemma_find(t, seq!['<']);
    if let Some(k) = find(t, seq!['<']) {
        assert(t.subrange(k, k + 1)[0] == t[k]);
    }
    assert(strip_tags(t, None) == t);
    reveal_strlit("&nbsp;");
    reveal_strlit("&lt;");
    reveal_strlit("&gt;");
    reveal_strlit("&quot;");
    reveal_strlit("&#39;");
    reveal_strlit("&apos;");
    reveal_strlit("&amp;");
    lemma_replace_absent(t, "&nbsp;"@, " "@);
    lemma_replace_absent(t, "&lt;"@, "<"@);
    lemma_replace_absent(t, "&gt;"@, ">"@);
    lemma_replace_absent(t, "&quot;"@, "\""@);
    lemma_replace_absent(t, "&#39;"@, "'"@);
    lemma_replace_absent(t, "&apos;"@, "'"@);
    lemma_replace_absent(t, "&amp;"@, "&"@);
    assert(decode_entities(t) == t);
    if t.len() > 0 {
        lemma_lines_of_tidy(t, true);
    } else {
        lemma_find(t, seq!['\n']);
        assert(squeeze(t) == t);
    }
}

/// Reading text that has no `<` or `&` left a second time changes nothing.
pub proof fn lemma_html_text_once(html: Seq<char>)
    requires
        forall|i: int| 0 <= i < html_text(html).len() ==> html_text(html)[i] != '<' && html_text(html)[i] != '&',
    ensures
        html_text(html_text(html)) == html_text(html),
{
    lemma_html_text_is_tidy(html);
    lemma_html_text_of_text(html_text(html));
}

fn name_of(tag: &[char]) -> (name: Vec<char>)
    ensures
        name@ == tag_name(tag@),
{
    let mut i: usize = 0;
    assert(tag@.skip(0) =~= tag@);
    while i < tag.len() && tag[i] == '/'
        invariant
            i <= tag@.len(),
            slash_free(tag@) == slash_free(tag@.skip(i as int)),
        decreases tag.len() - i,
    {
        assert(tag@.skip(i as int).drop_first() =~= tag@.skip(i + 1));
        i += 1;
    }
    assert(slash_free(tag@.skip(i as int)) == tag@.skip(i as int));
    let start = i;
    let ghost s = tag@.skip(start as int);
    while i < tag.len() && is_ascii_alphanumeric(tag[i])
        invariant
            start <= i <= tag@.len(),
            s == tag@.skip(start as int),
            alnum_prefix(s) == tag@.subrange(start as int, i as int) + alnum_prefix(
                tag@.skip(i as int),
            ),
        decreases tag.len() - i,
    {
        assert(tag@.skip(i as int).drop_first() =~= tag@.skip(i + 1));
        assert(tag@.subrange(start as int, i + 1) =~= tag@.subrange(start as int, i as int)
            + seq![tag@[i as int]]);
        i += 1;
    }
    assert(alnum_prefix(tag@.skip(i as int)) =~= Seq::<char>::empty());
    assert(s =~= tag@.skip(start as int));
    let word = slice_range(tag, start, i);
    assert(word@ =~= alnum_prefix(s));
    lowercase_ascii(&word)
}

fn hidden_names() -> (v: Vec<&'static str>)
    ensures
        forall|n: Seq<char>| is_hidden_tag(n) <==> exists|i: int| 0 <= i < v@.len() && n == v@[i]@,
{
    let v = vec!["style", "script", "head"];
    assert(v@[0]@ == "style"@ && v@[1]@ == "script"@ && v@[2]@ == "head"@);
    assert forall|n: Seq<char>| is_hidden_tag(n) implies exists|i: int|
        0 <= i < v@.len() && n == v@[i]@ by {
        if n == "style"@ {
            assert(n == v@[0]@);
        } else if n == "script"@ {
            assert(n == v@[1]@);
        } else {
            assert(n == v@[2]@);
        }
    }
    v
}

fn break_names() -> (v: Vec<&'static str>)
    ensures
        forall|n: Seq<char>| is_break_tag(n) <==> exists|i: int| 0 <= i < v@.len() && n == v@[i]@,
{
    let v = vec!["br", "p", "div", "li", "tr", "h1", "h2", "h3", "h4", "h5", "h6"];
    assert forall|n: Seq<char>| is_break_tag(n) implies exists|i: int|
        0 <= i < v@.len() && n == v@[i]@ by {
        if n == "br"@ {
            assert(n == v@[0]@);
        } else if n == "p"@ {
            assert(n == v@[1]@);
        } else if n == "div"@ {
            assert(n == v@[2]@);
        } else if n == "li"@ {
            assert(n == v@[3]@);
        } else if n == "tr"@ {
            assert(n == v@[4]@);
        } else if n == "h1"@ {
            assert(n == v@[5]@);
        } else if n == "h2"@ {
            assert(n == v@[6]@);
        } else if n == "h3"@ {
            assert(n == v@[7]@);
        } else if n == "h4"@ {
            assert(n == v@[8]@);
        } else if n == "h5"@ {
            assert(n == v@[9]@);
        } else {
            assert(n == v@[10]@);
        }
    }
    v
}

/// Applies the tag `tag` to the reader state: returns the hidden element after
/// it and appends the text it stands for.
fn apply_tag(tag: &[char], hidden: Option<Vec<char>>, text: &mut Vec<char>) -> (next: Option<
    Vec<char>,
>)
    ensures
        final(text)@ == old(text)@ + tag_text(tag@, view_opt(hidden)),
        view_opt(next) == next_hidden(tag@, view_opt(hidden)),
{
    let name = name_of(tag);
    let closing = tag.len() > 0 && tag[0] == '/';
    let self_closing = tag.len() > 0 && tag[tag.len() - 1] == '/';
    match hidden {
        Some(inside) => {
            if closing && eq_chars(&inside, &name) {
                None
            } else {
                Some(inside)
            }
        },
        None => {
            let hidden_list = hidden_names();
            if !closing && is_one_of(&name, &hidden_list) && !self_closing {
                Some(name)
            } else {
                let img = chars_of("img");
                if eq_chars(&name, &img) {
                    let image = chars_of("[image]");
                    push_all(text, &image);
                } else {
                    let break_list = break_names();
                    if is_one_of(&name, &break_list) {
                        text.push('\n');
                    }
                }
                None
            }
        },
    }
}

#[verifier::rlimit(40)]
fn strip_tags_chars(h: &[char]) -> (text: Vec<char>)
    ensures
        text@ == strip_tags(h@, None),
{
    let lt = single('<');
    let gt = single('>');
    let mut text: Vec<char> = Vec::new();
    let mut hidden: Option<Vec<char>> = None;
    let mut pos: usize = 0;
    assert(h@.skip(0) =~= h@);
    loop
        invariant
            pos <= h@.len(),
            lt@ == seq!['<'],
            gt@ == seq!['>'],
            text@ + strip_tags(h@.skip(pos as int), view_opt(hidden)) == strip_tags(
                h@,
                None,
            ),
        decreases h.len() - pos,
    {
        let ghost rest = h@.skip(pos as int);
        let ghost hid = view_opt(hidden);
        match find_after(h, &lt, pos) {
            None => {
                if hidden.is_none() {
                    let tail = slice_range(h, pos, h.len());
                    push_all(&mut text, &tail);
                    assert(tail@ =~= rest);
                }
                return text;
            },
            Some(open) => {
                proof {
                    lemma_find(rest, lt@);
                }
                let at = pos + open;
                if hidden.is_none() {
                    let before = slice_range(h, pos, at);
                    push_all(&mut text, &before);
                    assert(before@ =~= rest.take(open as int));
                }
                assert(rest.skip(open as int) =~= h@.skip(at as int));
                match find_after(h, &gt, at) {
                    None => {
                        return text;
                    },
                    Some(close) => {
                        proof {
                            lemma_find(h@.skip(at as int), gt@);
                            assert(rest.subrange(open as int, open + 1)[0] == '<');
                            assert(h@.skip(at as int)[0] == '<');
                            if close == 0 {
                                assert(h@.skip(at as int).subrange(0, 1)[0] == '>');
                            }
                        }
                        let inner = slice_range(h, at + 1, at + close);
                        assert(inner@ =~= rest.subrange(open + 1, open + close));
                        let tag = trimmed(&inner);
                        assert(strip_tags(rest, hid) == (if hid is None {
                            rest.take(open as int)
                        } else {
                            Seq::<char>::empty()
                        }) + tag_text(tag@, hid) + strip_tags(
                            rest.skip(open + close + 1),
                            next_hidden(tag@, hid),
                        ));
                        hidden = apply_tag(&tag, hidden, &mut text);
                        assert(rest.skip(open + close + 1) =~= h@.skip(at + close + 1));
                        pos = at + close + 1;
                    },
                }
            },
        }
    }
}

/// The entity replacements applied one after another.
fn decode_entities_chars(s: &[char]) -> (out: Vec<char>)
    ensures
        out@ == decode_entities(s@),
{
    proof {
        reveal_strlit("&nbsp;");
        reveal_strlit("&lt;");
        reveal_strlit("&gt;");
        reveal_strlit("&quot;");
        reveal_strlit("&#39;");
        reveal_strlit("&apos;");
        reveal_strlit("&amp;");
    }
    let s1 = replace_chars(s, &chars_of("&nbsp;"), &chars_of(" "));
    let s2 = replace_chars(&s1, &chars_of("&lt;"), &chars_of("<"));
    let s3 = replace_chars(&s2, &chars_of("&gt;"), &chars_of(">"));
    let s4 = replace_chars(&s3, &chars_of("&quot;"), &chars_of("\""));
    let s5 = replace_chars(&s4, &chars_of("&#39;"), &chars_of("'"));
    let s6 = replace_chars(&s5, &chars_of("&apos;"), &chars_of("'"));
    replace_chars(&s6, &chars_of("&amp;"), &chars_of("&"))
}

/// `split_whitespace` joined by single spaces.
pub fn squeeze_chars(s: &[char]) -> (out: Vec<char>)
    ensures
        out@ == squeeze(s@),
{
    let mut out: Vec<char> = Vec::new();
    let mut pending = false;
    let mut i: usize = 0;
    assert(s@.skip(0) =~= s@);
    while i < s.len()
        invariant
            i <= s@.len(),
            out@ + squeeze_from(s@.skip(i as int), out@.len() > 0, pending) == squeeze(s@),
            pending ==> out@.len() > 0,
        decreases s.len() - i,
    {
        let c = s[i];
        assert(s@.skip(i as int).drop_first() =~= s@.skip(i + 1));
        assert(s@.skip(i as int)[0] == c);
        let ghost before = out@;
        let ghost was_pending = pending;
        if is_whitespace(c) {
            pending = out.len() > 0;
        } else {
            if pending {
                out.push(' ');
            }
            out.push(c);
            pending = false;
            assert(out@ =~= before + (if was_pending {
                seq![' ']
            } else {
                Seq::<char>::empty()
            }) + seq![c]);
        }
        i += 1;
    }
    assert(s@.skip(i as int) =~= Seq::<char>::empty());
    out
}

fn text_lines_chars(s: &[char]) -> (out: Vec<char>)
    ensures
        out@ == text_lines(s@, true),
{
    let nl = single('\n');
    let mut out: Vec<char> = Vec::new();
    let mut pos: usize = 0;
    assert(s@.skip(0) =~= s@);
    loop
        invariant
            pos <= s@.len(),
            nl@ == seq!['\n'],
            out@ + text_lines(s@.skip(pos as int), out@.len() == 0) == text_lines(s@, true),
        decreases s.len() - pos,
    {
        let ghost rest = s@.skip(pos as int);
        match find_after(s, &nl, pos) {
            None => {
                let tail = slice_range(s, pos, s.len());
                assert(tail@ =~= rest);
                let line = squeeze_chars(&tail);
                if line.len() > 0 {
                    if out.len() > 0 {
                        out.push('\n');
                    }
                    push_all(&mut out, &line);
                }
                assert(out@ =~= text_lines(s@, true));
                return out;
            },
            Some(k) => {
                proof {
                    lemma_find(rest, nl@);
                }
                let ghost before_out = out@;
                let part = slice_range(s, pos, pos + k);
                assert(part@ =~= rest.take(k as int));
                let line = squeeze_chars(&part);
                if line.len() > 0 {
                    if out.len() > 0 {
                        out.push('\n');
                    }
                    push_all(&mut out, &line);
                }
                assert(out@ =~= before_out + emit(line@, before_out.len() == 0));
                assert(rest.skip(k + 1) =~= s@.skip(pos + k + 1));
                pos = pos + k + 1;
            },
        }
    }
}

/// Reduces Packet Tracer's rich-text HTML to readable lines.
pub fn html_to_text(html: &str) -> (text: String)
    ensures
        text@ == html_text(html@),
{
    let h = chars_of(html);
    let stripped = strip_tags_chars(&h);
    let decoded = decode_entities_chars(&stripped);
    let lines = text_lines_chars(&decoded);
    string_of(&lines)
}

/// Whole seconds in a number of milliseconds, rounded toward zero as
/// integer division does.
pub open spec fn whole_seconds(ms: int) -> int {
    if ms >= 0 {
        ms / 1000
    } else {
        -((-ms) / 1000)
    }
}

/// The seconds an activity reports from Packet Tracer's milliseconds.
pub fn seconds_of(ms: i64) -> (r: i64)
    ensures
        r == whole_seconds(ms as int),
{
    ms / 1000
}

/// The seconds left of an activity: only when its timer counts down and a
/// countdown is set.
pub fn seconds_left(timer_type: i64, left_ms: i64, countdown_ms: Option<i64>) -> (r: Option<i64>)
    ensures
        timer_type != 0 && (countdown_ms matches Some(t) && t > 0) ==> r == Some(
            whole_seconds(left_ms as int) as i64,
        ),
        !(timer_type != 0 && (countdown_ms matches Some(t) && t > 0)) ==> r is None,
{
    if timer_type == 0 {
        return None;
    }
    match countdown_ms {
        Some(t) => if t > 0 {
            Some(seconds_of(left_ms))
        } else {
            None
        },
        None => None,
    }
}

/// The refusal of a tool that needs an activity when the open network is
/// not one.
pub fn require_activity(is_activity: bool) -> (r: Result<(), PtError>)
    ensures
        is_activity ==> r is Ok,
        !is_activity ==> (r matches Err(PtError::InvalidInput(m)) && m@
            == "the open network is not an activity (.pka); open one with open_network"@),
{
    if is_activity {
        Ok(())
    } else {
        Err(
            PtError::InvalidInput(
                "the open network is not an activity (.pka); open one with open_network".to_owned(),
            ),
        )
    }
}

} // verus!
