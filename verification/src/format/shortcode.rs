//! Hugo `details` shortcodes turned into `Accordion` components.
//!
//! No Markdown parser knows the shortcode syntax, so it is rewritten in the
//! raw text before the document is parsed.

use crate::format::rewrite::{found_view, rewrite, rewrite_exec, Found, FoundView};
use crate::text::{
    append_chars, append_str, has_at, has_at_exec, index_of, index_of_exec, skip_space,
    skip_space_exec, subvec, to_chars,
};
use vstd::prelude::*;

verus! {

/// How an opening shortcode begins, up to the quote before its title.
pub open spec fn opening_head() -> Seq<char> {
    "{{% details title=\""@
}

/// The closing shortcode.
pub open spec fn closing_code() -> Seq<char> {
    "{{% /details %}}"@
}

/// The closing tag of the component.
pub open spec fn closing_tag() -> Seq<char> {
    "</Accordion>"@
}

/// The opening tag of the component, with its title.
pub open spec fn opening_tag(title: Seq<char>) -> Seq<char> {
    "<Accordion title=\""@ + title + "\">"@
}

/// An opening shortcode: its title and the index behind it.
pub struct HeaderView {
    pub title: Seq<char>,
    pub end: int,
}

/// The opening shortcode that begins at `i`: the head, the title up to the
/// next double quote, then anything up to the next `%`, which must begin
/// `%}}`.
pub open spec fn header_at(s: Seq<char>, i: int) -> Option<HeaderView> {
    let title_from = i + opening_head().len();
    let quote = index_of(s, '"', title_from);
    let percent = index_of(s, '%', quote + 1);
    if has_at(s, i, opening_head()) && quote < s.len() && has_at(s, percent, "%}}"@) {
        Some(HeaderView { title: s.subrange(title_from, quote), end: percent + 3 })
    } else {
        None
    }
}

struct Header {
    title: Vec<char>,
    end: usize,
}

fn header_at_exec(s: &Vec<char>, i: usize) -> (r: Option<Header>)
    ensures
        match r {
            Some(h) => header_at(s@, i as int) == Some(HeaderView { title: h.title@, end: h.end as int })
                && i < h.end <= s.len(),
            None => header_at(s@, i as int) is None,
        },
{
    let head = to_chars("{{% details title=\"");
    if !has_at_exec(s, i, &head) {
        return None;
    }
    assert(i + head.len() <= s.len());
    let title_from = i + head.len();
    let quote = index_of_exec(s, '"', title_from);
    if quote >= s.len() {
        return None;
    }
    let percent = index_of_exec(s, '%', quote + 1);
    let tail = to_chars("%}}");
    proof {
        reveal_strlit("%}}");
    }
    if !has_at_exec(s, percent, &tail) {
        return None;
    }
    assert(percent + 3 <= s.len());
    Some(Header { title: subvec(s, title_from, quote), end: percent + 3 })
}

fn opening_tag_chars(title: &Vec<char>) -> (r: Vec<char>)
    ensures
        r@ == opening_tag(title@),
{
    let mut out = to_chars("<Accordion title=\"");
    append_chars(&mut out, title);
    append_str(&mut out, "\">");
    out
}

/// An opening shortcode at `i`, replaced by the opening tag.
pub open spec fn opening_at(s: Seq<char>, i: int) -> Option<FoundView> {
    match header_at(s, i) {
        Some(h) => Some(FoundView { end: h.end, replacement: opening_tag(h.title) }),
        None => None,
    }
}

fn opening_at_exec(s: &Vec<char>, i: usize) -> (r: Option<Found>)
    ensures
        found_view(r) == opening_at(s@, i as int),
{
    match header_at_exec(s, i) {
        Some(h) => Some(Found { end: h.end, replacement: opening_tag_chars(&h.title) }),
        None => None,
    }
}

/// The end of the shortest body that ends at `e` or later: the body stays
/// on one line, and behind it and any white space the closing shortcode
/// stands.
pub open spec fn body_end(s: Seq<char>, e: int) -> Option<int>
    decreases s.len() + 1 - e,
{
    if e < 1 || e > s.len() {
        None
    } else if s[e - 1] == '\n' {
        None
    } else if has_at(s, skip_space(s, e), closing_code()) {
        Some(e)
    } else {
        body_end(s, e + 1)
    }
}

/// The last index in `lo..q` that holds no line break.
pub open spec fn last_on_line(s: Seq<char>, lo: int, q: int) -> Option<int>
    decreases q - lo,
{
    if q <= lo || q > s.len() || lo < 0 {
        None
    } else if s[q - 1] != '\n' {
        Some(q - 1)
    } else {
        last_on_line(s, lo, q - 1)
    }
}

/// A whole block: the opening tag, the body and the closing tag, each on a
/// line of its own.
pub open spec fn block(title: Seq<char>, body: Seq<char>) -> Seq<char> {
    opening_tag(title) + seq!['\n'] + body + seq!['\n'] + closing_tag()
}

/// A shortcode block whose body stands on the line of its closing
/// shortcode, beginning at `i`.
///
/// Behind the opening shortcode white space is passed over, as much as can
/// be; the body is then the shortest run of one or more characters without
/// a line break that white space and the closing shortcode follow. Where
/// only white space stands between the two shortcodes, the body is the last
/// of its characters that is no line break.
pub open spec fn single_line_at(s: Seq<char>, i: int) -> Option<FoundView> {
    match header_at(s, i) {
        None => None,
        Some(h) => {
            let w = skip_space(s, h.end);
            match body_end(s, w + 1) {
                Some(e) => Some(
                    FoundView {
                        end: skip_space(s, e) + closing_code().len(),
                        replacement: block(h.title, s.subrange(w, e)),
                    },
                ),
                None => if has_at(s, w, closing_code()) {
                    match last_on_line(s, h.end, w) {
                        Some(q) => Some(
                            FoundView {
                                end: w + closing_code().len(),
                                replacement: block(h.title, s.subrange(q, q + 1)),
                            },
                        ),
                        None => None,
                    }
                } else {
                    None
                },
            }
        },
    }
}

fn body_end_exec(s: &Vec<char>, from: usize, close: &Vec<char>) -> (r: Option<(usize, usize)>)
    requires
        close@ == closing_code(),
        1 <= from,
    ensures
        match r {
            Some((e, behind)) => body_end(s@, from as int) == Some(e as int) && from <= e
                <= s.len() && behind as int == skip_space(s@, e as int) && behind + close.len()
                <= s.len(),
            None => body_end(s@, from as int) is None,
        },
{
    let mut e: usize = from;
    while e <= s.len()
        invariant
            1 <= from <= e,
            close@ == closing_code(),
            body_end(s@, from as int) == body_end(s@, e as int),
        decreases s.len() + 1 - e,
    {
        if s[e - 1] == '\n' {
            return None;
        }
        let behind = skip_space_exec(s, e);
        if has_at_exec(s, behind, close) {
            return Some((e, behind));
        }
        if e == s.len() {
            assert(body_end(s@, e + 1) is None);
            return None;
        }
        e += 1;
    }
    None
}

fn last_on_line_exec(s: &Vec<char>, lo: usize, hi: usize) -> (r: Option<usize>)
    requires
        lo <= hi <= s.len(),
    ensures
        match r {
            Some(q) => last_on_line(s@, lo as int, hi as int) == Some(q as int) && lo <= q < hi,
            None => last_on_line(s@, lo as int, hi as int) is None,
        },
{
    let mut q: usize = hi;
    while q > lo
        invariant
            lo <= q <= hi <= s.len(),
            last_on_line(s@, lo as int, hi as int) == last_on_line(s@, lo as int, q as int),
        decreases q - lo,
    {
        if s[q - 1] != '\n' {
            return Some(q - 1);
        }
        q -= 1;
    }
    None
}

fn block_chars(title: &Vec<char>, body: &Vec<char>) -> (r: Vec<char>)
    ensures
        r@ == block(title@, body@),
{
    let mut out = opening_tag_chars(title);
    out.push('\n');
    append_chars(&mut out, body);
    out.push('\n');
    append_str(&mut out, "</Accordion>");
    proof {
        assert(out@ =~= block(title@, body@));
    }
    out
}

fn single_line_at_exec(s: &Vec<char>, i: usize) -> (r: Option<Found>)
    ensures
        found_view(r) == single_line_at(s@, i as int),
{
    let close = to_chars("{{% /details %}}");
    match header_at_exec(s, i) {
        None => None,
        Some(h) => {
            let w = skip_space_exec(s, h.end);
            let found = if w < s.len() {
                body_end_exec(s, w + 1, &close)
            } else {
                None
            };
            match found {
                Some((e, behind)) => Some(
                    Found {
                        end: behind + close.len(),
                        replacement: block_chars(&h.title, &subvec(s, w, e)),
                    },
                ),
                None => {
                    if has_at_exec(s, w, &close) {
                        assert(w + close.len() <= s.len());
                        match last_on_line_exec(s, h.end, w) {
                            Some(q) => Some(
                                Found {
                                    end: w + close.len(),
                                    replacement: block_chars(&h.title, &subvec(s, q, q + 1)),
                                },
                            ),
                            None => None,
                        }
                    } else {
                        None
                    }
                },
            }
        },
    }
}

/// A closing shortcode that text on its line precedes, from that text's
/// last character at `i` on: the character stays, and the closing tag
/// follows on a new line.
pub open spec fn closing_at(s: Seq<char>, i: int) -> Option<FoundView> {
    if 0 <= i < s.len() && s[i] != '\n' && has_at(s, skip_space(s, i + 1), closing_code()) {
        Some(
            FoundView {
                end: skip_space(s, i + 1) + closing_code().len(),
                replacement: seq![s[i], '\n'] + closing_tag(),
            },
        )
    } else {
        None
    }
}

fn closing_at_exec(s: &Vec<char>, i: usize) -> (r: Option<Found>)
    ensures
        found_view(r) == closing_at(s@, i as int),
{
    if i >= s.len() || s[i] == '\n' {
        return None;
    }
    let close = to_chars("{{% /details %}}");
    let behind = skip_space_exec(s, i + 1);
    if !has_at_exec(s, behind, &close) {
        return None;
    }
    assert(behind + close.len() <= s.len());
    let mut rep: Vec<char> = Vec::new();
    rep.push(s[i]);
    rep.push('\n');
    append_str(&mut rep, "</Accordion>");
    proof {
        assert(rep@ =~= seq![s@[i as int], '\n'] + closing_tag());
    }
    Some(Found { end: behind + close.len(), replacement: rep })
}

/// A closing shortcode at `i`, replaced by the closing tag.
pub open spec fn bare_closing_at(s: Seq<char>, i: int) -> Option<FoundView> {
    if has_at(s, i, closing_code()) {
        Some(FoundView { end: i + closing_code().len(), replacement: closing_tag() })
    } else {
        None
    }
}

fn bare_closing_at_exec(s: &Vec<char>, i: usize) -> (r: Option<Found>)
    ensures
        found_view(r) == bare_closing_at(s@, i as int),
{
    let close = to_chars("{{% /details %}}");
    if !has_at_exec(s, i, &close) {
        return None;
    }
    assert(i + close.len() <= s.len());
    Some(Found { end: i + close.len(), replacement: to_chars("</Accordion>") })
}

/// The text with its shortcodes converted, in four passes: whole blocks
/// on one line; the opening shortcodes that are left; closing shortcodes
/// behind text, put on a line of their own; and the closing shortcodes that
/// are left.
pub open spec fn shortcodes_converted(s: Seq<char>) -> Seq<char> {
    let blocks = rewrite(s, |t: Seq<char>, i: int| single_line_at(t, i));
    let opened = rewrite(blocks, |t: Seq<char>, i: int| opening_at(t, i));
    let closed = rewrite(opened, |t: Seq<char>, i: int| closing_at(t, i));
    rewrite(closed, |t: Seq<char>, i: int| bare_closing_at(t, i))
}

/// Converts the shortcodes of a text to accordion tags.
pub fn convert_shortcodes_chars(s: &Vec<char>) -> (r: Vec<char>)
    ensures
        r@ == shortcodes_converted(s@),
{
    let blocks = rewrite_exec(
        s,
        single_line_at_exec,
        Ghost(|t: Seq<char>, i: int| single_line_at(t, i)),
    );
    let opened = rewrite_exec(
        &blocks,
        opening_at_exec,
        Ghost(|t: Seq<char>, i: int| opening_at(t, i)),
    );
    let closed = rewrite_exec(
        &opened,
        closing_at_exec,
        Ghost(|t: Seq<char>, i: int| closing_at(t, i)),
    );
    rewrite_exec(&closed, bare_closing_at_exec, Ghost(|t: Seq<char>, i: int| bare_closing_at(t, i)))
}

} // verus!
