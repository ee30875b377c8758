//! Repairs of raw HTML for MDX: void tags made self-closing, empty table
//! rows dropped, comments removed, and `style` attributes turned into
//! object literals.

use crate::format::rewrite::{
    found_view, rewrite, rewrite_exec, rewrite_from, Found, FoundView,
};
use crate::text::{
    append_chars, append_str, ascii_upper, find_from, find_from_exec, has_at, has_at_exec,
    index_of, index_of_exec, is_ascii_char, join, join_exec, lemma_find_from, lemma_rows_push,
    rows, skip_space, skip_space_exec, split, split_exec, subvec, to_chars, trim, trim_exec,
};
use vstd::prelude::*;

verus! {

/// A match of `open`, any white space, `close`, replaced by `replacement`.
pub open spec fn spaced_at(
    s: Seq<char>,
    i: int,
    open: Seq<char>,
    close: Seq<char>,
    replacement: Seq<char>,
) -> Option<FoundView> {
    if has_at(s, i, open) && has_at(s, skip_space(s, i + open.len()), close) {
        Some(FoundView { end: skip_space(s, i + open.len()) + close.len(), replacement })
    } else {
        None
    }
}

fn spaced_at_exec(
    s: &Vec<char>,
    i: usize,
    open: &Vec<char>,
    close: &Vec<char>,
    replacement: &Vec<char>,
) -> (r: Option<Found>)
    ensures
        found_view(r) == spaced_at(s@, i as int, open@, close@, replacement@),
{
    if !has_at_exec(s, i, open) {
        return None;
    }
    assert(i + open.len() <= s.len());
    let j = skip_space_exec(s, i + open.len());
    if !has_at_exec(s, j, close) {
        return None;
    }
    Some(Found { end: j + close.len(), replacement: replacement.clone() })
}

/// The text with every `open`, white space, `close` replaced.
pub open spec fn spaced_replaced(
    s: Seq<char>,
    open: Seq<char>,
    close: Seq<char>,
    replacement: Seq<char>,
) -> Seq<char> {
    rewrite(s, |t: Seq<char>, i: int| spaced_at(t, i, open, close, replacement))
}

/// Replaces every `open`, white space, `close` in `s` by `replacement`.
pub fn replace_spaced(s: &Vec<char>, open: &str, close: &str, replacement: &str) -> (r: Vec<char>)
    ensures
        r@ == spaced_replaced(s@, open@, close@, replacement@),
{
    let a = to_chars(open);
    let b = to_chars(close);
    let c = to_chars(replacement);
    let find = |t: &Vec<char>, i: usize| -> (o: Option<Found>)
        ensures
            found_view(o) == spaced_at(t@, i as int, a@, b@, c@),
        { spaced_at_exec(t, i, &a, &b, &c) };
    rewrite_exec(s, find, Ghost(|t: Seq<char>, i: int| spaced_at(t, i, open@, close@, replacement@)))
}

/// Void tags written as `<br>` or `<hr>`, with or without white space
/// before the `>`, made self-closing.
pub open spec fn self_closed(s: Seq<char>) -> Seq<char> {
    spaced_replaced(spaced_replaced(s, "<br"@, ">"@, "<br />"@), "<hr"@, ">"@, "<hr />"@)
}

/// Makes `<br>` and `<hr>` self-closing.
pub fn fix_self_closing_chars(s: &Vec<char>) -> (r: Vec<char>)
    ensures
        r@ == self_closed(s@),
{
    let t = replace_spaced(s, "<br", ">", "<br />");
    replace_spaced(&t, "<hr", ">", "<hr />")
}

/// An empty row before the end of a table removed, then every empty row.
pub open spec fn rows_repaired(s: Seq<char>) -> Seq<char> {
    spaced_replaced(spaced_replaced(s, "<tr>"@, "</table>"@, "</table>"@), "<tr>"@, "</tr>"@, ""@)
}

/// Removes empty table rows.
pub fn fix_malformed_chars(s: &Vec<char>) -> (r: Vec<char>)
    ensures
        r@ == rows_repaired(s@),
{
    let t = replace_spaced(s, "<tr>", "</table>", "</table>");
    replace_spaced(&t, "<tr>", "</tr>", "")
}

/// A comment that begins at `i`: `<!--` up to the first `-->` behind it.
/// Without a `-->` there is no comment.
pub open spec fn comment_at(s: Seq<char>, i: int) -> Option<FoundView> {
    if has_at(s, i, "<!--"@) {
        match find_from(s, "-->"@, i + 4) {
            Some(e) => Some(FoundView { end: e + 3, replacement: Seq::empty() }),
            None => None,
        }
    } else {
        None
    }
}

fn comment_at_exec(s: &Vec<char>, i: usize) -> (r: Option<Found>)
    ensures
        found_view(r) == comment_at(s@, i as int),
{
    let open = to_chars("<!--");
    let close = to_chars("-->");
    proof {
        reveal_strlit("<!--");
        reveal_strlit("-->");
    }
    if !has_at_exec(s, i, &open) {
        return None;
    }
    assert(i + 4 <= s.len());
    match find_from_exec(s, &close, i + 4) {
        Some(e) => {
            proof {
                lemma_find_from(s@, close@, i + 4);
            }
            assert(e + 3 <= s.len());
            Some(Found { end: e + 3, replacement: Vec::new() })
        },
        None => None,
    }
}

/// The text without its HTML comments.
pub open spec fn comments_removed(s: Seq<char>) -> Seq<char> {
    rewrite(s, |t: Seq<char>, i: int| comment_at(t, i))
}

/// Removes HTML comments.
pub fn remove_comments_chars(s: &Vec<char>) -> (r: Vec<char>)
    ensures
        r@ == comments_removed(s@),
{
    rewrite_exec(s, comment_at_exec, Ghost(|t: Seq<char>, i: int| comment_at(t, i)))
}

/// The index behind the run of line breaks that begins at `i`.
pub open spec fn skip_newlines(s: Seq<char>, i: int) -> int
    decreases s.len() - i,
{
    if 0 <= i < s.len() && s[i] == '\n' {
        skip_newlines(s, i + 1)
    } else {
        i
    }
}

/// A run of three or more line breaks that begins at `i`, replaced by two.
pub open spec fn blank_run_at(s: Seq<char>, i: int) -> Option<FoundView> {
    if 0 <= i && i + 2 < s.len() && s[i] == '\n' && s[i + 1] == '\n' && s[i + 2] == '\n' {
        Some(FoundView { end: skip_newlines(s, i), replacement: seq!['\n', '\n'] })
    } else {
        None
    }
}

fn blank_run_at_exec(s: &Vec<char>, i: usize) -> (r: Option<Found>)
    ensures
        found_view(r) == blank_run_at(s@, i as int),
{
    if s.len() >= 3 && i < s.len() - 2 && s[i] == '\n' && s[i + 1] == '\n' && s[i + 2] == '\n' {
        let mut j: usize = i;
        while j < s.len() && s[j] == '\n'
            invariant
                i <= j <= s.len(),
                skip_newlines(s@, i as int) == skip_newlines(s@, j as int),
            decreases s.len() - j,
        {
            j += 1;
        }
        let mut two: Vec<char> = Vec::new();
        two.push('\n');
        two.push('\n');
        assert(two@ =~= seq!['\n', '\n']);
        Some(Found { end: j, replacement: two })
    } else {
        None
    }
}

/// The text with every run of three or more line breaks cut down to two.
pub open spec fn blank_lines_collapsed(s: Seq<char>) -> Seq<char> {
    rewrite(s, |t: Seq<char>, i: int| blank_run_at(t, i))
}

/// Cuts runs of three or more line breaks down to two.
pub fn collapse_blank_lines_chars(s: &Vec<char>) -> (r: Vec<char>)
    ensures
        r@ == blank_lines_collapsed(s@),
{
    rewrite_exec(s, blank_run_at_exec, Ghost(|t: Seq<char>, i: int| blank_run_at(t, i)))
}

proof fn lemma_skip_newlines(s: Seq<char>, i: int)
    requires
        0 <= i <= s.len(),
    ensures
        i <= skip_newlines(s, i) <= s.len(),
        skip_newlines(s, i) < s.len() ==> s[skip_newlines(s, i)] != '\n',
        i < s.len() && s[i] == '\n' ==> skip_newlines(s, i) > i,
    decreases s.len() - i,
{
    if i < s.len() && s[i] == '\n' {
        lemma_skip_newlines(s, i + 1);
    }
}

/// No three line breaks stand in a row.
pub open spec fn has_no_blank_run(t: Seq<char>) -> bool {
    forall|k: int| (#[trigger] blank_run_at(t, k)) is None
}

proof fn lemma_collapsed_from(s: Seq<char>, i: int)
    requires
        0 <= i <= s.len(),
    ensures
        ({
            let r = rewrite_from(s, i, |t: Seq<char>, k: int| blank_run_at(t, k));
            &&& (r.len() > 0 && r[0] == '\n' ==> i < s.len() && s[i] == '\n')
            &&& (r.len() > 1 && r[0] == '\n' && r[1] == '\n' ==> i + 1 < s.len() && s[i] == '\n'
                && s[i + 1] == '\n')
            &&& has_no_blank_run(r)
        }),
    decreases s.len() - i,
{
    let rule = |t: Seq<char>, k: int| blank_run_at(t, k);
    let r = rewrite_from(s, i, rule);
    if i < s.len() {
        lemma_skip_newlines(s, i);
        match blank_run_at(s, i) {
            Some(f) => {
                lemma_skip_newlines(s, i + 1);
                lemma_skip_newlines(s, i + 2);
                lemma_skip_newlines(s, i + 3);
                assert(f.end >= i + 3);
                lemma_collapsed_from(s, f.end);
                let rest = rewrite_from(s, f.end, rule);
                assert(r == seq!['\n', '\n'] + rest);
                assert forall|k: int| (#[trigger] blank_run_at(r, k)) is None by {
                    if blank_run_at(r, k) is Some {
                        if k >= 2 {
                            assert(blank_run_at(rest, k - 2) is Some);
                        } else {
                            assert(rest[0] == '\n');
                        }
                    }
                }
            },
            None => {
                lemma_collapsed_from(s, i + 1);
                let rest = rewrite_from(s, i + 1, rule);
                assert(r == seq![s[i]] + rest);
                assert forall|k: int| (#[trigger] blank_run_at(r, k)) is None by {
                    if blank_run_at(r, k) is Some {
                        if k >= 1 {
                            assert(blank_run_at(rest, k - 1) is Some);
                        } else {
                            assert(rest[0] == '\n' && rest[1] == '\n');
                        }
                    }
                }
            },
        }
    }
}

proof fn lemma_collapse_nothing(t: Seq<char>, i: int)
    requires
        0 <= i <= t.len(),
        has_no_blank_run(t),
    ensures
        rewrite_from(t, i, |u: Seq<char>, k: int| blank_run_at(u, k)) == t.subrange(
            i,
            t.len() as int,
        ),
    decreases t.len() - i,
{
    let rule = |u: Seq<char>, k: int| blank_run_at(u, k);
    if i < t.len() {
        assert(blank_run_at(t, i) is None);
        lemma_collapse_nothing(t, i + 1);
        assert(seq![t[i]] + t.subrange(i + 1, t.len() as int) =~= t.subrange(i, t.len() as int));
    } else {
        assert(t.subrange(i, t.len() as int) =~= Seq::<char>::empty());
    }
}

/// Where the blank lines of a text are collapsed, no three line breaks stand
/// in a row, and collapsing them once more changes nothing.
pub proof fn lemma_collapse_idempotent(s: Seq<char>)
    ensures
        has_no_blank_run(blank_lines_collapsed(s)),
        blank_lines_collapsed(blank_lines_collapsed(s)) == blank_lines_collapsed(s),
{
    lemma_collapsed_from(s, 0);
    let t = blank_lines_collapsed(s);
    lemma_collapse_nothing(t, 0);
    assert(t.subrange(0, t.len() as int) =~= t);
}

/// The first character of the upper-case form of `c` (`char::to_uppercase`).
pub uninterp spec fn uppercase_initial(c: char) -> char;

/// The first character of the upper-case form of `c`: for an ASCII
/// character its ASCII upper case, for any other what Unicode gives.
pub open spec fn upper_initial(c: char) -> char {
    if is_ascii_char(c) {
        ascii_upper(c)
    } else {
        uppercase_initial(c)
    }
}

/// `char::to_uppercase`: the first character that it yields, which Unicode
/// fixes for each character. An ASCII lower-case letter gives its upper-case
/// letter, any other ASCII character itself.
#[verifier::external_body]
fn to_upper_initial(c: char) -> (r: char)
    ensures
        is_ascii_char(c) ==> r == ascii_upper(c),
        !is_ascii_char(c) ==> r == uppercase_initial(c),
{
    c.to_uppercase().next().unwrap_or(c)
}

/// A word with its first character in upper case.
pub open spec fn capitalized(part: Seq<char>) -> Seq<char> {
    if part.len() == 0 {
        part
    } else {
        seq![upper_initial(part[0])] + part.skip(1)
    }
}

/// The first `n` words of a property name run together, all but the first
/// capitalized.
pub open spec fn camel_parts(parts: Seq<Seq<char>>, n: int) -> Seq<char>
    decreases n,
{
    if n <= 0 || n > parts.len() {
        Seq::<char>::empty()
    } else if n == 1 {
        parts[0]
    } else {
        camel_parts(parts, n - 1) + capitalized(parts[n - 1])
    }
}

/// A CSS property name in camel case: trimmed, cut at its hyphens, the
/// first word as it is and each later word capitalized.
pub open spec fn camel_case(prop: Seq<char>) -> Seq<char> {
    camel_parts(split(trim(prop), '-'), split(trim(prop), '-').len() as int)
}

/// Puts a CSS property name in camel case.
pub fn camel_case_chars(prop: &Vec<char>) -> (r: Vec<char>)
    ensures
        r@ == camel_case(prop@),
{
    let parts = split_exec(&trim_exec(prop), '-');
    let mut out = parts[0].clone();
    let mut k: usize = 1;
    while k < parts.len()
        invariant
            1 <= k <= parts.len(),
            out@ == camel_parts(rows(parts@), k as int),
        decreases parts.len() - k,
    {
        let part = &parts[k];
        let ghost before = out@;
        if part.len() > 0 {
            out.push(to_upper_initial(part[0]));
            let tail = subvec(part, 1, part.len());
            append_chars(&mut out, &tail);
            proof {
                assert(part@.skip(1) =~= part@.subrange(1, part@.len() as int));
                assert(out@ =~= before + capitalized(part@));
            }
        } else {
            proof {
                assert(out@ =~= before + capitalized(part@));
            }
        }
        k += 1;
    }
    out
}

/// One declaration of a style as a property of an object literal: the name
/// in camel case, a colon, and the value in double quotes. A declaration
/// that is blank or has no colon gives nothing.
pub open spec fn style_property(piece: Seq<char>) -> Option<Seq<char>> {
    let p = trim(piece);
    let colon = index_of(p, ':', 0);
    if p.len() == 0 || colon >= p.len() {
        None
    } else {
        Some(
            camel_case(trim(p.subrange(0, colon))) + ": \""@ + trim(
                p.subrange(colon + 1, p.len() as int),
            ) + "\""@,
        )
    }
}

/// The properties that the first `n` declarations give.
pub open spec fn style_properties(pieces: Seq<Seq<char>>, n: int) -> Seq<Seq<char>>
    decreases n,
{
    if n <= 0 || n > pieces.len() {
        Seq::<Seq<char>>::empty()
    } else {
        style_properties(pieces, n - 1) + (match style_property(pieces[n - 1]) {
            Some(p) => seq![p],
            None => Seq::<Seq<char>>::empty(),
        })
    }
}

/// A CSS declaration list as a `style` attribute that holds an object
/// literal; nothing at all where no declaration is valid.
pub open spec fn jsx_style(css: Seq<char>) -> Seq<char> {
    let props = style_properties(split(css, ';'), split(css, ';').len() as int);
    if props.len() == 0 {
        Seq::<char>::empty()
    } else {
        "style={{"@ + join(props, ", "@) + "}}"@
    }
}

fn style_property_exec(piece: &Vec<char>) -> (r: Option<Vec<char>>)
    ensures
        match r {
            Some(v) => style_property(piece@) == Some(v@),
            None => style_property(piece@) is None,
        },
{
    let p = trim_exec(piece);
    let colon = index_of_exec(&p, ':', 0);
    if p.len() == 0 || colon >= p.len() {
        return None;
    }
    let name = trim_exec(&subvec(&p, 0, colon));
    let value = trim_exec(&subvec(&p, colon + 1, p.len()));
    let mut out = camel_case_chars(&name);
    append_str(&mut out, ": \"");
    append_chars(&mut out, &value);
    append_str(&mut out, "\"");
    Some(out)
}

/// Turns a CSS declaration list into a `style` attribute with an object literal.
pub fn jsx_style_chars(css: &Vec<char>) -> (r: Vec<char>)
    ensures
        r@ == jsx_style(css@),
{
    let pieces = split_exec(css, ';');
    let mut props: Vec<Vec<char>> = Vec::new();
    let mut k: usize = 0;
    proof {
        assert(rows(props@) =~= style_properties(rows(pieces@), 0));
    }
    while k < pieces.len()
        invariant
            k <= pieces.len(),
            rows(props@) == style_properties(rows(pieces@), k as int),
        decreases pieces.len() - k,
    {
        let ghost before = rows(props@);
        match style_property_exec(&pieces[k]) {
            Some(p) => {
                proof {
                    lemma_rows_push(props@, p);
                    assert(before.push(p@) =~= before + seq![p@]);
                }
                props.push(p);
            },
            None => {
                proof {
                    assert(before + Seq::<Seq<char>>::empty() =~= before);
                }
            },
        }
        k += 1;
    }
    if props.len() == 0 {
        return Vec::new();
    }
    let mut out = to_chars("style={{");
    append_chars(&mut out, &join_exec(&props, &to_chars(", ")));
    append_str(&mut out, "}}");
    out
}

/// A `style="..."` attribute that begins at `i`, up to the next double
/// quote, replaced by its object-literal form.
pub open spec fn style_at(s: Seq<char>, i: int) -> Option<FoundView> {
    let from = i + 7;
    if has_at(s, i, "style=\""@) && index_of(s, '"', from) < s.len() {
        Some(
            FoundView {
                end: index_of(s, '"', from) + 1,
                replacement: jsx_style(s.subrange(from, index_of(s, '"', from))),
            },
        )
    } else {
        None
    }
}

fn style_at_exec(s: &Vec<char>, i: usize) -> (r: Option<Found>)
    ensures
        found_view(r) == style_at(s@, i as int),
{
    let open = to_chars("style=\"");
    proof {
        reveal_strlit("style=\"");
    }
    if !has_at_exec(s, i, &open) {
        return None;
    }
    assert(i + 7 <= s.len());
    let q = index_of_exec(s, '"', i + 7);
    if q >= s.len() {
        return None;
    }
    let css = subvec(s, i + 7, q);
    Some(Found { end: q + 1, replacement: jsx_style_chars(&css) })
}

/// The text with every `style` attribute in its object-literal form.
pub open spec fn styles_converted(s: Seq<char>) -> Seq<char> {
    rewrite(s, |t: Seq<char>, i: int| style_at(t, i))
}

/// Turns every `style` attribute into its object-literal form.
pub fn convert_style_chars(s: &Vec<char>) -> (r: Vec<char>)
    ensures
        r@ == styles_converted(s@),
{
    rewrite_exec(s, style_at_exec, Ghost(|t: Seq<char>, i: int| style_at(t, i)))
}

/// Raw HTML made fit for MDX: void tags self-closing, empty rows repaired,
/// styles as object literals.
pub open spec fn html_fixed(s: Seq<char>) -> Seq<char> {
    styles_converted(rows_repaired(self_closed(s)))
}

/// Repairs raw HTML for MDX.
pub fn fix_html_chars(s: &Vec<char>) -> (r: Vec<char>)
    ensures
        r@ == html_fixed(s@),
{
    convert_style_chars(&fix_malformed_chars(&fix_self_closing_chars(s)))
}

} // verus!
