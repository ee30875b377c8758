//! Scanners that work on the raw text: brace escaping inside LaTeX math and
//! the grouping of consecutive accordions.

use crate::text::{
    contains, contains_exec, from_chars, join, join_exec, lines, lines_exec, push_row, rows,
    to_chars, trim, trim_exec,
};
use vstd::prelude::*;

verus! {

/// `j` holds a closing delimiter of the given style: a `$`, and for display
/// math a second `$` right behind it.
pub open spec fn closes_at(s: Seq<char>, j: int, display: bool) -> bool {
    0 <= j < s.len() && s[j] == '$' && (!display || (j + 1 < s.len() && s[j + 1] == '$'))
}

/// The first closing delimiter at or after `j`, if any.
pub open spec fn find_close(s: Seq<char>, j: int, display: bool) -> Option<int>
    decreases s.len() - j,
{
    if j < 0 || j >= s.len() {
        None
    } else if closes_at(s, j, display) {
        Some(j)
    } else {
        find_close(s, j + 1, display)
    }
}

/// The character at `k` is a brace that no backslash precedes.
pub open spec fn is_bare_brace(s: Seq<char>, k: int) -> bool {
    0 <= k < s.len() && (s[k] == '{' || s[k] == '}') && (k == 0 || s[k - 1] != '\\')
}

/// The characters of `s[k..end]`, a backslash put before every bare brace.
pub open spec fn escape_span(s: Seq<char>, k: int, end: int) -> Seq<char>
    decreases end - k,
{
    if k < 0 || k >= end || end > s.len() {
        Seq::<char>::empty()
    } else if is_bare_brace(s, k) {
        seq!['\\', s[k]] + escape_span(s, k + 1, end)
    } else {
        seq![s[k]] + escape_span(s, k + 1, end)
    }
}

/// A display delimiter begins at `i`.
pub open spec fn opens_display(s: Seq<char>, i: int) -> bool {
    i + 1 < s.len() && s[i + 1] == '$'
}

/// The opening or closing delimiter of a math span.
pub open spec fn delimiter(display: bool) -> Seq<char> {
    if display {
        seq!['$', '$']
    } else {
        seq!['$']
    }
}

/// The text from `i` on with the braces inside its math spans escaped.
///
/// A `$` opens a span when a closing delimiter of the same style follows;
/// the span runs to the first such delimiter. A `$` without one is ordinary
/// text, and the scan resumes right behind it.
pub open spec fn escape_math_from(s: Seq<char>, i: int) -> Seq<char>
    decreases s.len() - i,
    via escape_math_from_decreases
{
    if i < 0 || i >= s.len() {
        Seq::<char>::empty()
    } else if s[i] == '$' {
        let display = opens_display(s, i);
        let width: int = if display {
            2
        } else {
            1
        };
        match find_close(s, i + width, display) {
            Some(j) => delimiter(display) + escape_span(s, i + width, j) + delimiter(display)
                + escape_math_from(s, j + width),
            None => seq![s[i]] + escape_math_from(s, i + 1),
        }
    } else {
        seq![s[i]] + escape_math_from(s, i + 1)
    }
}

#[via_fn]
proof fn escape_math_from_decreases(s: Seq<char>, i: int) {
    if 0 <= i < s.len() && s[i] == '$' {
        lemma_find_close_bounds(s, i + 1, opens_display(s, i));
        lemma_find_close_bounds(s, i + 2, opens_display(s, i));
    }
}

/// The text with the braces inside its `$...$` and `$$...$$` spans escaped.
pub open spec fn escape_math(s: Seq<char>) -> Seq<char> {
    escape_math_from(s, 0)
}

proof fn lemma_find_close_bounds(s: Seq<char>, j: int, display: bool)
    requires
        0 <= j,
    ensures
        match find_close(s, j, display) {
            Some(k) => j <= k < s.len() && closes_at(s, k, display),
            None => true,
        },
    decreases s.len() - j,
{
    if j >= s.len() {
    } else if closes_at(s, j, display) {
    } else {
        lemma_find_close_bounds(s, j + 1, display);
    }
}

fn find_close_exec(s: &Vec<char>, from: usize, display: bool) -> (r: Option<usize>)
    ensures
        match r {
            Some(k) => find_close(s@, from as int, display) == Some(k as int) && from <= k
                < s.len() && (display ==> k + 1 < s.len()),
            None => find_close(s@, from as int, display) is None,
        },
{
    let mut j: usize = from;
    while j < s.len()
        invariant
            from <= j,
            find_close(s@, from as int, display) == find_close(s@, j as int, display),
        decreases s.len() - j,
    {
        if s[j] == '$' {
            if !display {
                return Some(j);
            } else if j + 1 < s.len() && s[j + 1] == '$' {
                return Some(j);
            }
        }
        j += 1;
    }
    None
}

fn escape_span_exec(out: &mut Vec<char>, s: &Vec<char>, from: usize, end: usize)
    requires
        from <= end <= s.len(),
    ensures
        final(out)@ == old(out)@ + escape_span(s@, from as int, end as int),
{
    let mut k: usize = from;
    proof {
        assert(old(out)@ + escape_span(s@, k as int, end as int) =~= old(out)@ + escape_span(
            s@,
            from as int,
            end as int,
        ));
    }
    while k < end
        invariant
            from <= k <= end <= s.len(),
            out@ + escape_span(s@, k as int, end as int) == old(out)@ + escape_span(
                s@,
                from as int,
                end as int,
            ),
        decreases end - k,
    {
        let ghost before = out@;
        let c = s[k];
        if (c == '{' || c == '}') && (k == 0 || s[k - 1] != '\\') {
            out.push('\\');
        }
        out.push(c);
        proof {
            if is_bare_brace(s@, k as int) {
                assert(out@ =~= before + seq!['\\', s@[k as int]]);
            } else {
                assert(out@ =~= before + seq![s@[k as int]]);
            }
            assert(out@ + escape_span(s@, k + 1, end as int) =~= before + escape_span(
                s@,
                k as int,
                end as int,
            ));
        }
        k += 1;
    }
    proof {
        assert(out@ + escape_span(s@, end as int, end as int) =~= out@);
    }
}

fn push_delimiter(out: &mut Vec<char>, display: bool)
    ensures
        final(out)@ == old(out)@ + delimiter(display),
{
    out.push('$');
    if display {
        out.push('$');
    }
    proof {
        assert(out@ =~= old(out)@ + delimiter(display));
    }
}

/// `escape_curly_braces_in_math` on characters.
pub fn escape_math_chars(s: &Vec<char>) -> (r: Vec<char>)
    ensures
        r@ == escape_math(s@),
{
    let mut out: Vec<char> = Vec::new();
    let mut i: usize = 0;
    proof {
        assert(out@ + escape_math_from(s@, 0) =~= escape_math(s@));
    }
    while i < s.len()
        invariant
            i <= s.len(),
            out@ + escape_math_from(s@, i as int) == escape_math(s@),
        decreases s.len() - i,
    {
        let ghost before = out@;
        if s[i] == '$' {
            let display = i + 1 < s.len() && s[i + 1] == '$';
            let width: usize = if display {
                2
            } else {
                1
            };
            let close = find_close_exec(s, i + width, display);
            match close {
                Some(j) => {
                    push_delimiter(&mut out, display);
                    escape_span_exec(&mut out, s, i + width, j);
                    push_delimiter(&mut out, display);
                    proof {
                        assert(out@ + escape_math_from(s@, j + width) =~= before + (delimiter(
                            display,
                        ) + escape_span(s@, i + width, j as int) + delimiter(display)
                            + escape_math_from(s@, j + width)));
                    }
                    i = j + width;
                    continue ;
                },
                None => {},
            }
        }
        out.push(s[i]);
        proof {
            assert(out@ + escape_math_from(s@, i + 1) =~= before + (seq![s@[i as int]]
                + escape_math_from(s@, i + 1)));
        }
        i += 1;
    }
    proof {
        assert(out@ + escape_math_from(s@, s.len() as int) =~= out@);
    }
    out
}

/// Escape curly braces inside LaTeX math expressions for MDX compatibility.
pub fn escape_curly_braces_in_math(content: &str) -> (r: String)
    ensures
        r@ == escape_math(content@),
{
    from_chars(&escape_math_chars(&to_chars(content)))
}

/// What marks a line as opening an accordion.
pub open spec fn open_marker() -> Seq<char> {
    "<Accordion "@
}

/// What marks a line as closing an accordion.
pub open spec fn close_marker() -> Seq<char> {
    "</Accordion>"@
}

/// The line that opens a container.
pub open spec fn container_open() -> Seq<char> {
    "<Accordions>"@
}

/// The line that closes a container.
pub open spec fn container_close() -> Seq<char> {
    "</Accordions>"@
}

/// The first line at or after `j` that is not blank opens an accordion.
pub open spec fn next_opens(lines: Seq<Seq<char>>, j: int) -> bool
    decreases lines.len() - j,
{
    if j < 0 || j >= lines.len() {
        false
    } else if trim(lines[j]).len() == 0 {
        next_opens(lines, j + 1)
    } else {
        contains(trim(lines[j]), open_marker())
    }
}

/// The nesting depth after a line read inside a run.
pub open spec fn depth_after(line: Seq<char>, depth: int) -> int {
    depth + (if contains(line, open_marker()) {
        1int
    } else {
        0int
    }) - (if contains(line, close_marker()) {
        1int
    } else {
        0int
    })
}

/// The output lines for the input lines from `i` on.
///
/// Outside a run, a line with the opening marker starts one, at depth 1,
/// behind a container-opening line; other lines pass. Inside a run every line
/// passes and moves the depth. When the depth is back at 0 and the next line
/// that is not blank opens no accordion, the run ends with a
/// container-closing line. A run still open at the end of the input is
/// closed there.
pub open spec fn wrap_scan(lines: Seq<Seq<char>>, i: int, in_run: bool, depth: int) -> Seq<
    Seq<char>,
>
    decreases lines.len() - i,
{
    if i < 0 || i >= lines.len() {
        if in_run {
            seq![container_close()]
        } else {
            Seq::<Seq<char>>::empty()
        }
    } else if !in_run {
        if contains(lines[i], open_marker()) {
            seq![container_open(), lines[i]] + wrap_scan(lines, i + 1, true, 1)
        } else {
            seq![lines[i]] + wrap_scan(lines, i + 1, false, 0)
        }
    } else {
        let d = depth_after(lines[i], depth);
        if d == 0 && !next_opens(lines, i + 1) {
            seq![lines[i], container_close()] + wrap_scan(lines, i + 1, false, 0)
        } else {
            seq![lines[i]] + wrap_scan(lines, i + 1, true, d)
        }
    }
}

/// The text with every run of consecutive accordions put inside one
/// container: its lines rewritten by `wrap_scan` and joined by `\n`.
pub open spec fn wrap_accordions(s: Seq<char>) -> Seq<char> {
    join(wrap_scan(lines(s), 0, false, 0), seq!['\n'])
}

/// No line opens an accordion.
pub open spec fn has_no_accordion(lines: Seq<Seq<char>>) -> bool {
    forall|i: int| 0 <= i < lines.len() ==> !contains(#[trigger] lines[i], open_marker())
}

proof fn lemma_wrap_scan_plain(lines: Seq<Seq<char>>, i: int)
    requires
        0 <= i <= lines.len(),
        has_no_accordion(lines),
    ensures
        wrap_scan(lines, i, false, 0) == lines.subrange(i, lines.len() as int),
    decreases lines.len() - i,
{
    if i < lines.len() {
        lemma_wrap_scan_plain(lines, i + 1);
        assert(seq![lines[i]] + lines.subrange(i + 1, lines.len() as int) =~= lines.subrange(
            i,
            lines.len() as int,
        ));
    } else {
        assert(lines.subrange(i, lines.len() as int) =~= Seq::<Seq<char>>::empty());
    }
}

/// A text in which no line opens an accordion gets no container: its lines
/// come back, joined by line breaks.
pub proof fn lemma_wrap_without_accordions(s: Seq<char>)
    requires
        has_no_accordion(lines(s)),
    ensures
        wrap_accordions(s) == join(lines(s), seq!['\n']),
{
    lemma_wrap_scan_plain(lines(s), 0);
    assert(lines(s).subrange(0, lines(s).len() as int) =~= lines(s));
}

fn next_opens_exec(lines: &Vec<Vec<char>>, from: usize, open: &Vec<char>) -> (r: bool)
    requires
        open@ == open_marker(),
    ensures
        r == next_opens(rows(lines@), from as int),
{
    let mut j: usize = from;
    while j < lines.len()
        invariant
            from <= j,
            open@ == open_marker(),
            next_opens(rows(lines@), from as int) == next_opens(rows(lines@), j as int),
        decreases lines.len() - j,
    {
        let t = trim_exec(&lines[j]);
        if t.len() != 0 {
            return contains_exec(&t, open);
        }
        j += 1;
    }
    false
}

/// `wrap_accordions_in_container` on characters.
pub fn wrap_accordions_chars(s: &Vec<char>) -> (r: Vec<char>)
    ensures
        r@ == wrap_accordions(s@),
{
    let lines = lines_exec(s);
    let open = to_chars("<Accordion ");
    let close = to_chars("</Accordion>");
    let mut out: Vec<Vec<char>> = Vec::new();
    let mut in_run = false;
    let mut depth: i128 = 0;
    let mut i: usize = 0;
    let ghost all = rows(lines@);
    proof {
        assert(rows(out@) + wrap_scan(all, 0, false, 0) =~= wrap_scan(all, 0, false, 0));
    }
    while i < lines.len()
        invariant
            i <= lines.len(),
            all == rows(lines@),
            open@ == open_marker(),
            close@ == close_marker(),
            -(i as int) <= depth <= i as int,
            rows(out@) + wrap_scan(all, i as int, in_run, depth as int) == wrap_scan(
                all,
                0,
                false,
                0,
            ),
        decreases lines.len() - i,
    {
        let ghost before = rows(out@);
        let ghost rest = wrap_scan(all, i as int, in_run, depth as int);
        let line = &lines[i];
        assert(all[i as int] == line@);
        let has_open = contains_exec(line, &open);
        if has_open && !in_run {
            push_row(&mut out, to_chars("<Accordions>"));
            push_row(&mut out, line.clone());
            in_run = true;
            depth = 1;
            proof {
                assert(rows(out@) + wrap_scan(all, i + 1, true, 1) =~= before + rest);
            }
        } else if in_run {
            push_row(&mut out, line.clone());
            if has_open {
                depth += 1;
            }
            if contains_exec(line, &close) {
                depth -= 1;
            }
            if depth == 0 && !next_opens_exec(&lines, i + 1, &open) {
                push_row(&mut out, to_chars("</Accordions>"));
                in_run = false;
                proof {
                    assert(rows(out@) + wrap_scan(all, i + 1, false, 0) =~= before + rest);
                }
            } else {
                proof {
                    assert(rows(out@) + wrap_scan(all, i + 1, true, depth as int) =~= before
                        + rest);
                }
            }
        } else {
            push_row(&mut out, line.clone());
            proof {
                assert(rows(out@) + wrap_scan(all, i + 1, false, 0) =~= before + rest);
            }
        }
        i += 1;
    }
    if in_run {
        push_row(&mut out, to_chars("</Accordions>"));
    }
    proof {
        assert(rows(out@) =~= wrap_scan(all, 0, false, 0));
    }
    let mut newline: Vec<char> = Vec::new();
    newline.push('\n');
    assert(newline@ =~= seq!['\n']);
    join_exec(&out, &newline)
}

/// Wrap consecutive Accordion blocks in a single Accordions container.
pub fn wrap_accordions_in_container(content: &str) -> (r: String)
    ensures
        r@ == wrap_accordions(content@),
{
    from_chars(&wrap_accordions_chars(&to_chars(content)))
}

} // verus!
