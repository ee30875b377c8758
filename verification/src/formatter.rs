//! The plain-text formatter: every step scans the raw text of a document.

use crate::format::html::{
    blank_lines_collapsed, camel_case, camel_case_chars, collapse_blank_lines_chars,
    comments_removed, convert_style_chars, fix_malformed_chars, fix_self_closing_chars,
    remove_comments_chars, rows_repaired, self_closed, styles_converted,
};
use crate::format::regex::{wrap_accordions, wrap_accordions_chars};
use crate::format::shortcode::{convert_shortcodes_chars, shortcodes_converted};
use crate::text::{
    contains, contains_exec, from_chars, join, join_exec, lemma_rows_push, rows, split,
    split_exec, to_chars,
};
use vstd::prelude::*;

verus! {

/// What marks a line as holding a badge.
pub open spec fn badge_address() -> Seq<char> {
    "https://img.shields.io"@
}

/// The first `n` lines without those that hold a badge.
pub open spec fn unbadged(lines: Seq<Seq<char>>, n: int) -> Seq<Seq<char>>
    decreases n,
{
    if n <= 0 || n > lines.len() {
        Seq::<Seq<char>>::empty()
    } else if contains(lines[n - 1], badge_address()) {
        unbadged(lines, n - 1)
    } else {
        unbadged(lines, n - 1).push(lines[n - 1])
    }
}

/// The text without the lines that hold a badge.
pub open spec fn badges_removed(s: Seq<char>) -> Seq<char> {
    join(unbadged(split(s, '\n'), split(s, '\n').len() as int), seq!['\n'])
}

/// Removes the lines that hold a badge.
pub fn remove_badges_chars(s: &Vec<char>) -> (r: Vec<char>)
    ensures
        r@ == badges_removed(s@),
{
    let lines = split_exec(s, '\n');
    let badge = to_chars("https://img.shields.io");
    let mut kept: Vec<Vec<char>> = Vec::new();
    let mut k: usize = 0;
    proof {
        assert(rows(kept@) =~= unbadged(rows(lines@), 0));
    }
    while k < lines.len()
        invariant
            k <= lines.len(),
            badge@ == badge_address(),
            rows(kept@) == unbadged(rows(lines@), k as int),
        decreases lines.len() - k,
    {
        if !contains_exec(&lines[k], &badge) {
            proof {
                lemma_rows_push(kept@, lines@[k as int]);
            }
            kept.push(lines[k].clone());
        }
        k += 1;
    }
    let mut newline: Vec<char> = Vec::new();
    newline.push('\n');
    assert(newline@ =~= seq!['\n']);
    join_exec(&kept, &newline)
}

/// Remove HTML comments from content.
pub fn remove_html_comments(content: &str) -> (r: String)
    ensures
        r@ == comments_removed(content@),
{
    from_chars(&remove_comments_chars(&to_chars(content)))
}

/// Remove the lines that hold a shields.io badge.
pub fn remove_shield_badges(content: &str) -> (r: String)
    ensures
        r@ == badges_removed(content@),
{
    from_chars(&remove_badges_chars(&to_chars(content)))
}

/// Convert `<br>` and `<hr>` to their self-closing form.
pub fn fix_self_closing_tags(content: &str) -> (r: String)
    ensures
        r@ == self_closed(content@),
{
    from_chars(&fix_self_closing_chars(&to_chars(content)))
}

/// Remove empty table rows.
pub fn fix_malformed_html(content: &str) -> (r: String)
    ensures
        r@ == rows_repaired(content@),
{
    from_chars(&fix_malformed_chars(&to_chars(content)))
}

/// Convert a CSS property name to camel case.
pub fn css_property_to_camel_case(prop: &str) -> (r: String)
    ensures
        r@ == camel_case(prop@),
{
    from_chars(&camel_case_chars(&to_chars(prop)))
}

/// Convert HTML style attributes to object literals.
pub fn convert_style_to_jsx(content: &str) -> (r: String)
    ensures
        r@ == styles_converted(content@),
{
    from_chars(&convert_style_chars(&to_chars(content)))
}

/// Convert Hugo details shortcodes to accordions, and put consecutive
/// accordions in one container.
pub fn convert_hugo_details_to_accordion(content: &str) -> (r: String)
    ensures
        r@ == wrap_accordions(shortcodes_converted(content@)),
{
    from_chars(&wrap_accordions_chars(&convert_shortcodes_chars(&to_chars(content))))
}

/// Wrap consecutive accordions in a single container.
pub fn wrap_accordions_in_container(content: &str) -> (r: String)
    ensures
        r@ == wrap_accordions(content@),
{
    from_chars(&wrap_accordions_chars(&to_chars(content)))
}

/// What `format_mdx_file` makes of a document: comments and badge lines
/// removed, HTML repaired, styles and shortcodes converted, accordions
/// grouped, and blank lines collapsed.
pub open spec fn mdx_file_formatted(s: Seq<char>) -> Seq<char> {
    blank_lines_collapsed(
        wrap_accordions(
            shortcodes_converted(
                styles_converted(rows_repaired(self_closed(badges_removed(comments_removed(s))))),
            ),
        ),
    )
}

/// Format a single MDX document with all transformations.
pub fn format_mdx_file(content: &str) -> (r: String)
    ensures
        r@ == mdx_file_formatted(content@),
{
    let s = to_chars(content);
    let s = remove_comments_chars(&s);
    let s = remove_badges_chars(&s);
    let s = fix_self_closing_chars(&s);
    let s = fix_malformed_chars(&s);
    let s = convert_style_chars(&s);
    let s = convert_shortcodes_chars(&s);
    let s = wrap_accordions_chars(&s);
    let s = collapse_blank_lines_chars(&s);
    from_chars(&s)
}

} // verus!
