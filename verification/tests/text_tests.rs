use fuma_rs::format::ast::{
    check_nesting, escape_curly_braces_in_math, format_mdx_complete, validate_mdx,
    wrap_accordions_in_container, Nesting,
};
use fuma_rs::format::regex as scan;
use fuma_rs::text::{
    from_chars, is_whitespace, join_exec, lines_exec, split_exec, to_chars, trim_exec,
};

#[test]
fn test_validate_mdx_valid() {
    let valid = "# Title\n\nSome text\n\n- List item";
    assert!(validate_mdx(valid).is_ok());
}

#[test]
fn check_nesting_reports_what_is_out_of_balance() {
    assert_eq!(check_nesting(&vec![]), Ok(()));
    assert_eq!(
        check_nesting(&vec![
            Nesting::Open("Paragraph".to_string()),
            Nesting::Neither,
            Nesting::Close
        ]),
        Ok(())
    );
    assert_eq!(
        check_nesting(&vec![Nesting::Neither, Nesting::Close, Nesting::Open("X".to_string())]),
        Err("Unexpected closing tag found".to_string())
    );
    assert_eq!(
        check_nesting(&vec![
            Nesting::Open("List(None)".to_string()),
            Nesting::Open("Item".to_string()),
            Nesting::Open("Emphasis".to_string()),
            Nesting::Close
        ]),
        Err("Unclosed tags: [\"List(None)\", \"Item\"]".to_string())
    );
}

#[test]
fn white_space_is_what_the_standard_library_says() {
    for code in 0..=0x10FFFFu32 {
        if let Some(c) = char::from_u32(code) {
            assert_eq!(is_whitespace(c), c.is_whitespace(), "U+{:04X}", code);
        }
    }
}

fn texts() -> Vec<String> {
    let pieces = ["", "a", " ", "\n", "\r\n", "\r", "b c", "\t", "\u{3000}", "é", "\n\n", "/", "x/"];
    let mut out = Vec::new();
    for a in pieces.iter() {
        for b in pieces.iter() {
            for c in pieces.iter() {
                out.push(format!("{}{}{}", a, b, c));
            }
        }
    }
    out
}

fn strings(rows: &Vec<Vec<char>>) -> Vec<String> {
    rows.iter().map(from_chars).collect()
}

#[test]
fn lines_split_trim_and_join_agree_with_the_standard_library() {
    for s in texts() {
        let chars = to_chars(&s);
        assert_eq!(from_chars(&chars), s);
        let expected_lines: Vec<String> = s.lines().map(|l| l.to_string()).collect();
        assert_eq!(strings(&lines_exec(&chars)), expected_lines, "lines of {:?}", s);
        let expected_split: Vec<String> = s.split('/').map(|l| l.to_string()).collect();
        assert_eq!(strings(&split_exec(&chars, '/')), expected_split, "split of {:?}", s);
        assert_eq!(from_chars(&trim_exec(&chars)), s.trim(), "trim of {:?}", s);
        let joined = join_exec(&lines_exec(&chars), &to_chars(", "));
        assert_eq!(from_chars(&joined), expected_lines.join(", "), "join of {:?}", s);
    }
}

#[test]
fn math_braces_are_escaped_inside_spans_only() {
    assert_eq!(escape_curly_braces_in_math("Math: $x = {1}$"), "Math: $x = \\{1\\}$");
    assert_eq!(escape_curly_braces_in_math("{a} $$\\frac{1}{2}$$ {b}"), "{a} $$\\frac\\{1\\}\\{2\\}$$ {b}");
    assert_eq!(escape_curly_braces_in_math("$\\{x\\}$"), "$\\{x\\}$");
    assert_eq!(escape_curly_braces_in_math("cost $5 {x}"), "cost $5 {x}");
    assert_eq!(escape_curly_braces_in_math("$$ {x} $ y"), "$$ \\{x\\} $ y");
    assert_eq!(escape_curly_braces_in_math("$${"), "$${");
    assert_eq!(escape_curly_braces_in_math("$$$$"), "$$$$");
    assert_eq!(escape_curly_braces_in_math("${$}$"), "$\\{$}$");
    assert_eq!(escape_curly_braces_in_math(""), "");
    assert_eq!(scan::escape_curly_braces_in_math("$a_{1}$"), "$a_\\{1\\}$");
}

#[test]
fn math_escaping_twice_is_escaping_once() {
    for s in ["$x = {1}$", "$$ {x} $ y $", "{a} $$\\frac{1}{2}$$ {b}", "$\\{x}$ and ${y$", "$"] {
        let once = escape_curly_braces_in_math(s);
        assert_eq!(escape_curly_braces_in_math(&once), once);
    }
}

#[test]
fn accordion_runs_follow_the_depth() {
    assert_eq!(wrap_accordions_in_container("plain\ntext\n"), "plain\ntext");
    assert_eq!(wrap_accordions_in_container(""), "");
    let nested = "<Accordion title=\"a\">\n<Accordion title=\"b\">\nx\n</Accordion>\n</Accordion>\nend";
    assert_eq!(
        wrap_accordions_in_container(nested),
        "<Accordions>\n<Accordion title=\"a\">\n<Accordion title=\"b\">\nx\n</Accordion>\n</Accordion>\n</Accordions>\nend"
    );
    let open_at_end = "<Accordion title=\"a\">\nx";
    assert_eq!(
        wrap_accordions_in_container(open_at_end),
        "<Accordions>\n<Accordion title=\"a\">\nx\n</Accordions>"
    );
    let one_line = "<Accordion title=\"a\">x</Accordion>\nnext";
    assert_eq!(
        scan::wrap_accordions_in_container(one_line),
        "<Accordions>\n<Accordion title=\"a\">x</Accordion>\nnext\n</Accordions>"
    );
}

#[test]
fn formatting_a_plain_document_twice_changes_nothing_more() {
    for input in [
        "# Title\n\nSome text with *emphasis* and `code`.\n\n- one\n- two\n",
        "Text <br> here and $a_{1}$ there\n\n\n\nnext\n",
        "| a | b |\n|---|---|\n| 1 | 2 |\n\n~~gone~~\n",
    ] {
        let once = format_mdx_complete(input);
        let twice = format_mdx_complete(&once);
        assert_eq!(twice, once, "input {:?}", input);
    }
}

#[test]
fn validate_mdx_accepts_nested_structures() {
    for doc in ["", "> quote\n\n1. a\n   - b\n\n**bold** `code`", "<div>\n\n*x*\n\n</div>", "![a](b) [c](d)"] {
        assert_eq!(validate_mdx(doc), Ok(()), "document {:?}", doc);
    }
}

#[test]
fn the_event_pass_gives_the_same_text_each_time() {
    let input = "# T\n\n![Badge](https://img.shields.io/x) and <br> here\n\n| a |\n|---|\n| 1 |\n";
    let first = fuma_rs::format::ast::process_with_ast(input);
    assert_eq!(fuma_rs::format::ast::process_with_ast(input), first);
    assert!(first.contains("<br />"));
    assert!(!first.contains("shields.io"));
    assert!(first.contains("|a|") || first.contains("| a |"));
}
