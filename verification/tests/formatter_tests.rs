use fuma_rs::formatter::{
    convert_hugo_details_to_accordion, convert_style_to_jsx, css_property_to_camel_case,
    fix_malformed_html, fix_self_closing_tags, format_mdx_file, remove_html_comments,
    remove_shield_badges, wrap_accordions_in_container,
};

#[test]
fn formatter_test_remove_html_comments() {
    let input = "Hello <!-- comment --> World";
    let output = remove_html_comments(input);
    assert_eq!(output, "Hello  World");
}

#[test]
fn test_remove_html_comments_multiline() {
    let input = "Text <!-- \nmultiline\ncomment\n--> more text";
    let output = remove_html_comments(input);
    assert_eq!(output, "Text  more text");
}

#[test]
fn test_remove_html_comments_multiple() {
    let input = "<!-- first -->text<!-- second -->more";
    let output = remove_html_comments(input);
    assert_eq!(output, "textmore");
}

#[test]
fn test_remove_shield_badges() {
    let input = "# Title\n![badge](https://img.shields.io/badge/test)\nNormal content";
    let output = remove_shield_badges(input);
    assert!(!output.contains("shields.io"));
    assert!(output.contains("Normal content"));
}

#[test]
fn formatter_test_fix_self_closing_tags() {
    let input = "Line 1<br>Line 2<hr>Line 3";
    let output = fix_self_closing_tags(input);
    assert_eq!(output, "Line 1<br />Line 2<hr />Line 3");
}

#[test]
fn test_fix_self_closing_tags_with_spaces() {
    let input = "Text<br >more<hr  >end";
    let output = fix_self_closing_tags(input);
    assert_eq!(output, "Text<br />more<hr />end");
}

#[test]
fn test_fix_malformed_html() {
    let input = "<table><tr></table>";
    let output = fix_malformed_html(input);
    assert_eq!(output, "<table></table>");
}

#[test]
fn test_fix_malformed_html_empty_tr() {
    let input = "<table><tr></tr><tr><td>data</td></tr></table>";
    let output = fix_malformed_html(input);
    assert!(!output.contains("<tr></tr>"));
    assert!(output.contains("<td>data</td>"));
}

#[test]
fn formatter_test_css_to_camel_case() {
    assert_eq!(css_property_to_camel_case("text-align"), "textAlign");
    assert_eq!(
        css_property_to_camel_case("background-color"),
        "backgroundColor"
    );
    assert_eq!(css_property_to_camel_case("margin"), "margin");
}

#[test]
fn test_css_to_camel_case_edge_cases() {
    assert_eq!(css_property_to_camel_case(""), "");
    assert_eq!(css_property_to_camel_case("font-size"), "fontSize");
    assert_eq!(
        css_property_to_camel_case("border-top-left-radius"),
        "borderTopLeftRadius"
    );
}

#[test]
fn formatter_test_convert_style_to_jsx() {
    let input = r#"<div style="text-align:center;color:red;"></div>"#;
    let output = convert_style_to_jsx(input);
    assert!(output.contains("textAlign"));
    assert!(output.contains("color"));
}

#[test]
fn test_convert_style_to_jsx_empty() {
    let input = r#"<div style=""></div>"#;
    let output = convert_style_to_jsx(input);
    assert!(!output.contains("style="));
}

#[test]
fn test_convert_style_to_jsx_complex() {
    let input =
        r#"<div style="margin-top: 10px; padding-left: 20px; background-color: #fff;"></div>"#;
    let output = convert_style_to_jsx(input);
    assert!(output.contains("marginTop"));
    assert!(output.contains("paddingLeft"));
    assert!(output.contains("backgroundColor"));
}

#[test]
fn test_convert_hugo_details_to_accordion() {
    let input = r#"{{% details title="Test" %}}Content here{{% /details %}}"#;
    let output = convert_hugo_details_to_accordion(input);
    assert!(output.contains("<Accordion title=\"Test\">"));
    assert!(output.contains("</Accordion>"));
    assert!(output.contains("Content here"));
}

#[test]
fn test_convert_hugo_details_multiline() {
    let input = r#"{{% details title="Question" %}}
Line 1
Line 2
{{% /details %}}"#;
    let output = convert_hugo_details_to_accordion(input);
    assert!(output.contains("<Accordion title=\"Question\">"));
    assert!(output.contains("Line 1"));
    assert!(output.contains("Line 2"));
}

#[test]
fn test_wrap_accordions_in_container() {
    let input = r#"<Accordion title="Q1">
A1
</Accordion>
<Accordion title="Q2">
A2
</Accordion>"#;
    let output = wrap_accordions_in_container(input);
    assert!(output.contains("<Accordions>"));
    assert!(output.contains("</Accordions>"));
}

#[test]
fn test_wrap_accordions_single() {
    let input = r#"<Accordion title="Q1">
A1
</Accordion>"#;
    let output = wrap_accordions_in_container(input);
    assert!(output.contains("<Accordions>"));
    assert!(output.contains("</Accordions>"));
}

#[test]
fn test_format_mdx_file_integration() {
    let input = r#"<!-- comment -->
# Title
![badge](https://img.shields.io/test)
<br>
<div style="text-align:center;">Content</div>
Math: $x = {1}$
{{% details title="Test" %}}Answer{{% /details %}}"#;

    let output = format_mdx_file(input);

    // Check all transformations applied
    assert!(!output.contains("<!--"));
    assert!(!output.contains("shields.io"));
    assert!(output.contains("<br />"));
    assert!(output.contains("textAlign"));
    assert!(output.contains("<Accordion"));
}

#[test]
fn style_conversion_gives_the_exact_object_literal() {
    let input = r#"<div style="text-align:center; color : red ;;x"></div>"#;
    assert_eq!(
        convert_style_to_jsx(input),
        r#"<div style={{textAlign: "center", color: "red"}}></div>"#
    );
}

#[test]
fn hugo_block_on_one_line_gives_three_lines() {
    let input = r#"{{% details title="Test" %}}Content here{{% /details %}}"#;
    assert_eq!(
        convert_hugo_details_to_accordion(input),
        "<Accordions>\n<Accordion title=\"Test\">\nContent here\n</Accordion>\n</Accordions>"
    );
}

#[test]
fn adjacent_accordions_share_one_container() {
    let input = "<Accordion title=\"Q1\">\nA1\n</Accordion>\n\n<Accordion title=\"Q2\">\nA2\n</Accordion>\nafter";
    let output = wrap_accordions_in_container(input);
    assert_eq!(
        output,
        "<Accordions>\n<Accordion title=\"Q1\">\nA1\n</Accordion>\n\n<Accordion title=\"Q2\">\nA2\n</Accordion>\n</Accordions>\nafter"
    );
    assert_eq!(output.matches("<Accordions>").count(), 1);
    assert_eq!(output.matches("</Accordions>").count(), 1);
}

#[test]
fn separated_accordions_get_a_container_each() {
    let input = "<Accordion title=\"Q1\">\nA1\n</Accordion>\ntext\n<Accordion title=\"Q2\">\nA2\n</Accordion>";
    let output = wrap_accordions_in_container(input);
    assert_eq!(output.matches("<Accordions>").count(), 2);
}

#[test]
fn camel_case_of_ascii_words_is_ascii_upper_case() {
    for code in 0x21u8..0x7F {
        let c = code as char;
        if c == '-' {
            continue;
        }
        let input = format!("x-{}y", c);
        let expected = format!("x{}y", c.to_ascii_uppercase());
        assert_eq!(css_property_to_camel_case(&input), expected, "character {:?}", c);
    }
    assert_eq!(css_property_to_camel_case("text-align"), "textAlign");
}
