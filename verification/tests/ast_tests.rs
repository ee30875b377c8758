use fuma_rs::format::ast::{
    cleanup_blank_lines, convert_hugo_shortcodes, css_to_camel_case, finish_formatting,
    format_mdx_complete, process_event, process_events, process_with_ast, MdEvent, ProcessorState,
};

#[test]
fn ast_test_remove_html_comments() {
    let input = "Text <!-- comment --> more";
    let output = process_with_ast(input);
    assert!(!output.contains("<!--"));
    assert!(output.contains("Text"));
    assert!(output.contains("more"));
}

#[test]
fn ast_test_fix_self_closing_tags() {
    let input = "Line <br> break <hr> rule";
    let output = process_with_ast(input);
    assert!(output.contains("<br />"));
    assert!(output.contains("<hr />"));
}

#[test]
fn test_remove_shields_badges() {
    let input = "![Badge](https://img.shields.io/badge/test-blue) text";
    let output = process_with_ast(input);
    assert!(!output.contains("shields.io"));
}

#[test]
fn test_keep_normal_images() {
    let input = "![Image](https://example.com/image.png)";
    let output = process_with_ast(input);
    assert!(output.contains("example.com"));
}

#[test]
fn ast_test_convert_style_to_jsx() {
    let input = r#"<div style="text-align:center;color:red;"></div>"#;
    let output = process_with_ast(input);
    assert!(output.contains("textAlign"));
    assert!(output.contains("{{"));
}

#[test]
fn ast_test_css_to_camel_case() {
    assert_eq!(css_to_camel_case("text-align"), "textAlign");
    assert_eq!(css_to_camel_case("background-color"), "backgroundColor");
    assert_eq!(css_to_camel_case("margin"), "margin");
}

#[test]
fn test_state_machine_code_block() {
    let input = "Text <br> outside\n\n```html\n<br>\n```\n\nMore <br> text";
    let output = process_with_ast(input);

    // Should fix <br> outside code blocks
    let lines: Vec<&str> = output.lines().collect();
    let outside_lines: Vec<&str> = lines
        .iter()
        .filter(|l| !l.contains("```") && !l.trim().is_empty())
        .copied()
        .collect();

    // Check that HTML outside code blocks is fixed
    assert!(
        outside_lines.iter().any(|l| l.contains("<br />")),
        "Should fix <br> outside code blocks"
    );
}

#[test]
fn test_cleanup_blank_lines() {
    let input = "line1\n\n\n\nline2\n\n\nline3";
    let output = cleanup_blank_lines(input);
    assert!(!output.contains("\n\n\n"));
}

#[test]
fn test_convert_hugo_shortcodes() {
    let input = r#"{{% details title="Test" %}}Content{{% /details %}}"#;
    let output = convert_hugo_shortcodes(input);
    assert!(output.contains("<Accordion"));
    assert!(output.contains("</Accordion>"));
}

#[test]
fn test_complete_format() {
    let input = r#"
# Title

<!-- comment -->

![Badge](https://img.shields.io/badge/test)

Text <br> here

{{% details title="Details" %}}
Content here
{{% /details %}}
"#;
    let output = format_mdx_complete(input);

    assert!(!output.contains("<!--"));
    assert!(!output.contains("shields.io"));
    assert!(output.contains("<br />"));
    assert!(output.contains("<Accordion"));
}

#[test]
fn cleanup_blank_lines_gives_the_exact_text() {
    assert_eq!(
        cleanup_blank_lines("line1\n\n\n\nline2\n\n\nline3\n\nline4\n"),
        "line1\n\nline2\n\nline3\n\nline4\n"
    );
}

#[test]
fn shortcode_on_one_line_keeps_title_and_content() {
    let input = r#"{{% details title="Test" %}}Content{{% /details %}}"#;
    assert_eq!(
        convert_hugo_shortcodes(input),
        "<Accordion title=\"Test\">\nContent\n</Accordion>"
    );
}

#[test]
fn shortcode_closing_behind_text_moves_to_its_own_line() {
    let input = "{{% details title=\"Q\" %}}\nfirst\nlast {{% /details %}}";
    assert_eq!(
        convert_hugo_shortcodes(input),
        "<Accordion title=\"Q\">\nfirst\nlast\n</Accordion>"
    );
}

#[test]
fn process_event_drops_a_badge_with_its_text() {
    let mut state = ProcessorState::new();
    let start = MdEvent::StartImage {
        dest_url: "https://img.shields.io/badge/x".to_string(),
        title: String::new(),
        id: String::new(),
    };
    assert_eq!(process_event(start, &mut state), None);
    assert!(state.in_image && state.skip_until_image_end);
    assert_eq!(state.current_image_url, "https://img.shields.io/badge/x");
    assert_eq!(process_event(MdEvent::Text("Badge".to_string()), &mut state), None);
    assert_eq!(process_event(MdEvent::Code("x".to_string()), &mut state), None);
    assert_eq!(process_event(MdEvent::EndImage, &mut state), None);
    assert!(!state.in_image && !state.skip_until_image_end);
    assert_eq!(
        process_event(MdEvent::Text("text".to_string()), &mut state),
        Some(MdEvent::Text("text".to_string()))
    );
}

#[test]
fn process_event_clears_the_identifier_of_an_image() {
    let mut state = ProcessorState::new();
    let start = MdEvent::StartImage {
        dest_url: "https://example.com/a.png".to_string(),
        title: "t".to_string(),
        id: "ref".to_string(),
    };
    assert_eq!(
        process_event(start, &mut state),
        Some(MdEvent::StartImage {
            dest_url: "https://example.com/a.png".to_string(),
            title: "t".to_string(),
            id: String::new(),
        })
    );
    assert!(state.in_image && !state.skip_until_image_end);
    assert_eq!(process_event(MdEvent::EndImage, &mut state), Some(MdEvent::EndImage));
}

#[test]
fn process_event_leaves_html_in_code_blocks_alone() {
    let mut state = ProcessorState::new();
    assert_eq!(
        process_event(MdEvent::Html("<br>".to_string()), &mut state),
        Some(MdEvent::Html("<br />".to_string()))
    );
    assert_eq!(
        process_event(MdEvent::StartCodeBlock, &mut state),
        Some(MdEvent::StartCodeBlock)
    );
    assert!(state.in_code_block);
    assert_eq!(
        process_event(MdEvent::InlineHtml("<br>".to_string()), &mut state),
        Some(MdEvent::InlineHtml("<br>".to_string()))
    );
    assert_eq!(
        process_event(MdEvent::Html("  <!-- c -->".to_string()), &mut state),
        Some(MdEvent::Html("  <!-- c -->".to_string()))
    );
    assert_eq!(
        process_event(MdEvent::Html("<!-- c -->".to_string()), &mut state),
        Some(MdEvent::Html("<!-- c -->".to_string()))
    );
    assert!(state.in_code_block && !state.in_image && !state.skip_until_image_end);
    assert_eq!(state.current_image_url, "");
    assert_eq!(process_event(MdEvent::EndCodeBlock, &mut state), Some(MdEvent::EndCodeBlock));
    assert!(!state.in_code_block);
    assert_eq!(
        process_event(MdEvent::Html("  <!-- c -->".to_string()), &mut state),
        None
    );
    assert_eq!(
        process_event(MdEvent::InlineHtml("<!-- c -->".to_string()), &mut state),
        None
    );
    assert_eq!(
        process_event(
            MdEvent::InlineHtml("<div style=\"text-align:center\"><tr> </tr><hr >".to_string()),
            &mut state
        ),
        Some(MdEvent::InlineHtml("<div style={{textAlign: \"center\"}}><hr />".to_string()))
    );
}

#[test]
fn process_events_filters_a_whole_sequence() {
    let events = vec![
        MdEvent::Other,
        MdEvent::StartImage {
            dest_url: "https://img.shields.io/b".to_string(),
            title: String::new(),
            id: String::new(),
        },
        MdEvent::Text("alt".to_string()),
        MdEvent::EndImage,
        MdEvent::InlineHtml("<!-- gone -->".to_string()),
        MdEvent::Text(" text".to_string()),
        MdEvent::Other,
    ];
    assert_eq!(
        process_events(events),
        vec![MdEvent::Other, MdEvent::Text(" text".to_string()), MdEvent::Other]
    );
}

#[test]
fn finish_formatting_escapes_wraps_and_collapses() {
    let input = "Math $a_{1}$\n\n\n\n<Accordion title=\"Q\">\nA\n</Accordion>\n";
    assert_eq!(
        finish_formatting(input),
        "Math $a_\\{1\\}$\n\n<Accordions>\n<Accordion title=\"Q\">\nA\n</Accordion>\n</Accordions>"
    );
}
