//! The scanners of the library against the regular expressions that they
//! stand for.

use fuma_rs::format::ast::{cleanup_blank_lines, convert_hugo_shortcodes};
use fuma_rs::formatter::{
    convert_style_to_jsx, fix_malformed_html, fix_self_closing_tags, remove_html_comments,
};
use regex::Regex;

fn samples() -> Vec<String> {
    let pieces = [
        "", " ", "\n", "\n\n", "\n\n\n", "a", "<br>", "<br >", "<br\n>", "<hr\t >", "<br", "<tr>",
        "</tr>", "</table>", "<tr> \n </tr>", "<tr></table>", "<!--", "-->", "<!-->", "<!---->",
        "style=\"", "\"", "color:red", ";", "text-align : center", "a-b-c:d", ":", "-",
        "{{% details title=\"", "T", "\" %}}", "\"%}}", "\" open%", "}}", "%", "{{% /details %}}",
        "body", " x ", "\u{3000}", "\r", "é", "{", "% ",
    ];
    let mut out: Vec<String> = Vec::new();
    for a in pieces.iter() {
        out.push(a.to_string());
        for b in pieces.iter() {
            out.push(format!("{}{}", a, b));
        }
    }
    let mut seed: u64 = 0x2545F4914F6CDD1D;
    for _ in 0..4000 {
        let mut s = String::new();
        seed ^= seed << 13;
        seed ^= seed >> 7;
        seed ^= seed << 17;
        let n = 2 + (seed % 7) as usize;
        for _ in 0..n {
            seed ^= seed << 13;
            seed ^= seed >> 7;
            seed ^= seed << 17;
            s.push_str(pieces[(seed % pieces.len() as u64) as usize]);
        }
        out.push(s);
    }
    out
}

fn hugo_by_regex(content: &str) -> String {
    let mut result = content.to_string();
    let re_single = Regex::new(
        r#"\{\{% details title="([^"]*)"[^%]*%\}\}\s*(.+?)\s*\{\{% /details %\}\}"#,
    )
    .unwrap();
    result = re_single
        .replace_all(&result, "<Accordion title=\"$1\">\n$2\n</Accordion>")
        .to_string();
    let re_open = Regex::new(r#"\{\{% details title="([^"]*)"[^%]*%\}\}"#).unwrap();
    result = re_open
        .replace_all(&result, r#"<Accordion title="$1">"#)
        .to_string();
    let re_closing = Regex::new(r#"([^\n])\s*\{\{% /details %\}\}"#).unwrap();
    result = re_closing
        .replace_all(&result, "$1\n</Accordion>")
        .to_string();
    result.replace("{{% /details %}}", "</Accordion>")
}

#[test]
fn shortcodes_agree_with_the_patterns() {
    for s in samples() {
        assert_eq!(convert_hugo_shortcodes(&s), hugo_by_regex(&s), "input {:?}", s);
    }
}

#[test]
fn comments_agree_with_the_pattern() {
    let re = Regex::new(r"<!--[\s\S]*?-->").unwrap();
    for s in samples() {
        assert_eq!(remove_html_comments(&s), re.replace_all(&s, "").to_string(), "input {:?}", s);
    }
}

#[test]
fn self_closing_agrees_with_the_patterns() {
    let re_br = Regex::new(r"<br\s*>").unwrap();
    let re_hr = Regex::new(r"<hr\s*>").unwrap();
    for s in samples() {
        let step = re_br.replace_all(&s, "<br />").to_string();
        let expected = re_hr.replace_all(&step, "<hr />").to_string();
        assert_eq!(fix_self_closing_tags(&s), expected, "input {:?}", s);
    }
}

#[test]
fn table_repair_agrees_with_the_patterns() {
    let re_tr_table = Regex::new(r"<tr>\s*</table>").unwrap();
    let re_empty_tr = Regex::new(r"<tr>\s*</tr>").unwrap();
    for s in samples() {
        let step = re_tr_table.replace_all(&s, "</table>").to_string();
        let expected = re_empty_tr.replace_all(&step, "").to_string();
        assert_eq!(fix_malformed_html(&s), expected, "input {:?}", s);
    }
}

#[test]
fn blank_lines_agree_with_the_pattern() {
    let re = Regex::new(r"\n{3,}").unwrap();
    for s in samples() {
        assert_eq!(cleanup_blank_lines(&s), re.replace_all(&s, "\n\n").to_string(), "input {:?}", s);
    }
}

fn camel_by_std(prop: &str) -> String {
    let parts: Vec<&str> = prop.trim().split('-').collect();
    let mut result = parts[0].to_string();
    for part in &parts[1..] {
        let mut chars = part.chars();
        if let Some(first) = chars.next() {
            result.push(first.to_uppercase().next().unwrap());
            result.push_str(chars.as_str());
        }
    }
    result
}

fn style_by_regex(content: &str) -> String {
    let re = Regex::new(r#"style="([^"]*)""#).unwrap();
    re.replace_all(content, |caps: &regex::Captures| {
        let style_str = &caps[1];
        let mut jsx_props = Vec::new();
        for prop in style_str.split(';') {
            let prop = prop.trim();
            if prop.is_empty() || !prop.contains(':') {
                continue;
            }
            let parts: Vec<&str> = prop.splitn(2, ':').collect();
            if parts.len() == 2 {
                let name = camel_by_std(parts[0].trim());
                let value = parts[1].trim();
                jsx_props.push(format!("{}: \"{}\"", name, value));
            }
        }
        if jsx_props.is_empty() {
            String::new()
        } else {
            format!("style={{{{{}}}}}", jsx_props.join(", "))
        }
    })
    .to_string()
}

#[test]
fn styles_agree_with_the_pattern() {
    for s in samples() {
        assert_eq!(convert_style_to_jsx(&s), style_by_regex(&s), "input {:?}", s);
    }
    for s in [
        "<p style=\"font-size:12px\">",
        "style=\" a-b : c:d ; -x:1; é-ß:2;;:\"",
        "style=\"-\" style=\"--a: b\"",
    ] {
        assert_eq!(convert_style_to_jsx(s), style_by_regex(s), "input {:?}", s);
    }
}
