//! The line and character scanners against plain implementations over the
//! standard library's string functions.

use fuma_rs::format::regex::{escape_curly_braces_in_math, wrap_accordions_in_container};
use fuma_rs::formatter::remove_shield_badges;
use fuma_rs::generator::title_from_mdx;
use fuma_rs::special_categories::extract_title_from_mdx;

fn compose(pieces: &[&str], count: usize, seed: u64) -> Vec<String> {
    let mut out: Vec<String> = Vec::new();
    for a in pieces.iter() {
        out.push(a.to_string());
        for b in pieces.iter() {
            out.push(format!("{}{}", a, b));
        }
    }
    let mut state = seed;
    for _ in 0..count {
        let mut s = String::new();
        state ^= state << 13;
        state ^= state >> 7;
        state ^= state << 17;
        let n = 2 + (state % 9) as usize;
        for _ in 0..n {
            state ^= state << 13;
            state ^= state >> 7;
            state ^= state << 17;
            s.push_str(pieces[(state % pieces.len() as u64) as usize]);
        }
        out.push(s);
    }
    out
}

fn escape_plain(content: &str) -> String {
    let mut result = String::new();
    let chars: Vec<char> = content.chars().collect();
    let mut i = 0;
    while i < chars.len() {
        if chars[i] == '$' {
            let is_display = i + 1 < chars.len() && chars[i + 1] == '$';
            let delimiter_len = if is_display { 2 } else { 1 };
            let mut j = i + delimiter_len;
            let mut found_close = false;
            while j < chars.len() {
                if chars[j] == '$' {
                    if is_display && j + 1 < chars.len() && chars[j + 1] == '$' {
                        found_close = true;
                        break;
                    } else if !is_display {
                        found_close = true;
                        break;
                    }
                }
                j += 1;
            }
            if found_close {
                for _ in 0..delimiter_len {
                    result.push('$');
                }
                for k in (i + delimiter_len)..j {
                    if (chars[k] == '{' || chars[k] == '}') && (k == 0 || chars[k - 1] != '\\') {
                        result.push('\\');
                    }
                    result.push(chars[k]);
                }
                for _ in 0..delimiter_len {
                    result.push('$');
                }
                i = j + delimiter_len;
                continue;
            }
        }
        result.push(chars[i]);
        i += 1;
    }
    result
}

fn wrap_plain(content: &str) -> String {
    let lines: Vec<&str> = content.lines().collect();
    let mut result = Vec::new();
    let mut in_sequence = false;
    let mut buffer = Vec::new();
    let mut depth = 0;
    for (i, line) in lines.iter().enumerate() {
        if line.contains("<Accordion ") && !in_sequence {
            in_sequence = true;
            buffer.push(line.to_string());
            depth = 1;
        } else if in_sequence {
            buffer.push(line.to_string());
            if line.contains("<Accordion ") {
                depth += 1;
            }
            if line.contains("</Accordion>") {
                depth -= 1;
            }
            if depth == 0 {
                let mut next_is_accordion = false;
                for next_line in lines.iter().skip(i + 1) {
                    let next_line = next_line.trim();
                    if next_line.is_empty() {
                        continue;
                    }
                    if next_line.contains("<Accordion ") {
                        next_is_accordion = true;
                    }
                    break;
                }
                if !next_is_accordion {
                    result.push("<Accordions>".to_string());
                    result.append(&mut buffer);
                    result.push("</Accordions>".to_string());
                    in_sequence = false;
                }
            }
        } else {
            result.push(line.to_string());
        }
    }
    if !buffer.is_empty() {
        result.push("<Accordions>".to_string());
        result.extend(buffer);
        result.push("</Accordions>".to_string());
    }
    result.join("\n")
}

fn title_plain(mdx_content: &str, fallback: &str) -> String {
    let lines: Vec<&str> = mdx_content.lines().collect();
    for line in lines.iter().take(5) {
        let trimmed = line.trim();
        if trimmed.is_empty() || trimmed == "---" {
            continue;
        }
        let raw = if let Some(t) = trimmed.strip_prefix("title:") {
            t.trim().trim_matches('"').trim_matches('\'').to_string()
        } else {
            trimmed.to_string()
        };
        let raw = raw.trim_start_matches("# ").trim();
        return if let Some(rest) = raw.split_once(" - ") {
            rest.1.trim().to_string()
        } else {
            raw.to_string()
        };
    }
    fallback.to_string()
}

fn heading_plain(content: &str) -> String {
    content
        .lines()
        .find(|line| line.starts_with("# "))
        .map(|line| line.trim_start_matches("# ").trim().to_string())
        .unwrap_or_else(|| "Untitled".to_string())
}

#[test]
fn math_escaping_agrees_with_the_plain_scan() {
    let pieces = ["$", "$$", "{", "}", "\\", "x", " ", "\n", "\\{", "{}", "$x$", "é"];
    for s in compose(&pieces, 6000, 0x9E3779B97F4A7C15) {
        assert_eq!(escape_curly_braces_in_math(&s), escape_plain(&s), "input {:?}", s);
    }
}

#[test]
fn accordion_wrapping_agrees_with_the_plain_scan() {
    let pieces = [
        "<Accordion title=\"a\">", "</Accordion>", "\n", "\n\n", " ", "text", "<Accordion ",
        "<Accordion>", "\r\n", "</Accordion>\n", "  <Accordion title=\"b\">\n", "\u{3000}",
        "<Accordions>",
    ];
    for s in compose(&pieces, 6000, 0xD1B54A32D192ED03) {
        assert_eq!(wrap_accordions_in_container(&s), wrap_plain(&s), "input {:?}", s);
    }
}

#[test]
fn badge_lines_agree_with_the_plain_filter() {
    let pieces = ["https://img.shields.io", "\n", "x", "![b](", ")", "\r\n", "https://img.shields.i", "o"];
    for s in compose(&pieces, 2000, 0x2545F4914F6CDD1D) {
        let expected: String = s
            .split('\n')
            .filter(|&line| !line.contains("https://img.shields.io"))
            .collect::<Vec<_>>()
            .join("\n");
        assert_eq!(remove_shield_badges(&s), expected, "input {:?}", s);
    }
}

#[test]
fn titles_agree_with_the_plain_scan() {
    let pieces = [
        "# ", "title:", "---", "\n", " ", "\"", "'", " - ", "Name", "#", "A - B", "\r\n", "-", "", "\t",
    ];
    for s in compose(&pieces, 6000, 0xA0761D6478BD642F) {
        assert_eq!(title_from_mdx(&s, "fallback"), title_plain(&s, "fallback"), "input {:?}", s);
        assert_eq!(extract_title_from_mdx(&s), heading_plain(&s), "input {:?}", s);
    }
}

#[test]
fn accordions_without_a_line_between_them_share_one_container() {
    let input = "<Accordion title=\"Q1\">\nA1\n</Accordion>\n<Accordion title=\"Q2\">\nA2\n</Accordion>";
    let output = wrap_accordions_in_container(input);
    assert_eq!(
        output,
        "<Accordions>\n<Accordion title=\"Q1\">\nA1\n</Accordion>\n<Accordion title=\"Q2\">\nA2\n</Accordion>\n</Accordions>"
    );
}
