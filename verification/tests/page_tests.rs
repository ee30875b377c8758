use fuma_rs::fetcher::{bearer, build_contents_url, decode_content, token_from_output, ContentError};
use fuma_rs::generator::{
    build_cards_page, build_course_page, build_files_section, build_frontmatter, docs_href,
    minimal_course, ordered_semester_folders, skip_lines, title_from_mdx,
};
use fuma_rs::loader::parse_repos_list;
use fuma_rs::models::{Course, Frontmatter, GradeDetail, HourDistribution};
use fuma_rs::special_categories::{extract_title_from_mdx, special_categories};

#[test]
fn test_extract_title_from_mdx() {
    let content = "# Hello World\n\nSome content here.";
    assert_eq!(extract_title_from_mdx(content), "Hello World");

    let content_no_title = "Some content without title.";
    assert_eq!(extract_title_from_mdx(content_no_title), "Untitled");

    let content_with_whitespace = "#   Title With Spaces   \nContent.";
    assert_eq!(extract_title_from_mdx(content_with_whitespace), "Title With Spaces");
}

#[test]
fn title_from_mdx_reads_the_head_of_a_document() {
    assert_eq!(title_from_mdx("# CODE - Name of Course\n\ntext", "X"), "Name of Course");
    assert_eq!(title_from_mdx("---\ntitle: \"Quoted\"\n---\n", "X"), "Quoted");
    assert_eq!(title_from_mdx("\n\n  # # Plain  \n", "X"), "Plain");
    assert_eq!(title_from_mdx("title: 'A - B - C'", "X"), "B - C");
    assert_eq!(title_from_mdx("\n\n\n\n\n# Sixth line", "X"), "X");
    assert_eq!(title_from_mdx("", "fallback"), "fallback");
}

#[test]
fn build_frontmatter_fills_defaults_and_drops_weightless_parts() {
    let course = Course {
        repo_id: "MATH101".to_string(),
        name: "Math".to_string(),
        credit: Some(3),
        assessment_method: Some("Exam".to_string()),
        course_nature: None,
        recommended_semester: None,
        hours: Some(HourDistribution {
            theory: Some(48),
            lab: None,
            practice: Some(2),
            exercise: None,
            computer: None,
            tutoring: None,
        }),
        grade_details: Some(vec![
            GradeDetail { name: "Final".to_string(), percent: Some("70%".to_string()) },
            GradeDetail { name: "None".to_string(), percent: None },
            GradeDetail { name: "Zero".to_string(), percent: Some("0%".to_string()) },
            GradeDetail { name: "Bad".to_string(), percent: Some("3 0%".to_string()) },
            GradeDetail { name: "Plus".to_string(), percent: Some("+30%%".to_string()) },
            GradeDetail { name: "Huge".to_string(), percent: Some("4294967296".to_string()) },
            GradeDetail { name: "Max".to_string(), percent: Some("4294967295".to_string()) },
        ]),
    };
    let fm = build_frontmatter("Math", &course);
    assert_eq!(fm.title, "Math");
    assert_eq!(fm.description, "");
    assert_eq!(fm.course.credit, 3);
    assert_eq!(fm.course.assessment_method, "Exam");
    assert_eq!(fm.course.course_nature, "");
    assert_eq!(fm.course.hour_distribution.theory, 48);
    assert_eq!(fm.course.hour_distribution.lab, 0);
    assert_eq!(fm.course.hour_distribution.practice, 2);
    let scheme: Vec<(String, u32)> = fm
        .course
        .grading_scheme
        .iter()
        .map(|g| (g.name.clone(), g.percent))
        .collect();
    assert_eq!(
        scheme,
        vec![
            ("Final".to_string(), 70),
            ("Plus".to_string(), 30),
            ("Max".to_string(), 4294967295)
        ]
    );
}

#[test]
fn percent_parsing_agrees_with_the_standard_parser() {
    for text in [
        "", "+", "-", "0", "7", "+7", "-7", "007", "70%", "70%%", "%", " 7", "7 ", "4294967295",
        "4294967296", "99999999999999999999", "１２", "1e3", "+0",
    ] {
        let course = minimal_course(
            "R",
            "N",
            Some(vec![GradeDetail { name: "p".to_string(), percent: Some(text.to_string()) }]),
        );
        let expected = text.trim_end_matches('%').parse::<u32>().unwrap_or(0);
        let fm = build_frontmatter("t", &course);
        let got = fm.course.grading_scheme.first().map(|g| g.percent).unwrap_or(0);
        assert_eq!(got, expected, "text {:?}", text);
    }
}

#[test]
fn special_frontmatter_has_no_credit_and_no_hours() {
    let fm = fuma_rs::special_categories::build_frontmatter(
        "Overview",
        "MOOC",
        Some(vec![
            ("Exam".to_string(), "60%".to_string()),
            ("Skip".to_string(), "x".to_string()),
        ]),
    );
    assert_eq!(fm.title, "Overview");
    assert_eq!(fm.course.credit, 0);
    assert_eq!(fm.course.hour_distribution.theory, 0);
    assert_eq!(fm.course.grading_scheme.len(), 1);
    assert_eq!(fm.course.grading_scheme[0].name, "Exam");
    assert_eq!(fm.course.grading_scheme[0].percent, 60);
    let none = fuma_rs::special_categories::build_frontmatter("T", "R", None);
    assert!(none.course.grading_scheme.is_empty());
}

#[test]
fn special_categories_are_the_two_fixed_ones() {
    let all = special_categories();
    assert_eq!(all.len(), 2);
    assert_eq!(all[0].id, "cross-specialty");
    assert_eq!(all[0].title, "跨专业选修");
    assert_eq!(
        all[0].repos,
        vec!["CrossSpecialty", "CHEM1012", "COMP3043", "ECON2005F", "SPST1004"]
    );
    assert_eq!(all[1].id, "general-knowledge");
    assert_eq!(all[1].title, "文理通识与 MOOC");
    assert_eq!(
        all[1].repos,
        vec!["GeneralKnowledge", "MOOC", "SEIN1040", "WOCD1008", "WRIT0001"]
    );
}

#[test]
fn frame_yaml_puts_the_text_between_rules() {
    assert_eq!(Frontmatter::frame_yaml(Some("title: T\n")), "---\ntitle: T\n---");
    assert_eq!(
        Frontmatter::frame_yaml(None),
        "---\ntitle: ''\ndescription: ''\n---"
    );
}

#[test]
fn page_texts_are_put_together_exactly() {
    assert_eq!(skip_lines("# T\n\nbody\nmore\n", 2), "body\nmore");
    assert_eq!(skip_lines("one", 2), "");
    assert_eq!(
        build_files_section("R1", "  <File name=\"a\" />"),
        "\n\n## 资源下载\n\n<Files url=\"https://open.osa.moe/openauto/R1\">\n  <File name=\"a\" />\n</Files>"
    );
    assert_eq!(
        build_course_page("---\n---", "body", "\nfiles", true),
        "---\n---\n\n<CourseInfo />\n\nbody\nfiles"
    );
    assert_eq!(build_course_page("---\n---", "body", "", false), "---\n---\n\nbody");
    assert_eq!(docs_href(&vec!["2023", "CS", "fresh-autumn", "MATH101"]), "/docs/2023/CS/fresh-autumn/MATH101");
    assert_eq!(docs_href(&vec![]), "/docs");
    assert_eq!(
        build_cards_page(
            "目录",
            &vec![
                ("大一·秋".to_string(), "/docs/2023/CS/fresh-autumn".to_string()),
                ("B".to_string(), "/b".to_string())
            ]
        ),
        "---\ntitle: 目录\n---\n\n<Cards>\n  <Card title=\"大一·秋\" href=\"/docs/2023/CS/fresh-autumn\" />\n  <Card title=\"B\" href=\"/b\" />\n</Cards>"
    );
    assert_eq!(
        build_cards_page("T", &vec![]),
        "---\ntitle: T\n---\n\n<Cards>\n</Cards>"
    );
}

#[test]
fn semester_folders_come_in_the_order_of_the_table() {
    let present = parse_repos_list("senior-summer\nfresh-spring\nunknown\nfresh-autumn");
    assert_eq!(
        ordered_semester_folders(&present),
        vec!["fresh-autumn", "fresh-spring", "senior-summer"]
    );
}

#[test]
fn fetcher_addresses_and_header() {
    assert_eq!(
        build_contents_url("ORG", "REPO", "README.md", None),
        "https://api.github.com/repos/ORG/REPO/contents/README.md"
    );
    assert_eq!(
        build_contents_url("ORG", "REPO", "worktree.json", Some("worktree")),
        "https://api.github.com/repos/ORG/REPO/contents/worktree.json?ref=worktree"
    );
    assert_eq!(bearer("abc"), "Bearer abc");
    assert_eq!(token_from_output(" tok \n"), Some("tok".to_string()));
    assert_eq!(token_from_output(" \n"), None);
}

#[test]
fn decode_content_reads_base64_and_plain_text() {
    assert_eq!(
        decode_content("aGVsbG8g\nd29ybGQ=\n", "base64"),
        Ok("hello world".to_string())
    );
    assert_eq!(decode_content("5L2c5Lia", "base64"), Ok("作业".to_string()));
    assert_eq!(decode_content("aGVsbG8g\nd29ybGQ=\n", "utf-8"), Ok("aGVsbG8g\nd29ybGQ=\n".to_string()));
    assert!(matches!(
        decode_content("not base64!", "base64"),
        Err(ContentError::NotBase64(_))
    ));
    assert!(matches!(decode_content("/w==", "base64"), Err(ContentError::NotUtf8(_))));
    assert_eq!(decode_content("", "base64"), Ok(String::new()));
}
