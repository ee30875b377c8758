use fuma_rs::constants::{
    get_semester_folder, get_semester_title_by_folder, parse_semester_folders, semester_mapping,
    should_include_file,
};

#[test]
fn test_get_semester_folder_valid() {
    let result = get_semester_folder("第一学年秋季");
    assert_eq!(result, Some(("fresh-autumn", "大一·秋")));

    let result = get_semester_folder("第二学年春季");
    assert_eq!(result, Some(("sophomore-spring", "大二·春")));

    let result = get_semester_folder("第四学年夏季");
    assert_eq!(result, Some(("senior-summer", "大四·夏")));

    let result = get_semester_folder("第五学年春季");
    assert_eq!(result, Some(("fifth-spring", "大五·春")));
}

#[test]
fn test_get_semester_folder_invalid() {
    let result = get_semester_folder("第六学年秋季");
    assert_eq!(result, None);

    let result = get_semester_folder("invalid");
    assert_eq!(result, None);

    let result = get_semester_folder("");
    assert_eq!(result, None);
}

#[test]
fn test_parse_semester_folders_single() {
    let result = parse_semester_folders("第二学年夏季");
    assert_eq!(result, vec![("sophomore-summer", "大二·夏")]);
}

#[test]
fn test_parse_semester_folders_multiple() {
    let result = parse_semester_folders("第三学年秋季,第四学年秋季");
    assert_eq!(
        result,
        vec![("junior-autumn", "大三·秋"), ("senior-autumn", "大四·秋")]
    );
}

#[test]
fn test_parse_semester_folders_dedup_and_invalid() {
    let result = parse_semester_folders("第三学年秋季，第三学年秋季，未知学期");
    assert_eq!(result, vec![("junior-autumn", "大三·秋")]);
}

#[test]
fn test_get_semester_title_by_folder() {
    assert_eq!(
        get_semester_title_by_folder("fresh-summer"),
        Some("大一·夏")
    );
    assert_eq!(
        get_semester_title_by_folder("fifth-autumn"),
        Some("大五·秋")
    );
    assert_eq!(get_semester_title_by_folder("unknown"), None);
}

#[test]
fn test_should_include_file_excluded_patterns() {
    assert!(!should_include_file(".gitkeep"));
    assert!(!should_include_file("README.md"));
    assert!(!should_include_file("LICENSE"));
    assert!(!should_include_file("tag.txt"));
    assert!(!should_include_file("folder/.gitkeep"));
    assert!(!should_include_file("docs/README.md"));
}

#[test]
fn test_should_include_file_excluded_extensions() {
    assert!(!should_include_file("config.toml"));
    assert!(!should_include_file("folder/settings.toml"));
    assert!(!should_include_file("path/to/file.toml"));
}

#[test]
fn test_should_include_file_excluded_prefixes() {
    assert!(!should_include_file(".github/workflows/ci.yml"));
    assert!(!should_include_file(".github/ISSUE_TEMPLATE.md"));
}

#[test]
fn test_should_include_file_valid_files() {
    assert!(should_include_file("notes.pdf"));
    assert!(should_include_file("lecture.pptx"));
    assert!(should_include_file("folder/document.docx"));
    assert!(should_include_file("path/to/file.txt"));
    assert!(should_include_file("code.py"));
    assert!(should_include_file("assignment.md"));
}

#[test]
fn test_should_include_file_edge_cases() {
    assert!(should_include_file("readme.txt")); // Not exactly README.md
    assert!(should_include_file("my.toml.txt")); // Doesn't end with .toml
    assert!(should_include_file("github/file.txt")); // Not .github prefix
    assert!(!should_include_file(".github/file.txt")); // Is .github prefix
}

#[test]
fn test_semester_mapping_complete() {
    // Ensure all 15 semesters (5 academic years x 3 seasons) are mapped
    let mapping = semester_mapping();
    assert_eq!(mapping.len(), 15);

    // Check uniqueness of folders
    let mut folders = std::collections::HashSet::new();
    for (_, folder, _) in &mapping {
        assert!(folders.insert(folder), "Duplicate folder: {}", folder);
    }

    // Check uniqueness of titles
    let mut titles = std::collections::HashSet::new();
    for (_, _, title) in &mapping {
        assert!(titles.insert(title), "Duplicate title: {}", title);
    }
}

#[test]
fn should_include_file_accepts_the_empty_path() {
    assert!(should_include_file(""));
}

#[test]
fn should_include_file_gives_the_same_answer_each_time() {
    for path in ["", "a/b.toml", ".github/x", "notes.pdf", "x/LICENSE"] {
        assert_eq!(should_include_file(path), should_include_file(path));
    }
}

#[test]
fn parse_semester_folders_takes_the_ideographic_comma_and_trims() {
    let result = parse_semester_folders(" 第一学年秋季 、第一学年春季,, ");
    assert_eq!(
        result,
        vec![("fresh-autumn", "大一·秋"), ("fresh-spring", "大一·春")]
    );
    assert_eq!(parse_semester_folders(""), vec![]);
}
