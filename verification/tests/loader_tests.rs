use fuma_rs::loader::{
    parse_repos_list, resolve_repo_id, select_grade_details, GradeVariants, GradesSummary,
    LookupTable, RepoMapping,
};
use fuma_rs::models::GradeDetail;

fn create_test_grade_detail(name: &str, percent: &str) -> GradeDetail {
    GradeDetail {
        name: name.to_string(),
        percent: Some(percent.to_string()),
    }
}

#[test]
fn test_select_grade_details_year_major_code() {
    let mut grades_summary = GradesSummary::new();
    let mut course_entry = GradeVariants::new();

    course_entry.insert(
        "2023_CS".to_string(),
        vec![create_test_grade_detail("Exam", "70%")],
    );
    course_entry.insert(
        "2023_default".to_string(),
        vec![create_test_grade_detail("Exam", "60%")],
    );
    course_entry.insert(
        "default".to_string(),
        vec![create_test_grade_detail("Exam", "50%")],
    );

    grades_summary.insert("MATH101".to_string(), course_entry);

    let result =
        select_grade_details(&grades_summary, "MATH101", "2023", "CS", "Computer Science");

    assert!(result.is_some());
    let details = result.unwrap();
    assert_eq!(details.len(), 1);
    assert_eq!(details[0].name, "Exam");
    assert_eq!(details[0].percent, Some("70%".to_string()));
}

#[test]
fn test_select_grade_details_year_major_name() {
    let mut grades_summary = GradesSummary::new();
    let mut course_entry = GradeVariants::new();

    course_entry.insert(
        "2023_Computer Science".to_string(),
        vec![create_test_grade_detail("Project", "80%")],
    );
    course_entry.insert(
        "default".to_string(),
        vec![create_test_grade_detail("Exam", "50%")],
    );

    grades_summary.insert("PROG202".to_string(), course_entry);

    let result =
        select_grade_details(&grades_summary, "PROG202", "2023", "CS", "Computer Science");

    assert!(result.is_some());
    let details = result.unwrap();
    assert_eq!(details.len(), 1);
    assert_eq!(details[0].name, "Project");
    assert_eq!(details[0].percent, Some("80%".to_string()));
}

#[test]
fn test_select_grade_details_year_default() {
    let mut grades_summary = GradesSummary::new();
    let mut course_entry = GradeVariants::new();

    course_entry.insert(
        "2023_default".to_string(),
        vec![create_test_grade_detail("Midterm", "40%")],
    );
    course_entry.insert(
        "default".to_string(),
        vec![create_test_grade_detail("Exam", "50%")],
    );

    grades_summary.insert("PHYS101".to_string(), course_entry);

    let result = select_grade_details(
        &grades_summary,
        "PHYS101",
        "2023",
        "EE",
        "Electrical Engineering",
    );

    assert!(result.is_some());
    let details = result.unwrap();
    assert_eq!(details.len(), 1);
    assert_eq!(details[0].name, "Midterm");
}

#[test]
fn test_select_grade_details_global_default() {
    let mut grades_summary = GradesSummary::new();
    let mut course_entry = GradeVariants::new();

    course_entry.insert(
        "default".to_string(),
        vec![create_test_grade_detail("Final", "100%")],
    );

    grades_summary.insert("CHEM101".to_string(), course_entry);

    let result = select_grade_details(
        &grades_summary,
        "CHEM101",
        "2024",
        "ME",
        "Mechanical Engineering",
    );

    assert!(result.is_some());
    let details = result.unwrap();
    assert_eq!(details.len(), 1);
    assert_eq!(details[0].name, "Final");
}

#[test]
fn test_select_grade_details_not_found() {
    let grades_summary = GradesSummary::new();

    let result =
        select_grade_details(&grades_summary, "UNKNOWN", "2023", "CS", "Computer Science");

    assert!(result.is_none());
}

#[test]
fn test_select_grade_details_empty_details() {
    let mut grades_summary = GradesSummary::new();
    let mut course_entry = GradeVariants::new();

    course_entry.insert("2023_CS".to_string(), vec![]);
    course_entry.insert(
        "default".to_string(),
        vec![create_test_grade_detail("Backup", "100%")],
    );

    grades_summary.insert("TEST101".to_string(), course_entry);

    let result =
        select_grade_details(&grades_summary, "TEST101", "2023", "CS", "Computer Science");

    // Should fallback to default since 2023_CS is empty
    assert!(result.is_some());
    let details = result.unwrap();
    assert_eq!(details[0].name, "Backup");
}

#[test]
fn test_resolve_repo_id_plan_specific() {
    let mut lookup_table = LookupTable::new();
    let mut mapping = RepoMapping::new();
    mapping.insert("PLAN_A".to_string(), "REPO_A".to_string());
    mapping.insert("DEFAULT".to_string(), "REPO_DEFAULT".to_string());
    lookup_table.insert("COURSE1".to_string(), mapping);

    let repo_id = resolve_repo_id(&lookup_table, "COURSE1", "PLAN_A");
    assert_eq!(repo_id, "REPO_A");
}

#[test]
fn test_resolve_repo_id_default_fallback() {
    let mut lookup_table = LookupTable::new();
    let mut mapping = RepoMapping::new();
    mapping.insert("DEFAULT".to_string(), "REPO_DEFAULT".to_string());
    lookup_table.insert("COURSE1".to_string(), mapping);

    let repo_id = resolve_repo_id(&lookup_table, "COURSE1", "PLAN_B");
    assert_eq!(repo_id, "REPO_DEFAULT");
}

#[test]
fn test_resolve_repo_id_identity_fallback() {
    let lookup_table = LookupTable::new();

    let repo_id = resolve_repo_id(&lookup_table, "COURSE1", "PLAN_A");
    assert_eq!(repo_id, "COURSE1");
}

#[test]
fn resolve_repo_id_trims_and_passes_over_a_blank_repository() {
    let mut lookup_table = LookupTable::new();
    let mut mapping = RepoMapping::new();
    mapping.insert("PLAN_A".to_string(), "  REPO_A \n".to_string());
    mapping.insert("default".to_string(), "   ".to_string());
    lookup_table.insert("COURSE1".to_string(), mapping);

    assert_eq!(resolve_repo_id(&lookup_table, "COURSE1", "PLAN_A"), "REPO_A");
    assert_eq!(resolve_repo_id(&lookup_table, "COURSE1", "PLAN_B"), "COURSE1");
    assert_eq!(resolve_repo_id(&lookup_table, "COURSE2", "PLAN_A"), "COURSE2");
}

#[test]
fn parse_repos_list_trims_lines_and_drops_blank_ones() {
    let result = parse_repos_list("MATH101\nPHYS201\n  CHEM301  \n\nCS401\n");
    assert_eq!(result.len(), 4);
    assert!(result.contains("MATH101"));
    assert!(result.contains("PHYS201"));
    assert!(result.contains("CHEM301"));
    assert!(result.contains("CS401"));
    assert!(parse_repos_list("").is_empty());
}
