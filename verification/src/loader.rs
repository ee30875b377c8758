//! Choosing among loaded data: the repository of a course by the lookup
//! table, the grade parts of a course by year and major, and the list of
//! repositories.

use crate::models::{clone_details, details_view, GradeDetail, GradeDetailView, SharedCategory};
use crate::text::{append_str, from_chars, lines, lines_exec, rows, to_chars, trim, trim_exec};
use vstd::hash_map::StringHashMap;
use vstd::hash_set::StringHashSet;
use vstd::prelude::*;

verus! {

/// The repositories of one course code, by plan identifier.
pub type RepoMapping = StringHashMap<String>;

/// Lookup table from course code to repository, with overrides by plan.
pub type LookupTable = StringHashMap<RepoMapping>;

/// The grade parts of one course, by plan variant.
pub type GradeVariants = StringHashMap<Vec<GradeDetail>>;

/// Grade parts of all courses, by course code and plan variant.
pub type GradesSummary = StringHashMap<GradeVariants>;

/// A set of repository names.
pub type RepoSet = StringHashSet;

/// The shared categories, and the repositories whose pages are index pages
/// and show no course information.
pub struct SharedCategoriesConfig {
    pub categories: Vec<SharedCategory>,
    pub no_course_info_repo_ids: RepoSet,
}

/// The repository that a mapping gives for a plan: that of the plan itself,
/// else that under `DEFAULT`, else that under `default`.
pub open spec fn mapped_repo(mapping: Map<Seq<char>, String>, plan_id: Seq<char>) -> Option<
    Seq<char>,
> {
    if mapping.contains_key(plan_id) {
        Some(mapping[plan_id]@)
    } else if mapping.contains_key("DEFAULT"@) {
        Some(mapping["DEFAULT"@]@)
    } else if mapping.contains_key("default"@) {
        Some(mapping["default"@]@)
    } else {
        None
    }
}

/// The repository of a course: what the table maps its code to for the
/// plan, trimmed, unless that is missing or blank; then the code itself.
pub open spec fn resolved_repo(
    table: Map<Seq<char>, RepoMapping>,
    course_code: Seq<char>,
    plan_id: Seq<char>,
) -> Seq<char> {
    if table.contains_key(course_code) {
        match mapped_repo(table[course_code]@, plan_id) {
            Some(repo) => if trim(repo).len() > 0 {
                trim(repo)
            } else {
                course_code
            },
            None => course_code,
        }
    } else {
        course_code
    }
}

/// Resolve the repository ID for a course code by the lookup table.
pub fn resolve_repo_id(lookup_table: &LookupTable, course_code: &str, plan_id: &str) -> (r: String)
    ensures
        r@ == resolved_repo(lookup_table@, course_code@, plan_id@),
{
    let found = match lookup_table.get(course_code) {
        Some(mapping) => match mapping.get(plan_id) {
            Some(repo) => Some(repo),
            None => match mapping.get("DEFAULT") {
                Some(repo) => Some(repo),
                None => mapping.get("default"),
            },
        },
        None => None,
    };
    match found {
        Some(repo) => {
            let trimmed = trim_exec(&to_chars(repo.as_str()));
            if trimmed.len() > 0 {
                from_chars(&trimmed)
            } else {
                from_chars(&to_chars(course_code))
            }
        },
        None => from_chars(&to_chars(course_code)),
    }
}

/// The key of a plan variant: the year, an underscore, and the rest.
pub open spec fn variant_key(year: Seq<char>, rest: Seq<char>) -> Seq<char> {
    year + "_"@ + rest
}

/// The variant is there and has grade parts.
pub open spec fn usable(entry: Map<Seq<char>, Vec<GradeDetail>>, key: Seq<char>) -> bool {
    entry.contains_key(key) && entry[key]@.len() > 0
}

/// The variant that is chosen for a plan: the first usable one among the
/// year with the major's code, the year with the major's name, the year's
/// default, and the general default.
pub open spec fn chosen_variant(
    entry: Map<Seq<char>, Vec<GradeDetail>>,
    year: Seq<char>,
    major_code: Seq<char>,
    major_name: Seq<char>,
) -> Option<Seq<char>> {
    if usable(entry, variant_key(year, major_code)) {
        Some(variant_key(year, major_code))
    } else if usable(entry, variant_key(year, major_name)) {
        Some(variant_key(year, major_name))
    } else if usable(entry, variant_key(year, "default"@)) {
        Some(variant_key(year, "default"@))
    } else if usable(entry, "default"@) {
        Some("default"@)
    } else {
        None
    }
}

/// The grade parts of a course for a plan, if the summary has any.
pub open spec fn grade_details_of(
    summary: Map<Seq<char>, GradeVariants>,
    course_code: Seq<char>,
    year: Seq<char>,
    major_code: Seq<char>,
    major_name: Seq<char>,
) -> Option<Seq<GradeDetailView>> {
    if summary.contains_key(course_code) {
        let entry = summary[course_code]@;
        match chosen_variant(entry, year, major_code, major_name) {
            Some(key) => Some(details_view(entry[key]@)),
            None => None,
        }
    } else {
        None
    }
}

/// View of grade parts that may be missing.
pub open spec fn optional_details_view(d: Option<Vec<GradeDetail>>) -> Option<Seq<GradeDetailView>> {
    match d {
        Some(v) => Some(details_view(v@)),
        None => None,
    }
}

fn variant_key_text(year: &str, rest: &str) -> (r: String)
    ensures
        r@ == variant_key(year@, rest@),
{
    let mut key = to_chars(year);
    append_str(&mut key, "_");
    append_str(&mut key, rest);
    from_chars(&key)
}

fn usable_details<'a>(entry: &'a GradeVariants, key: &str) -> (r: Option<&'a Vec<GradeDetail>>)
    ensures
        match r {
            Some(v) => usable(entry@, key@) && *v == entry@[key@],
            None => !usable(entry@, key@),
        },
{
    match entry.get(key) {
        Some(details) => if details.len() > 0 {
            Some(details)
        } else {
            None
        },
        None => None,
    }
}

/// Select grade details for a course by hierarchical matching rules.
pub fn select_grade_details(
    grades_summary: &GradesSummary,
    course_code: &str,
    year: &str,
    major_code: &str,
    major_name: &str,
) -> (r: Option<Vec<GradeDetail>>)
    ensures
        optional_details_view(r) == grade_details_of(
            grades_summary@,
            course_code@,
            year@,
            major_code@,
            major_name@,
        ),
{
    let entry = match grades_summary.get(course_code) {
        Some(entry) => entry,
        None => {
            return None;
        },
    };
    match usable_details(entry, variant_key_text(year, major_code).as_str()) {
        Some(details) => {
            return Some(clone_details(details));
        },
        None => {},
    }
    match usable_details(entry, variant_key_text(year, major_name).as_str()) {
        Some(details) => {
            return Some(clone_details(details));
        },
        None => {},
    }
    match usable_details(entry, variant_key_text(year, "default").as_str()) {
        Some(details) => {
            return Some(clone_details(details));
        },
        None => {},
    }
    match usable_details(entry, "default") {
        Some(details) => Some(clone_details(details)),
        None => None,
    }
}

/// The names that the first `n` lines of a repository list give: each line
/// trimmed, blank lines left out.
pub open spec fn listed_repos(lines: Seq<Seq<char>>, n: int) -> Set<Seq<char>>
    decreases n,
{
    if n <= 0 || n > lines.len() {
        Set::empty()
    } else if trim(lines[n - 1]).len() == 0 {
        listed_repos(lines, n - 1)
    } else {
        listed_repos(lines, n - 1).insert(trim(lines[n - 1]))
    }
}

/// The repositories named in the text of a repository list, one to a line.
pub fn parse_repos_list(content: &str) -> (r: RepoSet)
    ensures
        r@ == listed_repos(lines(content@), lines(content@).len() as int),
{
    let all = lines_exec(&to_chars(content));
    let mut set = StringHashSet::new();
    let mut i: usize = 0;
    while i < all.len()
        invariant
            i <= all.len(),
            set@ == listed_repos(rows(all@), i as int),
        decreases all.len() - i,
    {
        let name = trim_exec(&all[i]);
        if name.len() > 0 {
            set.insert(from_chars(&name));
        }
        i += 1;
    }
    set
}

} // verus!
