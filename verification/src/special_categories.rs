//! The categories of courses that belong to no year or major: the
//! cross-specialty electives and the general-knowledge courses.

use crate::generator::{grading_items, grading_items_exec};
use crate::models::{
    details_view, items_view, CourseMetadata, CourseMetadataView, Frontmatter, FrontmatterView,
    GradeDetail, GradeDetailView, GradingItemView, HourDistributionMeta,
};
use crate::text::{
    from_chars, has_at_exec, lines, lines_exec, rows, starts_with, to_chars, trim, trim_exec,
    trim_prefixes, trim_prefixes_exec,
};
use vstd::prelude::*;

verus! {

/// A special category: its folder, its title, and its repositories, the
/// overview first.
#[derive(Debug)]
pub struct SpecialCategory {
    pub id: &'static str,
    pub title: &'static str,
    pub repos: Vec<&'static str>,
}

/// A special category as plain values.
pub struct SpecialCategoryView {
    pub id: Seq<char>,
    pub title: Seq<char>,
    pub repos: Seq<Seq<char>>,
}

impl View for SpecialCategory {
    type V = SpecialCategoryView;

    open spec fn view(&self) -> SpecialCategoryView {
        SpecialCategoryView {
            id: self.id@,
            title: self.title@,
            repos: Seq::new(self.repos@.len(), |i: int| self.repos@[i]@),
        }
    }
}

/// The two special categories: the cross-specialty electives and the
/// general-knowledge courses, each with its overview and four courses.
pub open spec fn special_table() -> Seq<SpecialCategoryView> {
    seq![
        SpecialCategoryView {
            id: "cross-specialty"@,
            title: "跨专业选修"@,
            repos: seq!["CrossSpecialty"@, "CHEM1012"@, "COMP3043"@, "ECON2005F"@, "SPST1004"@],
        },
        SpecialCategoryView {
            id: "general-knowledge"@,
            title: "文理通识与 MOOC"@,
            repos: seq!["GeneralKnowledge"@, "MOOC"@, "SEIN1040"@, "WOCD1008"@, "WRIT0001"@],
        },
    ]
}

/// The views of a list of special categories.
pub open spec fn categories_view(v: Seq<SpecialCategory>) -> Seq<SpecialCategoryView> {
    Seq::new(v.len(), |i: int| v[i]@)
}

/// The special categories and their repositories.
pub fn special_categories() -> (r: Vec<SpecialCategory>)
    ensures
        categories_view(r@) == special_table(),
{
    let mut cross: Vec<&'static str> = Vec::new();
    cross.push("CrossSpecialty");
    cross.push("CHEM1012");
    cross.push("COMP3043");
    cross.push("ECON2005F");
    cross.push("SPST1004");
    let mut general: Vec<&'static str> = Vec::new();
    general.push("GeneralKnowledge");
    general.push("MOOC");
    general.push("SEIN1040");
    general.push("WOCD1008");
    general.push("WRIT0001");
    let first = SpecialCategory { id: "cross-specialty", title: "跨专业选修", repos: cross };
    let second = SpecialCategory {
        id: "general-knowledge",
        title: "文理通识与 MOOC",
        repos: general,
    };
    proof {
        assert(first@.repos =~= special_table()[0].repos);
        assert(second@.repos =~= special_table()[1].repos);
    }
    let mut all: Vec<SpecialCategory> = Vec::new();
    all.push(first);
    all.push(second);
    proof {
        assert(categories_view(all@) =~= special_table());
    }
    all
}

/// Name and weight pairs as grade parts.
pub open spec fn pairs_as_details(pairs: Seq<(String, String)>) -> Seq<GradeDetailView> {
    Seq::new(
        pairs.len(),
        |i: int| GradeDetailView { name: pairs[i].0@, percent: Some(pairs[i].1@) },
    )
}

/// The metadata of a special category's page: the title and the grading
/// scheme; no credit, no hours.
pub open spec fn special_frontmatter(
    title: Seq<char>,
    grades: Option<Vec<(String, String)>>,
) -> FrontmatterView {
    FrontmatterView {
        title,
        description: Seq::empty(),
        course: CourseMetadataView {
            credit: 0,
            assessment_method: Seq::empty(),
            course_nature: Seq::empty(),
            hour_distribution: HourDistributionMeta {
                theory: 0,
                lab: 0,
                practice: 0,
                exercise: 0,
                computer: 0,
                tutoring: 0,
            },
            grading_scheme: match grades {
                Some(g) => grading_items(pairs_as_details(g@), g@.len() as int),
                None => Seq::empty(),
            },
        },
    }
}

/// Build the metadata for a special category page.
pub fn build_frontmatter(title: &str, repo_id: &str, grades: Option<Vec<(String, String)>>) -> (r:
    Frontmatter)
    ensures
        r@ == special_frontmatter(title@, grades),
{
    let grading_scheme = match &grades {
        Some(pairs) => {
            let mut details: Vec<GradeDetail> = Vec::new();
            let mut i: usize = 0;
            while i < pairs.len()
                invariant
                    i <= pairs.len(),
                    details_view(details@) == pairs_as_details(pairs@).take(i as int),
                decreases pairs.len() - i,
            {
                let detail = GradeDetail {
                    name: pairs[i].0.clone(),
                    percent: Some(pairs[i].1.clone()),
                };
                proof {
                    assert(detail@ == pairs_as_details(pairs@)[i as int]);
                    assert(details_view(details@.push(detail)) =~= details_view(details@).push(
                        detail@,
                    ));
                    assert(pairs_as_details(pairs@).take(i + 1) =~= pairs_as_details(pairs@).take(
                        i as int,
                    ).push(detail@));
                }
                details.push(detail);
                i += 1;
            }
            proof {
                assert(pairs_as_details(pairs@).take(pairs.len() as int) =~= pairs_as_details(
                    pairs@,
                ));
            }
            grading_items_exec(&details)
        },
        None => Vec::new(),
    };
    proof {
        if grades is None {
            assert(items_view(grading_scheme@) =~= Seq::<GradingItemView>::empty());
        }
    }
    Frontmatter {
        title: from_chars(&to_chars(title)),
        description: String::new(),
        course: CourseMetadata {
            credit: 0,
            assessment_method: String::new(),
            course_nature: String::new(),
            hour_distribution: HourDistributionMeta {
                theory: 0,
                lab: 0,
                practice: 0,
                exercise: 0,
                computer: 0,
                tutoring: 0,
            },
            grading_scheme,
        },
    }
}

/// The heading found from line `i` on: the first line that begins with
/// `# `, without that mark and trimmed; `Untitled` where there is none.
pub open spec fn heading_scan(all: Seq<Seq<char>>, i: int) -> Seq<char>
    decreases all.len() - i,
{
    if i < 0 || i >= all.len() {
        "Untitled"@
    } else if starts_with(all[i], "# "@) {
        trim(trim_prefixes(all[i], "# "@))
    } else {
        heading_scan(all, i + 1)
    }
}

/// Extract the title of a document from its first heading.
pub fn extract_title_from_mdx(content: &str) -> (r: String)
    ensures
        r@ == heading_scan(lines(content@), 0),
{
    let all = lines_exec(&to_chars(content));
    let mark = to_chars("# ");
    let mut i: usize = 0;
    while i < all.len()
        invariant
            i <= all.len(),
            mark@ == "# "@,
            rows(all@) == lines(content@),
            heading_scan(rows(all@), 0) == heading_scan(rows(all@), i as int),
        decreases all.len() - i,
    {
        if has_at_exec(&all[i], 0, &mark) {
            return from_chars(&trim_exec(&trim_prefixes_exec(&all[i], &mark)));
        }
        i += 1;
    }
    from_chars(&to_chars("Untitled"))
}

} // verus!
