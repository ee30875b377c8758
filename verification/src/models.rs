//! The data that the generator works on.

use vstd::prelude::*;

verus! {

/// One part of a course's grade, such as an exam, with its weight as the
/// tables write it (`"70%"`).
#[derive(Debug, Clone)]
pub struct GradeDetail {
    pub name: String,
    pub percent: Option<String>,
}

/// A grade part as plain values.
pub struct GradeDetailView {
    pub name: Seq<char>,
    pub percent: Option<Seq<char>>,
}

impl View for GradeDetail {
    type V = GradeDetailView;

    open spec fn view(&self) -> GradeDetailView {
        GradeDetailView { name: self.name@, percent: text_view(self.percent) }
    }
}

/// The views of a list of grade parts.
pub open spec fn details_view(v: Seq<GradeDetail>) -> Seq<GradeDetailView> {
    Seq::new(v.len(), |i: int| v[i]@)
}

/// A copy of a list of grade parts.
pub fn clone_details(v: &Vec<GradeDetail>) -> (r: Vec<GradeDetail>)
    ensures
        details_view(r@) == details_view(v@),
{
    let mut r: Vec<GradeDetail> = Vec::new();
    let mut i: usize = 0;
    while i < v.len()
        invariant
            i <= v.len(),
            details_view(r@) == details_view(v@).take(i as int),
        decreases v.len() - i,
    {
        let item = GradeDetail {
            name: v[i].name.clone(),
            percent: match &v[i].percent {
                Some(p) => Some(p.clone()),
                None => None,
            },
        };
        proof {
            assert(details_view(r@.push(item)) =~= details_view(v@).take(i as int).push(item@));
            assert(details_view(v@).take(i + 1) =~= details_view(v@).take(i as int).push(v@[i as int]@));
        }
        r.push(item);
        i += 1;
    }
    proof {
        assert(details_view(v@).take(v.len() as int) =~= details_view(v@));
    }
    r
}

/// Teaching hours of a course by kind, as far as the plan gives them.
#[derive(Debug, Clone)]
pub struct HourDistribution {
    pub theory: Option<u32>,
    pub lab: Option<u32>,
    pub practice: Option<u32>,
    pub exercise: Option<u32>,
    pub computer: Option<u32>,
    pub tutoring: Option<u32>,
}

/// The header of a training plan.
#[derive(Debug)]
pub struct PlanInfo {
    pub year: String,
    pub major_code: String,
    pub major_name: String,
    pub plan_id: String,
}

/// A training plan: one major in one year, with its courses.
#[derive(Debug, Clone)]
pub struct Plan {
    pub year: String,
    pub major_code: String,
    pub major_name: String,
    pub courses: Vec<Course>,
}

/// A category of courses that every major shares.
#[derive(Debug, Clone)]
pub struct SharedCategory {
    pub id: String,
    pub title: String,
    pub repo_ids: Vec<String>,
}

/// A course of a plan. `credit` is in whole credit points.
#[derive(Debug, Clone)]
pub struct Course {
    pub repo_id: String,
    pub name: String,
    pub credit: Option<u32>,
    pub assessment_method: Option<String>,
    pub course_nature: Option<String>,
    pub recommended_semester: Option<String>,
    pub hours: Option<HourDistribution>,
    pub grade_details: Option<Vec<GradeDetail>>,
}

/// What the manifest records of one file.
#[derive(Debug, Clone, Copy)]
pub struct FileMetadata {
    /// Size in bytes.
    pub size: Option<u64>,
    /// Time of the last change, in seconds since the Unix epoch.
    pub time: Option<i64>,
}

/// The flat manifest of a repository: each tracked file's path, relative to
/// the repository root and with `/` between its parts, and its metadata.
///
/// The manifest is a mapping. Where a path stands twice, the later entry
/// is the one that counts.
#[derive(Debug)]
pub struct WorktreeData(pub Vec<(String, FileMetadata)>);

/// One manifest entry as plain values.
pub struct EntryView {
    pub path: Seq<char>,
    pub meta: FileMetadata,
}

impl WorktreeData {
    /// The entries of the manifest, in order.
    pub open spec fn entries(&self) -> Seq<EntryView> {
        Seq::new(self.0@.len(), |i: int| EntryView { path: self.0@[i].0@, meta: self.0@[i].1 })
    }
}

/// Whether a tree node is a folder or a file.
#[derive(Debug, Clone, Copy, PartialEq, Eq, Structural)]
pub enum NodeType {
    Folder,
    File,
}

/// A node of the file tree. A folder owns its children; a file carries its
/// download address and, where the manifest has them, size and date.
#[derive(Debug)]
pub struct FileNode {
    pub name: String,
    pub node_type: NodeType,
    pub children: Vec<FileNode>,
    pub url: Option<String>,
    pub size: Option<u64>,
    pub date: Option<String>,
}

/// A tree node as plain values.
pub struct NodeView {
    pub name: Seq<char>,
    pub node_type: NodeType,
    pub children: Seq<NodeView>,
    pub url: Option<Seq<char>>,
    pub size: Option<u64>,
    pub date: Option<Seq<char>>,
}

/// View of an optional string.
pub open spec fn text_view(s: Option<String>) -> Option<Seq<char>> {
    match s {
        Some(t) => Some(t@),
        None => None,
    }
}

/// The node as plain values, its children in order.
pub open spec fn node_view(node: FileNode) -> NodeView
    decreases node,
{
    NodeView {
        name: node.name@,
        node_type: node.node_type,
        children: Seq::new(
            node.children@.len(),
            |i: int|
                if 0 <= i < node.children@.len() {
                    node_view(node.children@[i])
                } else {
                    arbitrary()
                },
        ),
        url: text_view(node.url),
        size: node.size,
        date: text_view(node.date),
    }
}

impl View for FileNode {
    type V = NodeView;

    open spec fn view(&self) -> NodeView {
        node_view(*self)
    }
}

/// The views of a list of nodes.
pub open spec fn forest_view(nodes: Seq<FileNode>) -> Seq<NodeView> {
    Seq::new(nodes.len(), |i: int| nodes[i]@)
}

/// A grading item as plain values.
pub struct GradingItemView {
    pub name: Seq<char>,
    pub percent: u32,
}

/// The course block of a page's metadata as plain values.
pub struct CourseMetadataView {
    pub credit: u32,
    pub assessment_method: Seq<char>,
    pub course_nature: Seq<char>,
    pub hour_distribution: HourDistributionMeta,
    pub grading_scheme: Seq<GradingItemView>,
}

/// A page's metadata as plain values.
pub struct FrontmatterView {
    pub title: Seq<char>,
    pub description: Seq<char>,
    pub course: CourseMetadataView,
}

/// The page metadata of a course, written at the head of its page.
#[derive(Debug)]
pub struct Frontmatter {
    pub title: String,
    pub description: String,
    pub course: CourseMetadata,
}

/// The course block of a page's metadata.
#[derive(Debug)]
pub struct CourseMetadata {
    pub credit: u32,
    pub assessment_method: String,
    pub course_nature: String,
    pub hour_distribution: HourDistributionMeta,
    pub grading_scheme: Vec<GradingItem>,
}

/// Teaching hours of a course by kind.
#[derive(Debug, Clone, Copy, PartialEq, Eq, Structural)]
pub struct HourDistributionMeta {
    pub theory: u32,
    pub lab: u32,
    pub practice: u32,
    pub exercise: u32,
    pub computer: u32,
    pub tutoring: u32,
}

/// One part of the grade with its weight in percent.
#[derive(Debug)]
pub struct GradingItem {
    pub name: String,
    pub percent: u32,
}

impl View for GradingItem {
    type V = GradingItemView;

    open spec fn view(&self) -> GradingItemView {
        GradingItemView { name: self.name@, percent: self.percent }
    }
}

/// The views of a list of grading items.
pub open spec fn items_view(v: Seq<GradingItem>) -> Seq<GradingItemView> {
    Seq::new(v.len(), |i: int| v[i]@)
}

impl View for CourseMetadata {
    type V = CourseMetadataView;

    open spec fn view(&self) -> CourseMetadataView {
        CourseMetadataView {
            credit: self.credit,
            assessment_method: self.assessment_method@,
            course_nature: self.course_nature@,
            hour_distribution: self.hour_distribution,
            grading_scheme: items_view(self.grading_scheme@),
        }
    }
}

impl View for Frontmatter {
    type V = FrontmatterView;

    open spec fn view(&self) -> FrontmatterView {
        FrontmatterView { title: self.title@, description: self.description@, course: self.course@ }
    }
}

/// The metadata block of a page: the YAML text of the metadata between
/// two lines of three hyphens. Without a YAML text the block holds an empty
/// title and an empty description.
pub open spec fn frontmatter_block(yaml: Option<Seq<char>>) -> Seq<char> {
    match yaml {
        Some(y) => "---\n"@ + y + "---"@,
        None => "---\ntitle: ''\ndescription: ''\n---"@,
    }
}

impl Frontmatter {
    /// Frame the YAML text of a page's metadata as the page's head.
    pub fn frame_yaml(yaml: Option<&str>) -> (r: String)
        ensures
            r@ == frontmatter_block(
                match yaml {
                    Some(y) => Some(y@),
                    None => None,
                },
            ),
    {
        match yaml {
            Some(y) => {
                let mut out = crate::text::to_chars("---\n");
                crate::text::append_str(&mut out, y);
                crate::text::append_str(&mut out, "---");
                crate::text::from_chars(&out)
            },
            None => crate::text::from_chars(
                &crate::text::to_chars("---\ntitle: ''\ndescription: ''\n---"),
            ),
        }
    }
}

} // verus!
