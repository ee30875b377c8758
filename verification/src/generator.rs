//! What goes onto the pages: the metadata of a course, the title of a
//! document, and the texts of course pages and index pages.

use crate::constants::{semester_mapping, semester_table, table_view};
use crate::models::{
    details_view, items_view, text_view, Course, CourseMetadata, CourseMetadataView, Frontmatter,
    FrontmatterView, GradeDetail, GradeDetailView, GradingItem, GradingItemView, HourDistribution,
    HourDistributionMeta,
};
use crate::text::{
    append_str, chars_eq, from_chars, has_at_exec, join, join_exec, lemma_rows_push,
    lines, lines_exec, parse_u32, parse_u32_exec, push_row, rows, split_once, split_once_exec, starts_with,
    subvec, to_chars, trim, trim_char, trim_char_end, trim_char_end_exec, trim_char_exec,
    trim_exec, trim_prefixes, trim_prefixes_exec,
};
use crate::loader::RepoSet;
use vstd::prelude::*;

verus! {

/// The weight in percent that a grade part's text gives: the number before
/// its percent signs, 0 where the text is missing or no such number.
pub open spec fn percent_of(text: Option<Seq<char>>) -> u32 {
    match text {
        Some(p) => match parse_u32(trim_char_end(p, '%')) {
            Some(n) => n,
            None => 0,
        },
        None => 0,
    }
}

/// The grading items of the first `n` grade parts: those whose weight is
/// not 0.
pub open spec fn grading_items(details: Seq<GradeDetailView>, n: int) -> Seq<GradingItemView>
    decreases n,
{
    if n <= 0 || n > details.len() {
        Seq::empty()
    } else if percent_of(details[n - 1].percent) > 0 {
        grading_items(details, n - 1).push(
            GradingItemView {
                name: details[n - 1].name,
                percent: percent_of(details[n - 1].percent),
            },
        )
    } else {
        grading_items(details, n - 1)
    }
}

/// A number that may be missing, 0 in its place.
pub open spec fn or_zero(n: Option<u32>) -> u32 {
    match n {
        Some(v) => v,
        None => 0,
    }
}

/// The hours of a course with 0 for every kind that the plan leaves out.
pub open spec fn hours_meta(hours: Option<HourDistribution>) -> HourDistributionMeta {
    match hours {
        Some(h) => HourDistributionMeta {
            theory: or_zero(h.theory),
            lab: or_zero(h.lab),
            practice: or_zero(h.practice),
            exercise: or_zero(h.exercise),
            computer: or_zero(h.computer),
            tutoring: or_zero(h.tutoring),
        },
        None => HourDistributionMeta {
            theory: 0,
            lab: 0,
            practice: 0,
            exercise: 0,
            computer: 0,
            tutoring: 0,
        },
    }
}

/// A text that may be missing, the empty text in its place.
pub open spec fn or_empty(s: Option<String>) -> Seq<char> {
    match s {
        Some(t) => t@,
        None => Seq::empty(),
    }
}

/// The grading scheme that grade parts give.
pub open spec fn grading_scheme(details: Option<Vec<GradeDetail>>) -> Seq<GradingItemView> {
    match details {
        Some(d) => grading_items(details_view(d@), d@.len() as int),
        None => Seq::empty(),
    }
}

/// The metadata of a course's page.
pub open spec fn frontmatter_of(title: Seq<char>, course: Course) -> FrontmatterView {
    FrontmatterView {
        title,
        description: Seq::empty(),
        course: CourseMetadataView {
            credit: or_zero(course.credit),
            assessment_method: or_empty(course.assessment_method),
            course_nature: or_empty(course.course_nature),
            hour_distribution: hours_meta(course.hours),
            grading_scheme: grading_scheme(course.grade_details),
        },
    }
}

fn percent_exec(text: &Option<String>) -> (r: u32)
    ensures
        r == percent_of(text_view(*text)),
{
    match text {
        Some(p) => match parse_u32_exec(&trim_char_end_exec(&to_chars(p.as_str()), '%')) {
            Some(n) => n,
            None => 0,
        },
        None => 0,
    }
}

/// The grading items of a list of grade parts.
pub fn grading_items_exec(details: &Vec<GradeDetail>) -> (r: Vec<GradingItem>)
    ensures
        items_view(r@) == grading_items(details_view(details@), details@.len() as int),
{
    let mut items: Vec<GradingItem> = Vec::new();
    let mut i: usize = 0;
    proof {
        assert(items_view(items@) =~= grading_items(details_view(details@), 0));
    }
    while i < details.len()
        invariant
            i <= details.len(),
            items_view(items@) == grading_items(details_view(details@), i as int),
        decreases details.len() - i,
    {
        let percent = percent_exec(&details[i].percent);
        assert(details_view(details@)[i as int] == details@[i as int]@);
        if percent > 0 {
            let item = GradingItem { name: details[i].name.clone(), percent };
            proof {
                assert(items_view(items@.push(item)) =~= items_view(items@).push(item@));
            }
            items.push(item);
        }
        i += 1;
    }
    items
}

fn text_or_empty(s: &Option<String>) -> (r: String)
    ensures
        r@ == or_empty(*s),
{
    match s {
        Some(t) => t.clone(),
        None => String::new(),
    }
}

fn number_or_zero(n: Option<u32>) -> (r: u32)
    ensures
        r == or_zero(n),
{
    match n {
        Some(v) => v,
        None => 0,
    }
}

/// Build the metadata for a course page.
pub fn build_frontmatter(title: &str, course: &Course) -> (r: Frontmatter)
    ensures
        r@ == frontmatter_of(title@, *course),
{
    let hour_distribution = match &course.hours {
        Some(h) => HourDistributionMeta {
            theory: number_or_zero(h.theory),
            lab: number_or_zero(h.lab),
            practice: number_or_zero(h.practice),
            exercise: number_or_zero(h.exercise),
            computer: number_or_zero(h.computer),
            tutoring: number_or_zero(h.tutoring),
        },
        None => HourDistributionMeta {
            theory: 0,
            lab: 0,
            practice: 0,
            exercise: 0,
            computer: 0,
            tutoring: 0,
        },
    };
    let grading_scheme = match &course.grade_details {
        Some(details) => grading_items_exec(details),
        None => Vec::new(),
    };
    proof {
        if course.grade_details is None {
            assert(items_view(grading_scheme@) =~= Seq::<GradingItemView>::empty());
        }
    }
    Frontmatter {
        title: from_chars(&to_chars(title)),
        description: String::new(),
        course: CourseMetadata {
            credit: number_or_zero(course.credit),
            assessment_method: text_or_empty(&course.assessment_method),
            course_nature: text_or_empty(&course.course_nature),
            hour_distribution,
            grading_scheme,
        },
    }
}

/// The title that a line of a document's head gives. The line is trimmed
/// already. A `title:` key is taken off with the quotes round its value; a
/// leading `# ` is taken off; of a title with ` - ` in it, what follows the
/// first ` - ` is the title.
pub open spec fn title_of_line(line: Seq<char>) -> Seq<char> {
    let raw = if starts_with(line, "title:"@) {
        trim_char(trim_char(trim(line.subrange(6, line.len() as int)), '"'), '\'')
    } else {
        line
    };
    let plain = trim(trim_prefixes(raw, "# "@));
    match split_once(plain, " - "@) {
        Some(parts) => trim(parts.1),
        None => plain,
    }
}

/// The title found from line `i` on, looking no further than five lines
/// into the document: that of the first line that is neither blank nor
/// `---`; `fallback` where there is none.
pub open spec fn title_scan(all: Seq<Seq<char>>, i: int, fallback: Seq<char>) -> Seq<char>
    decreases all.len() - i,
{
    if i < 0 || i >= all.len() || i >= 5 {
        fallback
    } else if trim(all[i]).len() == 0 || trim(all[i]) == "---"@ {
        title_scan(all, i + 1, fallback)
    } else {
        title_of_line(trim(all[i]))
    }
}

/// The title of a document, or `fallback`.
pub open spec fn document_title(content: Seq<char>, fallback: Seq<char>) -> Seq<char> {
    title_scan(lines(content), 0, fallback)
}

fn title_of_line_exec(line: &Vec<char>) -> (r: Vec<char>)
    ensures
        r@ == title_of_line(line@),
{
    proof {
        reveal_strlit("title:");
    }
    let raw = if has_at_exec(line, 0, &to_chars("title:")) {
        let value = trim_exec(&subvec(line, 6, line.len()));
        trim_char_exec(&trim_char_exec(&value, '"'), '\'')
    } else {
        line.clone()
    };
    let plain = trim_exec(&trim_prefixes_exec(&raw, &to_chars("# ")));
    match split_once_exec(&plain, &to_chars(" - ")) {
        Some((_, rest)) => trim_exec(&rest),
        None => plain,
    }
}

/// The title of a document: taken from the first five lines, `fallback`
/// where they hold none.
pub fn title_from_mdx(mdx_content: &str, fallback: &str) -> (r: String)
    ensures
        r@ == document_title(mdx_content@, fallback@),
{
    let all = lines_exec(&to_chars(mdx_content));
    let rule = to_chars("---");
    let mut i: usize = 0;
    while i < all.len() && i < 5
        invariant
            i <= all.len(),
            rule@ == "---"@,
            rows(all@) == lines(mdx_content@),
            title_scan(rows(all@), 0, fallback@) == title_scan(rows(all@), i as int, fallback@),
        decreases all.len() - i,
    {
        let trimmed = trim_exec(&all[i]);
        if trimmed.len() != 0 && !chars_eq(&trimmed, &rule) {
            return from_chars(&title_of_line_exec(&trimmed));
        }
        i += 1;
    }
    from_chars(&to_chars(fallback))
}

/// A course of which only the repository, the name and the grade parts are
/// known.
pub fn minimal_course(repo_id: &str, name: &str, grade_details: Option<Vec<GradeDetail>>) -> (r:
    Course)
    ensures
        r.repo_id@ == repo_id@,
        r.name@ == name@,
        r.credit is None,
        r.assessment_method is None,
        r.course_nature is None,
        r.recommended_semester is None,
        r.hours is None,
        r.grade_details == grade_details,
{
    Course {
        repo_id: from_chars(&to_chars(repo_id)),
        name: from_chars(&to_chars(name)),
        credit: None,
        assessment_method: None,
        course_nature: None,
        recommended_semester: None,
        hours: None,
        grade_details,
    }
}

/// The text of a document behind its first `n` lines, the lines joined by
/// line breaks.
pub open spec fn body_behind(content: Seq<char>, n: int) -> Seq<char> {
    if 0 <= n <= lines(content).len() {
        join(lines(content).skip(n), seq!['\n'])
    } else {
        Seq::empty()
    }
}

/// The document without its first `n` lines.
pub fn skip_lines(content: &str, n: usize) -> (r: String)
    ensures
        r@ == body_behind(content@, n as int),
{
    let all = lines_exec(&to_chars(content));
    if n > all.len() {
        return String::new();
    }
    let mut rest: Vec<Vec<char>> = Vec::new();
    let mut i: usize = n;
    proof {
        assert(rows(rest@) =~= rows(all@).skip(n as int).take(0));
    }
    while i < all.len()
        invariant
            n <= i <= all.len(),
            rows(rest@) == rows(all@).skip(n as int).take(i - n),
        decreases all.len() - i,
    {
        proof {
            lemma_rows_push(rest@, all@[i as int]);
            assert(rows(all@).skip(n as int).take(i - n + 1) =~= rows(all@).skip(n as int).take(
                i - n,
            ).push(all@[i as int]@));
        }
        rest.push(all[i].clone());
        i += 1;
    }
    proof {
        assert(rows(all@).skip(n as int).take(all.len() - n) =~= rows(all@).skip(n as int));
    }
    let mut newline: Vec<char> = Vec::new();
    newline.push('\n');
    assert(newline@ =~= seq!['\n']);
    from_chars(&join_exec(&rest, &newline))
}

/// The download section of a page: a heading and the file tree inside the
/// `Files` component of the repository.
pub open spec fn files_section(repo_id: Seq<char>, tree: Seq<char>) -> Seq<char> {
    "\n\n## 资源下载\n\n<Files url=\"https://open.osa.moe/openauto/"@ + repo_id + "\">\n"@ + tree
        + "\n</Files>"@
}

/// The download section of a repository's page.
pub fn build_files_section(repo_id: &str, tree: &str) -> (r: String)
    ensures
        r@ == files_section(repo_id@, tree@),
{
    let mut out = to_chars("\n\n## 资源下载\n\n<Files url=\"https://open.osa.moe/openauto/");
    append_str(&mut out, repo_id);
    append_str(&mut out, "\">\n");
    append_str(&mut out, tree);
    append_str(&mut out, "\n</Files>");
    from_chars(&out)
}

/// The text of a course page: the metadata block, the course information
/// component where the page shows one, the document and the download
/// section.
pub open spec fn course_page(
    frontmatter: Seq<char>,
    content: Seq<char>,
    files: Seq<char>,
    with_course_info: bool,
) -> Seq<char> {
    if with_course_info {
        frontmatter + "\n\n<CourseInfo />\n\n"@ + content + files
    } else {
        frontmatter + "\n\n"@ + content + files
    }
}

/// The text of a course page.
pub fn build_course_page(frontmatter: &str, content: &str, files: &str, with_course_info: bool) -> (r:
    String)
    ensures
        r@ == course_page(frontmatter@, content@, files@, with_course_info),
{
    let mut out = to_chars(frontmatter);
    if with_course_info {
        append_str(&mut out, "\n\n<CourseInfo />\n\n");
    } else {
        append_str(&mut out, "\n\n");
    }
    append_str(&mut out, content);
    append_str(&mut out, files);
    from_chars(&out)
}

/// A card of an index page.
pub open spec fn card(title: Seq<char>, href: Seq<char>) -> Seq<char> {
    "  <Card title=\""@ + title + "\" href=\""@ + href + "\" />"@
}

/// The cards of the first `n` entries, each entry a title and an address.
pub open spec fn cards(entries: Seq<(Seq<char>, Seq<char>)>, n: int) -> Seq<Seq<char>>
    decreases n,
{
    if n <= 0 || n > entries.len() {
        Seq::empty()
    } else {
        cards(entries, n - 1).push(card(entries[n - 1].0, entries[n - 1].1))
    }
}

/// The text of an index page: a metadata block with the title, and the
/// cards inside the `Cards` component.
pub open spec fn cards_page(title: Seq<char>, entries: Seq<(Seq<char>, Seq<char>)>) -> Seq<char> {
    join(
        seq!["---"@, "title: "@ + title, "---"@, ""@, "<Cards>"@] + cards(
            entries,
            entries.len() as int,
        ) + seq!["</Cards>"@],
        seq!['\n'],
    )
}

/// The views of a list of titles with their addresses.
pub open spec fn entries_view(v: Seq<(String, String)>) -> Seq<(Seq<char>, Seq<char>)> {
    Seq::new(v.len(), |i: int| (v[i].0@, v[i].1@))
}

/// The text of an index page with a card for each entry, an entry being a
/// title and the address it links to.
pub fn build_cards_page(title: &str, entries: &Vec<(String, String)>) -> (r: String)
    ensures
        r@ == cards_page(title@, entries_view(entries@)),
{
    let ghost head = seq!["---"@, "title: "@ + title@, "---"@, ""@, "<Cards>"@];
    let ghost all = entries_view(entries@);
    let mut page: Vec<Vec<char>> = Vec::new();
    let mut heading = to_chars("title: ");
    append_str(&mut heading, title);
    push_row(&mut page, to_chars("---"));
    push_row(&mut page, heading);
    push_row(&mut page, to_chars("---"));
    push_row(&mut page, to_chars(""));
    push_row(&mut page, to_chars("<Cards>"));
    proof {
        assert(rows(page@) =~= head + cards(all, 0));
    }
    let mut i: usize = 0;
    while i < entries.len()
        invariant
            i <= entries.len(),
            all == entries_view(entries@),
            rows(page@) == head + cards(all, i as int),
        decreases entries.len() - i,
    {
        let mut line = to_chars("  <Card title=\"");
        append_str(&mut line, entries[i].0.as_str());
        append_str(&mut line, "\" href=\"");
        append_str(&mut line, entries[i].1.as_str());
        append_str(&mut line, "\" />");
        proof {
            assert(line@ == card(all[i as int].0, all[i as int].1));
            assert(rows(page@).push(line@) =~= head + cards(all, i + 1));
        }
        push_row(&mut page, line);
        i += 1;
    }
    push_row(&mut page, to_chars("</Cards>"));
    proof {
        assert(rows(page@) =~= head + cards(all, all.len() as int) + seq!["</Cards>"@]);
    }
    let mut newline: Vec<char> = Vec::new();
    newline.push('\n');
    assert(newline@ =~= seq!['\n']);
    from_chars(&join_exec(&page, &newline))
}

/// The folders of the first `n` rows of the semester table that are in
/// `present`, in the order of the table.
pub open spec fn present_folders(present: Set<Seq<char>>, n: int) -> Seq<Seq<char>>
    decreases n,
{
    if n <= 0 || n > semester_table().len() {
        Seq::empty()
    } else if present.contains(semester_table()[n - 1].1) {
        present_folders(present, n - 1).push(semester_table()[n - 1].1)
    } else {
        present_folders(present, n - 1)
    }
}

/// The views of a list of static texts.
pub open spec fn names_view(v: Seq<&'static str>) -> Seq<Seq<char>> {
    Seq::new(v.len(), |i: int| v[i]@)
}

/// The semester folders that have courses, in the order of the academic
/// years and seasons.
pub fn ordered_semester_folders(present: &RepoSet) -> (r: Vec<&'static str>)
    ensures
        names_view(r@) == present_folders(present@, semester_table().len() as int),
{
    let table = semester_mapping();
    let mut out: Vec<&'static str> = Vec::new();
    let mut i: usize = 0;
    proof {
        assert(names_view(out@) =~= present_folders(present@, 0));
    }
    while i < table.len()
        invariant
            i <= table.len(),
            table_view(table@) == semester_table(),
            names_view(out@) == present_folders(present@, i as int),
        decreases table.len() - i,
    {
        let folder = table[i].1;
        proof {
            assert(table_view(table@)[i as int].1 == folder@);
        }
        if present.contains(folder) {
            proof {
                assert(names_view(out@.push(folder)) =~= names_view(out@).push(folder@));
            }
            out.push(folder);
        }
        i += 1;
    }
    out
}

/// The address of a page below `/docs`: a slash before each part.
pub open spec fn docs_path(parts: Seq<Seq<char>>, n: int) -> Seq<char>
    decreases n,
{
    if n <= 0 || n > parts.len() {
        "/docs"@
    } else {
        docs_path(parts, n - 1) + seq!['/'] + parts[n - 1]
    }
}

/// The views of a list of borrowed texts.
pub open spec fn parts_view(v: Seq<&str>) -> Seq<Seq<char>> {
    Seq::new(v.len(), |i: int| v[i]@)
}

/// The address of a page of the documentation, from the parts of its path.
pub fn docs_href(parts: &Vec<&str>) -> (r: String)
    ensures
        r@ == docs_path(parts_view(parts@), parts@.len() as int),
{
    let mut out = to_chars("/docs");
    let mut i: usize = 0;
    while i < parts.len()
        invariant
            i <= parts.len(),
            out@ == docs_path(parts_view(parts@), i as int),
        decreases parts.len() - i,
    {
        out.push('/');
        append_str(&mut out, parts[i]);
        proof {
            assert(out@ =~= docs_path(parts_view(parts@), i as int) + seq!['/'] + parts@[i as int]@);
        }
        i += 1;
    }
    from_chars(&out)
}

} // verus!
