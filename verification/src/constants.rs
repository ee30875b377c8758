//! Fixed tables: the semester names with their folders and titles, and the
//! rules that decide which repository files are listed.

use crate::text::{
    chars_eq, ends_with, ends_with_exec, has_at_exec, rows, split, split_exec, starts_with,
    subvec, to_chars, trim, trim_exec,
};
use vstd::prelude::*;

verus! {

/// The semester table: the name as plans write it, the folder, the title.
pub open spec fn semester_table() -> Seq<(Seq<char>, Seq<char>, Seq<char>)> {
    seq![
        ("第一学年秋季"@, "fresh-autumn"@, "大一·秋"@),
        ("第一学年春季"@, "fresh-spring"@, "大一·春"@),
        ("第一学年夏季"@, "fresh-summer"@, "大一·夏"@),
        ("第二学年秋季"@, "sophomore-autumn"@, "大二·秋"@),
        ("第二学年春季"@, "sophomore-spring"@, "大二·春"@),
        ("第二学年夏季"@, "sophomore-summer"@, "大二·夏"@),
        ("第三学年秋季"@, "junior-autumn"@, "大三·秋"@),
        ("第三学年春季"@, "junior-spring"@, "大三·春"@),
        ("第三学年夏季"@, "junior-summer"@, "大三·夏"@),
        ("第四学年秋季"@, "senior-autumn"@, "大四·秋"@),
        ("第四学年春季"@, "senior-spring"@, "大四·春"@),
        ("第四学年夏季"@, "senior-summer"@, "大四·夏"@),
        ("第五学年秋季"@, "fifth-autumn"@, "大五·秋"@),
        ("第五学年春季"@, "fifth-spring"@, "大五·春"@),
        ("第五学年夏季"@, "fifth-summer"@, "大五·夏"@),
    ]
}

/// The views of the rows of an executable semester table.
pub open spec fn table_view(t: Seq<(&'static str, &'static str, &'static str)>) -> Seq<
    (Seq<char>, Seq<char>, Seq<char>),
> {
    Seq::new(t.len(), |i: int| (t[i].0@, t[i].1@, t[i].2@))
}

/// The semester table, in semantic order: five academic years of three seasons.
pub fn semester_mapping() -> (t: Vec<(&'static str, &'static str, &'static str)>)
    ensures
        table_view(t@) == semester_table(),
        t.len() == 15,
{
    let mut t: Vec<(&'static str, &'static str, &'static str)> = Vec::new();
    t.push(("第一学年秋季", "fresh-autumn", "大一·秋"));
    t.push(("第一学年春季", "fresh-spring", "大一·春"));
    t.push(("第一学年夏季", "fresh-summer", "大一·夏"));
    t.push(("第二学年秋季", "sophomore-autumn", "大二·秋"));
    t.push(("第二学年春季", "sophomore-spring", "大二·春"));
    t.push(("第二学年夏季", "sophomore-summer", "大二·夏"));
    t.push(("第三学年秋季", "junior-autumn", "大三·秋"));
    t.push(("第三学年春季", "junior-spring", "大三·春"));
    t.push(("第三学年夏季", "junior-summer", "大三·夏"));
    t.push(("第四学年秋季", "senior-autumn", "大四·秋"));
    t.push(("第四学年春季", "senior-spring", "大四·春"));
    t.push(("第四学年夏季", "senior-summer", "大四·夏"));
    t.push(("第五学年秋季", "fifth-autumn", "大五·秋"));
    t.push(("第五学年春季", "fifth-spring", "大五·春"));
    t.push(("第五学年夏季", "fifth-summer", "大五·夏"));
    proof {
        assert(table_view(t@) =~= semester_table());
    }
    t
}

/// The first row at or after `from` whose name is `key`, if any.
pub open spec fn row_by_name(key: Seq<char>, from: int) -> Option<int>
    decreases semester_table().len() - from,
{
    if from < 0 || from >= semester_table().len() {
        None
    } else if semester_table()[from].0 == key {
        Some(from)
    } else {
        row_by_name(key, from + 1)
    }
}

/// The first row at or after `from` whose folder is `folder`, if any.
pub open spec fn row_by_folder(folder: Seq<char>, from: int) -> Option<int>
    decreases semester_table().len() - from,
{
    if from < 0 || from >= semester_table().len() {
        None
    } else if semester_table()[from].1 == folder {
        Some(from)
    } else {
        row_by_folder(folder, from + 1)
    }
}

/// Folder and title of the semester that plans call `recommended`.
pub open spec fn semester_folder(recommended: Seq<char>) -> Option<(Seq<char>, Seq<char>)> {
    match row_by_name(recommended, 0) {
        Some(i) => Some((semester_table()[i].1, semester_table()[i].2)),
        None => None,
    }
}

/// Title of the semester kept in `folder`.
pub open spec fn semester_title(folder: Seq<char>) -> Option<Seq<char>> {
    match row_by_folder(folder, 0) {
        Some(i) => Some(semester_table()[i].2),
        None => None,
    }
}

/// View of an optional folder-and-title pair.
pub open spec fn pair_view(p: Option<(&'static str, &'static str)>) -> Option<
    (Seq<char>, Seq<char>),
> {
    match p {
        Some((f, t)) => Some((f@, t@)),
        None => None,
    }
}

fn str_eq(a: &str, b: &str) -> (r: bool)
    ensures
        r == (a@ == b@),
{
    let x = to_chars(a);
    let y = to_chars(b);
    chars_eq(&x, &y)
}

/// Get semester folder and title from the Chinese semester name.
pub fn get_semester_folder(recommended: &str) -> (r: Option<(&'static str, &'static str)>)
    ensures
        pair_view(r) == semester_folder(recommended@),
{
    let table = semester_mapping();
    let mut i: usize = 0;
    while i < table.len()
        invariant
            i <= table.len(),
            table_view(table@) == semester_table(),
            row_by_name(recommended@, 0) == row_by_name(recommended@, i as int),
        decreases table.len() - i,
    {
        let row = table[i];
        proof {
            assert(table_view(table@)[i as int] == (row.0@, row.1@, row.2@));
        }
        if str_eq(row.0, recommended) {
            return Some((row.1, row.2));
        }
        i += 1;
    }
    None
}

/// Get semester title from folder name.
pub fn get_semester_title_by_folder(folder: &str) -> (r: Option<&'static str>)
    ensures
        match r {
            Some(t) => semester_title(folder@) == Some(t@),
            None => semester_title(folder@) is None,
        },
{
    let table = semester_mapping();
    let mut i: usize = 0;
    while i < table.len()
        invariant
            i <= table.len(),
            table_view(table@) == semester_table(),
            row_by_folder(folder@, 0) == row_by_folder(folder@, i as int),
        decreases table.len() - i,
    {
        let row = table[i];
        proof {
            assert(table_view(table@)[i as int] == (row.0@, row.1@, row.2@));
        }
        if str_eq(row.1, folder) {
            return Some(row.2);
        }
        i += 1;
    }
    None
}

/// A character that separates semester names in a plan's field: an ASCII
/// comma, a full-width comma or an ideographic comma.
pub open spec fn is_semester_separator(c: char) -> bool {
    c == ',' || c == '，' || c == '、'
}

/// The folders collected so far hold `folder`.
pub open spec fn has_folder(acc: Seq<(Seq<char>, Seq<char>)>, folder: Seq<char>) -> bool {
    exists|k: int| 0 <= k < acc.len() && acc[k].0 == folder
}

/// `acc` after the token `token` was read: a known semester that is not yet
/// listed is added at the end.
pub open spec fn add_semester(acc: Seq<(Seq<char>, Seq<char>)>, token: Seq<char>) -> Seq<
    (Seq<char>, Seq<char>),
> {
    let name = trim(token);
    if name.len() == 0 {
        acc
    } else {
        match semester_folder(name) {
            Some(pair) => if has_folder(acc, pair.0) {
                acc
            } else {
                acc.push(pair)
            },
            None => acc,
        }
    }
}

/// Reads the tokens of `s` from index `i` on, the current token starting at
/// `start`, into `acc`.
pub open spec fn semesters_scan(
    s: Seq<char>,
    start: int,
    i: int,
    acc: Seq<(Seq<char>, Seq<char>)>,
) -> Seq<(Seq<char>, Seq<char>)>
    decreases s.len() - i,
{
    if i < 0 || i >= s.len() {
        add_semester(acc, s.subrange(start, s.len() as int))
    } else if is_semester_separator(s[i]) {
        semesters_scan(s, i + 1, i + 1, add_semester(acc, s.subrange(start, i)))
    } else {
        semesters_scan(s, start, i + 1, acc)
    }
}

/// The semesters that a plan's field names: its tokens in order, unknown
/// names left out, each folder once.
pub open spec fn semester_folders(recommended: Seq<char>) -> Seq<(Seq<char>, Seq<char>)> {
    semesters_scan(recommended, 0, 0, Seq::empty())
}

/// The views of a list of folder-and-title pairs.
pub open spec fn pairs_view(v: Seq<(&'static str, &'static str)>) -> Seq<(Seq<char>, Seq<char>)> {
    Seq::new(v.len(), |i: int| (v[i].0@, v[i].1@))
}

fn folder_listed(acc: &Vec<(&'static str, &'static str)>, folder: &str) -> (r: bool)
    ensures
        r == has_folder(pairs_view(acc@), folder@),
{
    let mut k: usize = 0;
    while k < acc.len()
        invariant
            k <= acc.len(),
            forall|j: int| 0 <= j < k ==> pairs_view(acc@)[j].0 != folder@,
        decreases acc.len() - k,
    {
        if str_eq(acc[k].0, folder) {
            proof {
                assert(pairs_view(acc@)[k as int].0 == folder@);
            }
            return true;
        }
        k += 1;
    }
    false
}

fn add_token(acc: &mut Vec<(&'static str, &'static str)>, token: &Vec<char>)
    ensures
        pairs_view(final(acc)@) == add_semester(pairs_view(old(acc)@), token@),
{
    let name = trim_exec(token);
    if name.len() == 0 {
        return ;
    }
    let name_text = crate::text::from_chars(&name);
    match get_semester_folder(name_text.as_str()) {
        Some((folder, title)) => {
            if !folder_listed(acc, folder) {
                acc.push((folder, title));
                proof {
                    assert(pairs_view(acc@) =~= pairs_view(old(acc)@).push((folder@, title@)));
                }
            }
        },
        None => {},
    }
}

/// Parse a semester field that may name several semesters, separated by
/// commas of any of the three kinds.
pub fn parse_semester_folders(recommended: &str) -> (r: Vec<(&'static str, &'static str)>)
    ensures
        pairs_view(r@) == semester_folders(recommended@),
{
    let s = to_chars(recommended);
    let mut acc: Vec<(&'static str, &'static str)> = Vec::new();
    let mut start: usize = 0;
    let mut i: usize = 0;
    proof {
        assert(pairs_view(acc@) =~= Seq::empty());
    }
    while i < s.len()
        invariant
            start <= i <= s.len(),
            semester_folders(s@) == semesters_scan(s@, start as int, i as int, pairs_view(acc@)),
        decreases s.len() - i,
    {
        let c = s[i];
        if c == ',' || c == '，' || c == '、' {
            let token = subvec(&s, start, i);
            add_token(&mut acc, &token);
            start = i + 1;
        }
        i += 1;
    }
    let token = subvec(&s, start, s.len());
    add_token(&mut acc, &token);
    acc
}

/// The last piece of a path: what follows its last `/`.
pub open spec fn file_name(path: Seq<char>) -> Seq<char> {
    split(path, '/').last()
}

/// The file name is one of the housekeeping files that are never listed.
pub open spec fn is_excluded_name(name: Seq<char>) -> bool {
    name == ".gitkeep"@ || name == "README.md"@ || name == "LICENSE"@ || name == "tag.txt"@
}

/// The file name carries an extension that is never listed.
pub open spec fn has_excluded_extension(name: Seq<char>) -> bool {
    ends_with(name, ".toml"@)
}

/// The path lies in a directory that is never listed.
pub open spec fn has_excluded_prefix(path: Seq<char>) -> bool {
    starts_with(path, ".github/"@)
}

/// A path is listed unless one of the three exclusion rules applies.
pub open spec fn included(path: Seq<char>) -> bool {
    !is_excluded_name(file_name(path)) && !has_excluded_extension(file_name(path))
        && !has_excluded_prefix(path)
}

/// `should_include_file` on the characters of a path.
pub fn should_include_chars(path: &Vec<char>) -> (r: bool)
    ensures
        r == included(path@),
{
    let pieces = split_exec(path, '/');
    let name = &pieces[pieces.len() - 1];
    proof {
        assert(rows(pieces@).last() == name@);
    }
    if chars_eq(name, &to_chars(".gitkeep")) || chars_eq(name, &to_chars("README.md"))
        || chars_eq(name, &to_chars("LICENSE")) || chars_eq(name, &to_chars("tag.txt")) {
        return false;
    }
    if ends_with_exec(name, &to_chars(".toml")) {
        return false;
    }
    if has_at_exec(path, 0, &to_chars(".github/")) {
        return false;
    }
    true
}

/// Check if a file path should be included in the file tree.
pub fn should_include_file(path: &str) -> (r: bool)
    ensures
        r == included(path@),
{
    should_include_chars(&to_chars(path))
}

} // verus!
