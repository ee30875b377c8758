//! The file tree of a repository: built from the flat manifest, put in
//! order, and rendered as `Folder` and `File` components.

use crate::constants::{included, should_include_chars};
use crate::models::{
    forest_view, text_view, EntryView, FileNode, NodeType, NodeView, WorktreeData,
};
use crate::text::{
    append_chars, append_str, ascii_lower_text, chars_eq, decimal, decimal_exec, from_chars,
    has_no_char, is_ascii_text, join, join_exec, lemma_join_prepend, lemma_join_split,
    lemma_rows_push, lemma_split_injective,
    lemma_split_join, lemma_split_scan_nonempty, rows, split, split_exec, starts_with, to_chars,
};
use vstd::prelude::*;
use vstd::utf8::encode_utf8;

verus! {

/// The text that the calendar library writes, by the format `format`, for
/// the moment `secs` seconds after the Unix epoch, in UTC; `None` where the
/// moment lies outside the years that the library can represent.
pub uninterp spec fn utc_date_text(secs: int, format: Seq<char>) -> Option<Seq<char>>;

/// The format of a date: year, month and day.
pub open spec fn date_format() -> Seq<char> {
    "%Y-%m-%d"@
}

/// The calendar date in UTC of a Unix timestamp, in the form `2021-12-20`.
pub open spec fn date_text(secs: int) -> Option<Seq<char>> {
    utc_date_text(secs, date_format())
}

/// `chrono::DateTime::from_timestamp` with no nanoseconds, and on the
/// moment it gives `format` and `to_string`. The result depends on the
/// number of seconds and the format alone: the time zone is UTC, and the
/// date format, the one format that is admitted, has no part that a locale
/// shapes.
#[verifier::external_body]
fn utc_date(secs: i64, format: &str) -> (r: Option<String>)
    requires
        format@ == date_format(),
    ensures
        text_view(r) == utc_date_text(secs as int, format@),
{
    chrono::DateTime::from_timestamp(secs, 0).map(|d| d.format(format).to_string())
}

/// Format a Unix timestamp as a calendar date in UTC. No date is given for
/// a timestamp outside the years that the calendar can represent.
pub fn format_timestamp(unix_ts: i64) -> (r: Option<String>)
    ensures
        text_view(r) == date_text(unix_ts as int),
{
    utc_date(unix_ts, "%Y-%m-%d")
}

/// A byte that percent-encoding leaves as it is: an ASCII letter or digit,
/// `-`, `.`, `_` or `~`.
pub open spec fn is_unreserved(b: u8) -> bool {
    (0x30 <= b <= 0x39) || (0x41 <= b <= 0x5A) || (0x61 <= b <= 0x7A) || b == 0x2D || b == 0x2E
        || b == 0x5F || b == 0x7E
}

/// The upper-case hexadecimal digit of a value below 16.
pub open spec fn hex_digit(d: u8) -> char {
    if d < 10 {
        (0x30 + d) as u8 as char
    } else {
        (0x37 + d) as u8 as char
    }
}

/// The percent-encoding of one byte: an unreserved byte as it is, any
/// other as `%` and its two hexadecimal digits.
pub open spec fn encoded_byte(b: u8) -> Seq<char> {
    if is_unreserved(b) {
        seq![b as char]
    } else {
        seq!['%', hex_digit(b / 16), hex_digit(b % 16)]
    }
}

/// The percent-encoding of a byte string: each byte encoded in turn.
pub open spec fn percent_encoded(bytes: Seq<u8>) -> Seq<char>
    decreases bytes.len(),
{
    if bytes.len() == 0 {
        Seq::<char>::empty()
    } else {
        percent_encoded(bytes.drop_last()) + encoded_byte(bytes.last())
    }
}

/// `urlencoding::encode`: the percent-encoding of the UTF-8 bytes of `s`.
#[verifier::external_body]
fn percent_encode(s: &str) -> (r: String)
    ensures
        r@ == percent_encoded(encode_utf8(s@)),
{
    urlencoding::encode(s).into_owned()
}

/// Each piece percent-encoded on its own.
pub open spec fn encode_pieces(pieces: Seq<Seq<char>>) -> Seq<Seq<char>> {
    Seq::new(pieces.len(), |i: int| percent_encoded(encode_utf8(pieces[i])))
}

/// The address from which a file of a repository is downloaded: the mirror,
/// the organisation, the repository, and the path with each of its parts
/// percent-encoded and `/` kept between them.
pub open spec fn download_url(repo: Seq<char>, path: Seq<char>) -> Seq<char> {
    "https://gh.hoa.moe/github.com/HITSZ-OpenAuto/"@ + repo + "/raw/main/"@ + join(
        encode_pieces(split(path, '/')),
        seq!['/'],
    )
}

fn download_url_chars(repo: &Vec<char>, path: &Vec<char>) -> (r: Vec<char>)
    ensures
        r@ == download_url(repo@, path@),
{
    let pieces = split_exec(path, '/');
    let mut encoded: Vec<Vec<char>> = Vec::new();
    let mut i: usize = 0;
    while i < pieces.len()
        invariant
            i <= pieces.len(),
            rows(encoded@) == encode_pieces(rows(pieces@)).take(i as int),
        decreases pieces.len() - i,
    {
        let text = from_chars(&pieces[i]);
        let piece = to_chars(percent_encode(text.as_str()).as_str());
        proof {
            lemma_rows_push(encoded@, piece);
            assert(encode_pieces(rows(pieces@)).take(i + 1) =~= encode_pieces(rows(pieces@)).take(
                i as int,
            ).push(piece@));
        }
        encoded.push(piece);
        i += 1;
    }
    proof {
        assert(encode_pieces(rows(pieces@)).take(pieces.len() as int) =~= encode_pieces(
            rows(pieces@),
        ));
    }
    let mut slash: Vec<char> = Vec::new();
    slash.push('/');
    assert(slash@ =~= seq!['/']);
    let mut r = to_chars("https://gh.hoa.moe/github.com/HITSZ-OpenAuto/");
    append_chars(&mut r, repo);
    append_str(&mut r, "/raw/main/");
    append_chars(&mut r, &join_exec(&encoded, &slash));
    r
}

/// Generate the download URL for a file in the repository.
pub fn generate_download_url(repo: &str, path: &str) -> (r: String)
    ensures
        r@ == download_url(repo@, path@),
{
    from_chars(&download_url_chars(&to_chars(repo), &to_chars(path)))
}

/// Two spaces for each level.
pub open spec fn indent(level: nat) -> Seq<char>
    decreases level,
{
    if level == 0 {
        Seq::<char>::empty()
    } else {
        indent((level - 1) as nat) + seq![' ', ' ']
    }
}

/// An optional attribute with a quoted value.
pub open spec fn quoted_attribute(key: Seq<char>, value: Option<Seq<char>>) -> Seq<Seq<char>> {
    match value {
        Some(v) => seq![key + "=\""@ + v + "\""@],
        None => Seq::<Seq<char>>::empty(),
    }
}

/// The size attribute: there for a size that is known and not zero.
pub open spec fn size_attribute(size: Option<u64>) -> Seq<Seq<char>> {
    match size {
        Some(n) => if n > 0 {
            seq!["size={"@ + decimal(n as nat) + "}"@]
        } else {
            Seq::<Seq<char>>::empty()
        },
        None => Seq::<Seq<char>>::empty(),
    }
}

/// The attributes of a file tag, in their fixed order: name, url, date, size.
pub open spec fn file_attributes(node: NodeView) -> Seq<Seq<char>> {
    quoted_attribute("name"@, Some(node.name)) + quoted_attribute("url"@, node.url)
        + quoted_attribute("date"@, node.date) + size_attribute(node.size)
}

/// The self-closing tag of a file.
pub open spec fn file_line(node: NodeView, level: nat) -> Seq<char> {
    indent(level) + "<File "@ + join(file_attributes(node), seq![' ']) + " />"@
}

/// The opening tag of a folder.
pub open spec fn folder_open_line(node: NodeView, level: nat) -> Seq<char> {
    indent(level) + "<Folder name=\""@ + node.name + "\">"@
}

/// The closing tag of a folder.
pub open spec fn folder_close_line(level: nat) -> Seq<char> {
    indent(level) + "</Folder>"@
}

/// The pieces that the first `n` nodes render to. A file gives its tag; a
/// folder gives its opening tag, the rendering of its children one level
/// deeper, and its closing tag.
pub open spec fn render_pieces(nodes: Seq<NodeView>, n: int, level: nat) -> Seq<Seq<char>>
    decreases nodes, n,
{
    if n <= 0 || n > nodes.len() {
        Seq::<Seq<char>>::empty()
    } else {
        let node = nodes[n - 1];
        render_pieces(nodes, n - 1, level) + (match node.node_type {
            NodeType::Folder => seq![
                folder_open_line(node, level),
                join(
                    render_pieces(node.children, node.children.len() as int, level + 1),
                    seq!['\n'],
                ),
                folder_close_line(level),
            ],
            NodeType::File => seq![file_line(node, level)],
        })
    }
}

/// The markup of a list of nodes: its pieces joined by line breaks. The
/// empty list gives the empty text.
pub open spec fn render(nodes: Seq<NodeView>, level: nat) -> Seq<char> {
    join(render_pieces(nodes, nodes.len() as int, level), seq!['\n'])
}

/// The children of a node's view are the views of its children.
pub proof fn lemma_children_view(node: FileNode)
    ensures
        node@.children == forest_view(node.children@),
{
    assert(node@.children.len() == node.children@.len());
    assert forall|i: int| 0 <= i < node.children@.len() implies node@.children[i]
        == node.children@[i]@ by {}
    assert(node@.children =~= forest_view(node.children@));
}

fn push_quoted(attrs: &mut Vec<Vec<char>>, key: &str, value: &String)
    ensures
        rows(final(attrs)@) == rows(old(attrs)@) + quoted_attribute(key@, Some(value@)),
{
    let mut a = to_chars(key);
    append_str(&mut a, "=\"");
    append_str(&mut a, value.as_str());
    append_str(&mut a, "\"");
    proof {
        lemma_rows_push(attrs@, a);
        assert(rows(attrs@).push(a@) =~= rows(attrs@) + quoted_attribute(key@, Some(value@)));
    }
    attrs.push(a);
}

fn file_line_exec(node: &FileNode, ind: &Vec<char>, Ghost(level): Ghost<nat>) -> (r: Vec<char>)
    requires
        ind@ == indent(level),
    ensures
        r@ == file_line(node@, level),
{
    let mut attrs: Vec<Vec<char>> = Vec::new();
    proof {
        assert(rows(attrs@) =~= Seq::<Seq<char>>::empty());
    }
    push_quoted(&mut attrs, "name", &node.name);
    match &node.url {
        Some(url) => {
            push_quoted(&mut attrs, "url", url);
        },
        None => {},
    }
    match &node.date {
        Some(date) => {
            push_quoted(&mut attrs, "date", date);
        },
        None => {},
    }
    match node.size {
        Some(size) => {
            if size > 0 {
                let mut a = to_chars("size={");
                append_chars(&mut a, &decimal_exec(size));
                append_str(&mut a, "}");
                proof {
                    lemma_rows_push(attrs@, a);
                    assert(rows(attrs@).push(a@) =~= rows(attrs@) + size_attribute(node.size));
                }
                attrs.push(a);
            }
        },
        None => {},
    }
    proof {
        assert(rows(attrs@) =~= file_attributes(node@));
    }
    let mut space: Vec<char> = Vec::new();
    space.push(' ');
    assert(space@ =~= seq![' ']);
    let mut r = ind.clone();
    append_str(&mut r, "<File ");
    append_chars(&mut r, &join_exec(&attrs, &space));
    append_str(&mut r, " />");
    r
}

fn render_exec(nodes: &[FileNode], ind: &Vec<char>, Ghost(level): Ghost<nat>) -> (r: Vec<char>)
    requires
        ind@ == indent(level),
    ensures
        r@ == render(forest_view(nodes@), level),
    decreases nodes@,
{
    let ghost all = forest_view(nodes@);
    let mut pieces: Vec<Vec<char>> = Vec::new();
    let mut i: usize = 0;
    proof {
        assert(rows(pieces@) =~= render_pieces(all, 0, level));
    }
    while i < nodes.len()
        invariant
            i <= nodes.len(),
            ind@ == indent(level),
            all == forest_view(nodes@),
            rows(pieces@) == render_pieces(all, i as int, level),
        decreases nodes.len() - i,
    {
        let node = &nodes[i];
        let ghost before = rows(pieces@);
        assert(all[i as int] == node@);
        match node.node_type {
            NodeType::Folder => {
                let mut open = ind.clone();
                append_str(&mut open, "<Folder name=\"");
                append_str(&mut open, node.name.as_str());
                append_str(&mut open, "\">");
                let mut deeper = ind.clone();
                deeper.push(' ');
                deeper.push(' ');
                proof {
                    assert(deeper@ =~= indent(level + 1));
                    lemma_children_view(*node);
                }
                let inner = render_exec(node.children.as_slice(), &deeper, Ghost(level + 1));
                let mut close = ind.clone();
                append_str(&mut close, "</Folder>");
                proof {
                    lemma_rows_push(pieces@, open);
                    lemma_rows_push(pieces@.push(open), inner);
                    lemma_rows_push(pieces@.push(open).push(inner), close);
                    assert(before.push(open@).push(inner@).push(close@) =~= before + seq![
                        open@,
                        inner@,
                        close@,
                    ]);
                }
                pieces.push(open);
                pieces.push(inner);
                pieces.push(close);
            },
            NodeType::File => {
                let line = file_line_exec(node, ind, Ghost(level));
                proof {
                    lemma_rows_push(pieces@, line);
                    assert(before.push(line@) =~= before + seq![line@]);
                }
                pieces.push(line);
            },
        }
        i += 1;
    }
    let mut newline: Vec<char> = Vec::new();
    newline.push('\n');
    assert(newline@ =~= seq!['\n']);
    join_exec(&pieces, &newline)
}

/// Convert a file tree to the markup of the `Files` component, indented by
/// two spaces for each level from `indent_level` on.
pub fn tree_to_jsx(nodes: &[FileNode], indent_level: usize) -> (r: String)
    ensures
        r@ == render(forest_view(nodes@), indent_level as nat),
{
    let mut ind: Vec<char> = Vec::new();
    let mut k: usize = 0;
    while k < indent_level
        invariant
            k <= indent_level,
            ind@ == indent(k as nat),
        decreases indent_level - k,
    {
        ind.push(' ');
        ind.push(' ');
        k += 1;
        proof {
            assert(ind@ =~= indent((k - 1) as nat) + seq![' ', ' ']);
        }
    }
    from_chars(&render_exec(nodes, &ind, Ghost(indent_level as nat)))
}

/// What the manifest entry of a file gives its node.
pub struct LeafView {
    pub url: Seq<char>,
    pub size: Option<u64>,
    pub date: Option<Seq<char>>,
}

/// The data of a file node, ready to be put into the tree.
pub struct Leaf {
    pub url: String,
    pub size: Option<u64>,
    pub date: Option<String>,
}

impl View for Leaf {
    type V = LeafView;

    open spec fn view(&self) -> LeafView {
        LeafView { url: self.url@, size: self.size, date: text_view(self.date) }
    }
}

/// The first index at or after `from` of a node called `name`; the length of
/// the list where there is none.
pub open spec fn child_index(forest: Seq<NodeView>, name: Seq<char>, from: int) -> int
    decreases forest.len() - from,
{
    if from < 0 || from >= forest.len() {
        forest.len() as int
    } else if forest[from].name == name {
        from
    } else {
        child_index(forest, name, from + 1)
    }
}

/// A folder without children.
pub open spec fn empty_folder(name: Seq<char>) -> NodeView {
    NodeView {
        name,
        node_type: NodeType::Folder,
        children: Seq::empty(),
        url: None,
        size: None,
        date: None,
    }
}

/// The node as a file with the data of `leaf`; its children stay.
pub open spec fn as_file(node: NodeView, leaf: LeafView) -> NodeView {
    NodeView {
        name: node.name,
        node_type: NodeType::File,
        children: node.children,
        url: Some(leaf.url),
        size: leaf.size,
        date: leaf.date,
    }
}

/// The node with other children.
pub open spec fn with_children(node: NodeView, children: Seq<NodeView>) -> NodeView {
    NodeView {
        name: node.name,
        node_type: node.node_type,
        children,
        url: node.url,
        size: node.size,
        date: node.date,
    }
}

/// The forest after the path `parts` was entered with the data `leaf`:
/// nodes are found by name and made as folders where they are missing, and
/// the node of the last part becomes a file.
pub open spec fn insert_path(forest: Seq<NodeView>, parts: Seq<Seq<char>>, leaf: LeafView) -> Seq<
    NodeView,
>
    decreases parts.len(),
{
    if parts.len() == 0 {
        forest
    } else {
        let idx = child_index(forest, parts[0], 0);
        let child = if idx < forest.len() {
            forest[idx]
        } else {
            empty_folder(parts[0])
        };
        let entered = if parts.len() == 1 {
            as_file(child, leaf)
        } else {
            with_children(child, insert_path(child.children, parts.skip(1), leaf))
        };
        if idx < forest.len() {
            forest.update(idx, entered)
        } else {
            forest.push(entered)
        }
    }
}

/// The data that the node of a manifest entry gets.
pub open spec fn leaf_of(repo: Seq<char>, entry: EntryView) -> LeafView {
    LeafView {
        url: download_url(repo, entry.path),
        size: entry.meta.size,
        date: match entry.meta.time {
            Some(t) => date_text(t as int),
            None => None,
        },
    }
}

/// The unordered tree of the first `n` manifest entries: each listed path
/// entered in turn, the others passed over.
pub open spec fn trie_of(entries: Seq<EntryView>, repo: Seq<char>, n: int) -> Seq<NodeView>
    decreases n,
{
    if n <= 0 || n > entries.len() {
        Seq::empty()
    } else {
        let before = trie_of(entries, repo, n - 1);
        let entry = entries[n - 1];
        if included(entry.path) {
            insert_path(before, split(entry.path, '/'), leaf_of(repo, entry))
        } else {
            before
        }
    }
}

/// The lower-case form of a text (`str::to_lowercase`).
pub uninterp spec fn lowercase_text(s: Seq<char>) -> Seq<char>;

/// The lower-case form of a text: for an ASCII text each upper-case letter
/// as its lower-case letter, for any other text what Unicode gives.
pub open spec fn lower_text(s: Seq<char>) -> Seq<char> {
    if is_ascii_text(s) {
        ascii_lower_text(s)
    } else {
        lowercase_text(s)
    }
}

/// `str::to_lowercase`: the result is the lower-case form of the argument
/// as Unicode defines it, a function of the text alone. In an ASCII text
/// the upper-case letters become lower-case letters and nothing else
/// changes.
#[verifier::external_body]
fn to_lowercase(s: &str) -> (r: String)
    ensures
        is_ascii_text(s@) ==> r@ == ascii_lower_text(s@),
        !is_ascii_text(s@) ==> r@ == lowercase_text(s@),
{
    s.to_lowercase()
}

/// `a` comes before `b` in the order of strings, from index `i` on:
/// at the first difference the smaller code point decides, and a proper
/// prefix comes first.
pub open spec fn text_before_from(a: Seq<char>, b: Seq<char>, i: int) -> bool
    decreases b.len() - i,
{
    if i < 0 || i >= b.len() {
        false
    } else if i >= a.len() {
        true
    } else if a[i] != b[i] {
        (a[i] as u32) < (b[i] as u32)
    } else {
        text_before_from(a, b, i + 1)
    }
}

/// `a` comes strictly before `b` in the order of strings.
pub open spec fn text_before(a: Seq<char>, b: Seq<char>) -> bool {
    text_before_from(a, b, 0)
}

/// `a` is placed strictly before `b` among siblings: a folder before a
/// file, and within one kind the name that is smaller without regard to case.
pub open spec fn node_before(a: NodeView, b: NodeView) -> bool {
    (a.node_type == NodeType::Folder && b.node_type == NodeType::File) || (a.node_type
        == b.node_type && text_before(lower_text(a.name), lower_text(b.name)))
}

/// Where `x` goes into the ordered list `sorted`: before the first node at
/// or after `from` that it is placed before, else at the end.
pub open spec fn sorted_position(sorted: Seq<NodeView>, x: NodeView, from: int) -> int
    decreases sorted.len() - from,
{
    if from < 0 || from >= sorted.len() {
        sorted.len() as int
    } else if node_before(x, sorted[from]) {
        from
    } else {
        sorted_position(sorted, x, from + 1)
    }
}

/// The first `n` nodes of a forest in sibling order, each with its own
/// children in order. Nodes that the order does not tell apart stay in the
/// order in which they stood.
pub open spec fn sort_forest(forest: Seq<NodeView>, n: int) -> Seq<NodeView>
    decreases forest, n,
{
    if n <= 0 || n > forest.len() {
        Seq::empty()
    } else {
        let sorted = sort_forest(forest, n - 1);
        let node = forest[n - 1];
        let x = with_children(node, sort_forest(node.children, node.children.len() as int));
        sorted.insert(sorted_position(sorted, x, 0), x)
    }
}

/// A node with its subtree in order.
pub open spec fn sort_node(node: NodeView) -> NodeView {
    with_children(node, sort_forest(node.children, node.children.len() as int))
}

/// The file tree of a manifest: the listed paths entered into a tree, and
/// every sibling list put in order.
pub open spec fn file_tree(entries: Seq<EntryView>, repo: Seq<char>) -> Seq<NodeView> {
    let trie = trie_of(entries, repo, entries.len() as int);
    sort_forest(trie, trie.len() as int)
}

/// No node of the list is placed before one that stands earlier: folders
/// precede files, and within each kind the lower-case names do not decrease.
pub open spec fn siblings_ordered(s: Seq<NodeView>) -> bool {
    forall|i: int, j: int| 0 <= i < j < s.len() ==> !node_before(#[trigger] s[j], #[trigger] s[i])
}

/// Every sibling list of the forest is in order.
pub open spec fn tree_ordered(s: Seq<NodeView>) -> bool
    decreases s,
{
    siblings_ordered(s) && forall|i: int|
        0 <= i < s.len() ==> tree_ordered((#[trigger] s[i]).children)
}

fn child_index_exec(forest: &Vec<FileNode>, name: &Vec<char>) -> (r: usize)
    ensures
        r as int == child_index(forest_view(forest@), name@, 0),
        r <= forest.len(),
{
    let mut i: usize = 0;
    while i < forest.len()
        invariant
            i <= forest.len(),
            child_index(forest_view(forest@), name@, 0) == child_index(
                forest_view(forest@),
                name@,
                i as int,
            ),
        decreases forest.len() - i,
    {
        if chars_eq(&to_chars(forest[i].name.as_str()), name) {
            return i;
        }
        i += 1;
    }
    i
}

fn insert_path_exec(forest: &mut Vec<FileNode>, parts: &Vec<Vec<char>>, k: usize, leaf: Leaf)
    requires
        k < parts.len(),
    ensures
        forest_view(final(forest)@) == insert_path(
            forest_view(old(forest)@),
            rows(parts@).skip(k as int),
            leaf@,
        ),
    decreases parts.len() - k,
{
    let ghost before = forest_view(forest@);
    let ghost rest = rows(parts@).skip(k as int);
    let name = &parts[k];
    assert(rest[0] == name@);
    let idx = child_index_exec(forest, name);
    if idx == forest.len() {
        let node = FileNode {
            name: from_chars(name),
            node_type: NodeType::Folder,
            children: Vec::new(),
            url: None,
            size: None,
            date: None,
        };
        proof {
            assert(node@.children =~= Seq::<NodeView>::empty());
            assert(node@ == empty_folder(name@));
            assert(forest_view(forest@.push(node)) =~= before.push(node@));
        }
        forest.push(node);
    }
    let ghost grown = forest_view(forest@);
    let ghost child_view = grown[idx as int];
    let last = k + 1 == parts.len();
    let child = &mut forest[idx];
    if last {
        child.node_type = NodeType::File;
        child.url = Some(leaf.url);
        child.size = leaf.size;
        child.date = leaf.date;
    } else {
        proof {
            lemma_children_view(*child);
            assert(rest.skip(1) =~= rows(parts@).skip(k + 1));
        }
        insert_path_exec(&mut child.children, parts, k + 1, leaf);
    }
    proof {
        let entered = forest@[idx as int];
        lemma_children_view(entered);
        if last {
            assert(entered@.children =~= child_view.children);
            assert(entered@ == as_file(child_view, leaf@));
        } else {
            assert(entered@ == with_children(
                child_view,
                insert_path(child_view.children, rest.skip(1), leaf@),
            ));
        }
        assert(forest_view(forest@) =~= grown.update(idx as int, entered@));
        if idx < before.len() {
            assert(grown == before);
        } else {
            assert(grown.update(idx as int, entered@) =~= before.push(entered@));
        }
    }
}

fn text_before_exec(a: &Vec<char>, b: &Vec<char>) -> (r: bool)
    ensures
        r == text_before(a@, b@),
{
    let mut i: usize = 0;
    while i < b.len()
        invariant
            text_before(a@, b@) == text_before_from(a@, b@, i as int),
        decreases b.len() - i,
    {
        if i >= a.len() {
            return true;
        }
        if a[i] != b[i] {
            return (a[i] as u32) < (b[i] as u32);
        }
        i += 1;
    }
    false
}

fn node_before_exec(a: &FileNode, b: &FileNode) -> (r: bool)
    ensures
        r == node_before(a@, b@),
{
    match (a.node_type, b.node_type) {
        (NodeType::Folder, NodeType::File) => true,
        (NodeType::File, NodeType::Folder) => false,
        _ => {
            let x = to_chars(to_lowercase(a.name.as_str()).as_str());
            let y = to_chars(to_lowercase(b.name.as_str()).as_str());
            text_before_exec(&x, &y)
        },
    }
}

fn sorted_position_exec(sorted: &Vec<FileNode>, x: &FileNode) -> (r: usize)
    ensures
        r as int == sorted_position(forest_view(sorted@), x@, 0),
        r <= sorted.len(),
{
    let mut i: usize = 0;
    while i < sorted.len()
        invariant
            i <= sorted.len(),
            sorted_position(forest_view(sorted@), x@, 0) == sorted_position(
                forest_view(sorted@),
                x@,
                i as int,
            ),
        decreases sorted.len() - i,
    {
        if node_before_exec(x, &sorted[i]) {
            return i;
        }
        i += 1;
    }
    i
}

fn sort_forest_exec(forest: Vec<FileNode>) -> (r: Vec<FileNode>)
    ensures
        forest_view(r@) == sort_forest(forest_view(forest@), forest@.len() as int),
    decreases forest,
{
    let ghost all = forest_view(forest@);
    let mut rest = forest;
    let mut sorted: Vec<FileNode> = Vec::new();
    let ghost mut done: int = 0;
    proof {
        assert(forest_view(sorted@) =~= sort_forest(all, 0));
        assert(rest@ =~= forest@.skip(0));
    }
    while rest.len() > 0
        invariant
            0 <= done <= forest@.len(),
            all == forest_view(forest@),
            rest@ == forest@.skip(done),
            forest_view(sorted@) == sort_forest(all, done),
        decreases rest.len(),
    {
        let ghost before = forest_view(sorted@);
        let node = rest.remove(0);
        proof {
            assert(node == forest@[done]);
            assert(rest@ =~= forest@.skip(done + 1));
            lemma_children_view(node);
            assert(all[done] == node@);
        }
        let FileNode { name, node_type, children, url, size, date } = node;
        let kids = sort_forest_exec(children);
        let x = FileNode { name, node_type, children: kids, url, size, date };
        proof {
            lemma_children_view(x);
            assert(x@ == sort_node(all[done]));
        }
        let pos = sorted_position_exec(&sorted, &x);
        proof {
            assert(forest_view(sorted@.insert(pos as int, x)) =~= before.insert(pos as int, x@));
            done = done + 1;
        }
        sorted.insert(pos, x);
    }
    sorted
}

/// Build the nested, ordered file tree from the flat manifest.
///
/// Entries that the filter rejects leave no trace. A path that is a file
/// and also lies above other paths gives a file node that has children.
/// Where a path stands twice, the later entry gives the node its data.
pub fn build_file_tree(flat_data: &WorktreeData, repo_name: &str) -> (r: Vec<FileNode>)
    ensures
        forest_view(r@) == file_tree(flat_data.entries(), repo_name@),
        tree_ordered(forest_view(r@)),
        files_are_listed(forest_view(r@), flat_data.entries()),
        entries_are_present(forest_view(r@), repo_name@, flat_data.entries()),
{
    let repo = to_chars(repo_name);
    let ghost entries = flat_data.entries();
    let mut trie: Vec<FileNode> = Vec::new();
    let mut i: usize = 0;
    proof {
        assert(forest_view(trie@) =~= trie_of(entries, repo@, 0));
    }
    while i < flat_data.0.len()
        invariant
            i <= flat_data.0.len(),
            entries == flat_data.entries(),
            repo@ == repo_name@,
            forest_view(trie@) == trie_of(entries, repo@, i as int),
        decreases flat_data.0.len() - i,
    {
        let entry = &flat_data.0[i];
        let path = to_chars(entry.0.as_str());
        assert(entries[i as int].path == path@ && entries[i as int].meta == entry.1);
        if should_include_chars(&path) {
            let parts = split_exec(&path, '/');
            let leaf = Leaf {
                url: from_chars(&download_url_chars(&repo, &path)),
                size: entry.1.size,
                date: match entry.1.time {
                    Some(t) => format_timestamp(t),
                    None => None,
                },
            };
            proof {
                assert(rows(parts@).skip(0) =~= rows(parts@));
                assert(leaf@ == leaf_of(repo@, entries[i as int]));
            }
            insert_path_exec(&mut trie, &parts, 0, leaf);
        }
        i += 1;
    }
    proof {
        lemma_sort_ordered(forest_view(trie@), trie@.len() as int);
        lemma_file_tree_lists(entries, repo@);
        assert forall|k: int|
            0 <= k < entries.len() && included((#[trigger] entries[k]).path) && is_last_of_path(
                entries,
                k,
                entries.len() as int,
            ) implies entry_present(file_tree(entries, repo@), repo@, entries[k]) by {
            lemma_listed_entries_present(entries, repo@, k);
        }
    }
    sort_forest_exec(trie)
}

proof fn lemma_text_before_irreflexive(a: Seq<char>, i: int)
    ensures
        !text_before_from(a, a, i),
    decreases a.len() - i,
{
    if 0 <= i < a.len() {
        lemma_text_before_irreflexive(a, i + 1);
    }
}

proof fn lemma_text_before_transitive(a: Seq<char>, b: Seq<char>, c: Seq<char>, i: int)
    requires
        text_before_from(a, b, i),
        text_before_from(b, c, i),
    ensures
        text_before_from(a, c, i),
    decreases b.len() - i,
{
    if i < a.len() && a[i] == b[i] && b[i] == c[i] {
        lemma_text_before_transitive(a, b, c, i + 1);
    }
}

/// No node is placed before itself.
pub proof fn lemma_node_before_irreflexive(a: NodeView)
    ensures
        !node_before(a, a),
{
    lemma_text_before_irreflexive(lower_text(a.name), 0);
}

/// The sibling order is transitive.
pub proof fn lemma_node_before_transitive(a: NodeView, b: NodeView, c: NodeView)
    requires
        node_before(a, b),
        node_before(b, c),
    ensures
        node_before(a, c),
{
    if a.node_type == b.node_type && b.node_type == c.node_type {
        lemma_text_before_transitive(
            lower_text(a.name),
            lower_text(b.name),
            lower_text(c.name),
            0,
        );
    }
}

proof fn lemma_sorted_position(s: Seq<NodeView>, x: NodeView, from: int)
    requires
        0 <= from <= s.len(),
    ensures
        from <= sorted_position(s, x, from) <= s.len(),
        forall|j: int| from <= j < sorted_position(s, x, from) ==> !node_before(x, s[j]),
        sorted_position(s, x, from) < s.len() ==> node_before(x, s[sorted_position(s, x, from)]),
    decreases s.len() - from,
{
    if from < s.len() && !node_before(x, s[from]) {
        lemma_sorted_position(s, x, from + 1);
    }
}

proof fn lemma_insert_ordered(s: Seq<NodeView>, x: NodeView)
    requires
        siblings_ordered(s),
    ensures
        siblings_ordered(s.insert(sorted_position(s, x, 0), x)),
{
    let pos = sorted_position(s, x, 0);
    lemma_sorted_position(s, x, 0);
    let t = s.insert(pos, x);
    assert forall|i: int, j: int| 0 <= i < j < t.len() implies !node_before(
        #[trigger] t[j],
        #[trigger] t[i],
    ) by {
        if j == pos {
            assert(t[i] == s[i]);
        } else if i == pos {
            assert(t[j] == s[j - 1]);
            if node_before(s[j - 1], x) {
                lemma_node_before_transitive(s[j - 1], x, s[pos]);
                if j - 1 == pos {
                    lemma_node_before_irreflexive(s[pos]);
                }
            }
        } else {
            let a = if i < pos {
                i
            } else {
                i - 1
            };
            let b = if j < pos {
                j
            } else {
                j - 1
            };
            assert(t[i] == s[a] && t[j] == s[b]);
        }
    }
}

/// Sorting puts every sibling list in order.
pub proof fn lemma_sort_ordered(forest: Seq<NodeView>, n: int)
    ensures
        tree_ordered(sort_forest(forest, n)),
    decreases forest, n,
{
    if n <= 0 || n > forest.len() {
    } else {
        let sorted = sort_forest(forest, n - 1);
        let node = forest[n - 1];
        let kids = sort_forest(node.children, node.children.len() as int);
        let x = with_children(node, kids);
        let pos = sorted_position(sorted, x, 0);
        lemma_sort_ordered(forest, n - 1);
        lemma_sort_ordered(node.children, node.children.len() as int);
        lemma_sorted_position(sorted, x, 0);
        lemma_insert_ordered(sorted, x);
        let t = sorted.insert(pos, x);
        assert forall|i: int| 0 <= i < t.len() implies tree_ordered((#[trigger] t[i]).children) by {
            if i < pos {
                assert(t[i] == sorted[i]);
            } else if i > pos {
                assert(t[i] == sorted[i - 1]);
            }
        }
    }
}

/// The node that the path `parts` leads to, each part taken as the name of
/// a child.
pub open spec fn node_at(forest: Seq<NodeView>, parts: Seq<Seq<char>>) -> Option<NodeView>
    decreases parts.len(),
{
    if parts.len() == 0 {
        None
    } else {
        let idx = child_index(forest, parts[0], 0);
        if idx >= forest.len() {
            None
        } else if parts.len() == 1 {
            Some(forest[idx])
        } else {
            node_at(forest[idx].children, parts.skip(1))
        }
    }
}

/// The path leads to a node that is a file.
pub open spec fn is_file_at(forest: Seq<NodeView>, parts: Seq<Seq<char>>) -> bool {
    match node_at(forest, parts) {
        Some(node) => node.node_type == NodeType::File,
        None => false,
    }
}

/// The manifest holds a listed entry whose path has these parts.
pub open spec fn is_listed(entries: Seq<EntryView>, parts: Seq<Seq<char>>) -> bool {
    exists|k: int|
        0 <= k < entries.len() && included((#[trigger] entries[k]).path) && split(
            entries[k].path,
            '/',
        ) == parts
}

/// Every file of the forest stands at the path of a listed manifest entry.
pub open spec fn files_are_listed(forest: Seq<NodeView>, entries: Seq<EntryView>) -> bool {
    forall|parts: Seq<Seq<char>>| #[trigger] is_file_at(forest, parts) ==> is_listed(entries, parts)
}

/// No two siblings share a name.
pub open spec fn names_distinct(s: Seq<NodeView>) -> bool {
    forall|i: int, j: int| 0 <= i < j < s.len() ==> (#[trigger] s[i]).name != (#[trigger] s[j]).name
}

/// No two siblings share a name, anywhere in the forest.
pub open spec fn tree_distinct(s: Seq<NodeView>) -> bool
    decreases s,
{
    names_distinct(s) && forall|i: int|
        0 <= i < s.len() ==> tree_distinct((#[trigger] s[i]).children)
}

proof fn lemma_child_index(s: Seq<NodeView>, name: Seq<char>, from: int)
    requires
        0 <= from <= s.len(),
    ensures
        from <= child_index(s, name, from) <= s.len(),
        forall|j: int| from <= j < child_index(s, name, from) ==> s[j].name != name,
        child_index(s, name, from) < s.len() ==> s[child_index(s, name, from)].name == name,
    decreases s.len() - from,
{
    if from < s.len() && s[from].name != name {
        lemma_child_index(s, name, from + 1);
    }
}

proof fn lemma_child_index_is(s: Seq<NodeView>, name: Seq<char>, from: int, k: int)
    requires
        0 <= from <= k <= s.len(),
        forall|j: int| from <= j < k ==> s[j].name != name,
        k < s.len() ==> s[k].name == name,
    ensures
        child_index(s, name, from) == k,
    decreases s.len() - from,
{
    if from < k {
        lemma_child_index_is(s, name, from + 1, k);
    }
}

proof fn lemma_insert_distinct(forest: Seq<NodeView>, parts: Seq<Seq<char>>, leaf: LeafView)
    requires
        tree_distinct(forest),
    ensures
        tree_distinct(insert_path(forest, parts, leaf)),
    decreases parts.len(),
{
    if parts.len() > 0 {
        let idx = child_index(forest, parts[0], 0);
        lemma_child_index(forest, parts[0], 0);
        let child = if idx < forest.len() {
            forest[idx]
        } else {
            empty_folder(parts[0])
        };
        assert(tree_distinct(child.children));
        if parts.len() > 1 {
            lemma_insert_distinct(child.children, parts.skip(1), leaf);
        }
        let after = insert_path(forest, parts, leaf);
        assert forall|i: int| 0 <= i < after.len() implies (#[trigger] after[i]).name == (if i
            < forest.len() {
            forest[i].name
        } else {
            parts[0]
        }) && tree_distinct(after[i].children) by {
            if i != idx {
                assert(after[i] == forest[i]);
            }
        }
    }
}

proof fn lemma_skip_equal(p: Seq<Seq<char>>, parts: Seq<Seq<char>>)
    requires
        p.len() > 0,
        parts.len() > 0,
        p[0] == parts[0],
        p.skip(1) == parts.skip(1),
    ensures
        p == parts,
{
    assert(p.len() == p.skip(1).len() + 1);
    assert(parts.len() == parts.skip(1).len() + 1);
    assert forall|i: int| 0 <= i < p.len() implies p[i] == parts[i] by {
        if i > 0 {
            assert(p[i] == p.skip(1)[i - 1]);
            assert(parts[i] == parts.skip(1)[i - 1]);
        }
    }
    assert(p =~= parts);
}

proof fn lemma_insert_files(
    forest: Seq<NodeView>,
    parts: Seq<Seq<char>>,
    leaf: LeafView,
    p: Seq<Seq<char>>,
)
    requires
        parts.len() > 0,
        is_file_at(insert_path(forest, parts, leaf), p),
    ensures
        p == parts || is_file_at(forest, p),
    decreases parts.len(),
{
    let after = insert_path(forest, parts, leaf);
    let idx = child_index(forest, parts[0], 0);
    lemma_child_index(forest, parts[0], 0);
    let child = if idx < forest.len() {
        forest[idx]
    } else {
        empty_folder(parts[0])
    };
    let entered = after[idx];
    assert(p.len() > 0);
    lemma_child_index(after, p[0], 0);
    if p[0] == parts[0] {
        assert forall|j: int| 0 <= j < idx implies after[j].name != p[0] by {
            assert(after[j] == forest[j]);
        }
        lemma_child_index_is(after, p[0], 0, idx);
        assert(child_index(after, p[0], 0) == idx);
        if p.len() == 1 {
            assert(node_at(after, p) == Some(entered));
            if parts.len() == 1 {
                assert(p =~= parts);
            } else {
                assert(entered.node_type == child.node_type);
                assert(idx < forest.len());
                assert(node_at(forest, p) == Some(forest[idx]));
            }
        } else {
            assert(node_at(after, p) == node_at(entered.children, p.skip(1)));
            if idx >= forest.len() {
                assert(child.children.len() == 0);
            } else {
                assert(node_at(forest, p) == node_at(forest[idx].children, p.skip(1)));
            }
            if parts.len() > 1 {
                assert(entered.children == insert_path(child.children, parts.skip(1), leaf));
                lemma_insert_files(child.children, parts.skip(1), leaf, p.skip(1));
                if p.skip(1) == parts.skip(1) {
                    lemma_skip_equal(p, parts);
                } else {
                    assert(is_file_at(child.children, p.skip(1)));
                    assert(idx < forest.len());
                }
            } else {
                assert(entered.children == child.children);
                assert(idx < forest.len());
            }
        }
    } else {
        let q = child_index(forest, p[0], 0);
        lemma_child_index(forest, p[0], 0);
        if q < forest.len() {
            assert forall|j: int| 0 <= j < q implies after[j].name != p[0] by {
                if j != idx {
                    assert(after[j] == forest[j]);
                }
            }
            assert(after[q] == forest[q]);
            lemma_child_index_is(after, p[0], 0, q);
            assert(node_at(after, p) == node_at(forest, p));
        } else {
            assert forall|j: int| 0 <= j < after.len() implies after[j].name != p[0] by {
                if j != idx {
                    assert(after[j] == forest[j]);
                }
            }
            assert(child_index(after, p[0], 0) >= after.len());
        }
    }
}

proof fn lemma_trie_distinct(entries: Seq<EntryView>, repo: Seq<char>, n: int)
    ensures
        tree_distinct(trie_of(entries, repo, n)),
    decreases n,
{
    if 0 < n <= entries.len() {
        lemma_trie_distinct(entries, repo, n - 1);
        let entry = entries[n - 1];
        if included(entry.path) {
            lemma_insert_distinct(
                trie_of(entries, repo, n - 1),
                split(entry.path, '/'),
                leaf_of(repo, entry),
            );
        }
    }
}

proof fn lemma_trie_files(entries: Seq<EntryView>, repo: Seq<char>, n: int, p: Seq<Seq<char>>)
    requires
        is_file_at(trie_of(entries, repo, n), p),
    ensures
        is_listed(entries, p),
    decreases n,
{
    if 0 < n <= entries.len() {
        let entry = entries[n - 1];
        if included(entry.path) {
            lemma_split_scan_nonempty(entry.path, '/', 0, 0);
            lemma_insert_files(
                trie_of(entries, repo, n - 1),
                split(entry.path, '/'),
                leaf_of(repo, entry),
                p,
            );
            if p != split(entry.path, '/') {
                lemma_trie_files(entries, repo, n - 1, p);
            }
        } else {
            lemma_trie_files(entries, repo, n - 1, p);
        }
    }
}

proof fn lemma_sort_members(forest: Seq<NodeView>, n: int, j: int)
    requires
        0 <= j < sort_forest(forest, n).len(),
    ensures
        exists|i: int| 0 <= i < n && i < forest.len() && sort_forest(forest, n)[j] == sort_node(
            #[trigger] forest[i],
        ),
    decreases n,
{
    if 0 < n <= forest.len() {
        let sorted = sort_forest(forest, n - 1);
        let x = sort_node(forest[n - 1]);
        let pos = sorted_position(sorted, x, 0);
        lemma_sorted_position(sorted, x, 0);
        if j < pos {
            lemma_sort_members(forest, n - 1, j);
        } else if j > pos {
            lemma_sort_members(forest, n - 1, j - 1);
        } else {
            assert(sort_forest(forest, n)[j] == sort_node(forest[n - 1]));
        }
    }
}

proof fn lemma_sort_files(forest: Seq<NodeView>, p: Seq<Seq<char>>)
    requires
        tree_distinct(forest),
        is_file_at(sort_forest(forest, forest.len() as int), p),
    ensures
        is_file_at(forest, p),
    decreases p.len(),
{
    let sorted = sort_forest(forest, forest.len() as int);
    let found = child_index(sorted, p[0], 0);
    lemma_child_index(sorted, p[0], 0);
    lemma_sort_members(forest, forest.len() as int, found);
    let i = choose|i: int| 0 <= i < forest.len() && sorted[found] == sort_node(#[trigger] forest[i]);
    let q = child_index(forest, p[0], 0);
    lemma_child_index(forest, p[0], 0);
    assert(forest[i].name == p[0]);
    assert(q == i);
    if p.len() > 1 {
        lemma_sort_files(forest[i].children, p.skip(1));
    }
}

/// Every file of the file tree stands at the path of a manifest entry that
/// the filter lets through.
pub proof fn lemma_file_tree_lists(entries: Seq<EntryView>, repo: Seq<char>)
    ensures
        files_are_listed(file_tree(entries, repo), entries),
{
    let trie = trie_of(entries, repo, entries.len() as int);
    lemma_trie_distinct(entries, repo, entries.len() as int);
    assert forall|parts: Seq<Seq<char>>| #[trigger]
        is_file_at(file_tree(entries, repo), parts) implies is_listed(entries, parts) by {
        lemma_sort_files(trie, parts);
        lemma_trie_files(entries, repo, entries.len() as int, parts);
    }
}

/// A manifest entry that the filter rejects is no file of the tree: not
/// one whose name is `.gitkeep`, `README.md`, `LICENSE` or `tag.txt`, not one
/// with an excluded extension, not one under the excluded directory.
pub proof fn lemma_excluded_entries_absent(entries: Seq<EntryView>, repo: Seq<char>, k: int)
    requires
        0 <= k < entries.len(),
        !included(entries[k].path),
    ensures
        !is_file_at(file_tree(entries, repo), split(entries[k].path, '/')),
{
    let parts = split(entries[k].path, '/');
    lemma_file_tree_lists(entries, repo);
    if is_file_at(file_tree(entries, repo), parts) {
        let j = choose|j: int|
            0 <= j < entries.len() && included((#[trigger] entries[j]).path) && split(
                entries[j].path,
                '/',
            ) == parts;
        lemma_split_injective(entries[j].path, entries[k].path, '/');
    }
}

/// A file's tag carries a size attribute exactly when the size is known
/// and not zero: then the attribute is the last one and gives the size in
/// decimal; else no attribute of the tag begins with `size=`.
pub proof fn lemma_size_attribute(node: NodeView)
    ensures
        match node.size {
            Some(n) => n > 0 ==> file_attributes(node).last() == "size={"@ + decimal(n as nat)
                + "}"@ && starts_with(file_attributes(node).last(), "size="@),
            None => true,
        },
        (node.size is None || node.size == Some(0u64)) ==> forall|i: int|
            0 <= i < file_attributes(node).len() ==> !starts_with(
                #[trigger] file_attributes(node)[i],
                "size="@,
            ),
{
    reveal_strlit("name");
    reveal_strlit("url");
    reveal_strlit("date");
    reveal_strlit("size=");
    reveal_strlit("size={");
    reveal_strlit("=\"");
    let attrs = file_attributes(node);
    let named = quoted_attribute("name"@, Some(node.name));
    let url = quoted_attribute("url"@, node.url);
    let date = quoted_attribute("date"@, node.date);
    if node.size is None || node.size == Some(0u64) {
        assert(size_attribute(node.size).len() == 0);
        assert forall|i: int| 0 <= i < attrs.len() implies !starts_with(
            #[trigger] attrs[i],
            "size="@,
        ) by {
            let a = attrs[i];
            assert(a[0] == 'n' || a[0] == 'u' || a[0] == 'd') by {
                if i < named.len() {
                    assert(a == named[i]);
                } else if i < named.len() + url.len() {
                    assert(a == url[i - named.len()]);
                } else {
                    assert(a == date[i - named.len() - url.len()]);
                }
            }
            if starts_with(a, "size="@) {
                assert(a.subrange(0, 5)[0] == 's');
            }
        }
    } else {
        let n = node.size->0;
        let last = "size={"@ + decimal(n as nat) + "}"@;
        assert(size_attribute(node.size) =~= seq![last]);
        assert(attrs.last() == last);
        assert(last.subrange(0, 5) =~= "size="@);
    }
}

/// The node is a file with the data of `leaf`.
pub open spec fn holds_leaf(node: NodeView, leaf: LeafView) -> bool {
    node.node_type == NodeType::File && node.url == Some(leaf.url) && node.size == leaf.size
        && node.date == leaf.date
}

/// The forest has, at the path of the entry, a file with the entry's data.
pub open spec fn entry_present(forest: Seq<NodeView>, repo: Seq<char>, entry: EntryView) -> bool {
    match node_at(forest, split(entry.path, '/')) {
        Some(node) => holds_leaf(node, leaf_of(repo, entry)),
        None => false,
    }
}

/// No entry among those before index `n` and behind index `k` has the
/// path of the entry at `k`.
pub open spec fn is_last_of_path(entries: Seq<EntryView>, k: int, n: int) -> bool {
    forall|j: int| k < j < n && j < entries.len() ==> (#[trigger] entries[j]).path != entries[k].path
}

/// Two nodes with the same kind and the same file data.
pub open spec fn same_data(a: NodeView, b: NodeView) -> bool {
    a.node_type == b.node_type && a.url == b.url && a.size == b.size && a.date == b.date
}

proof fn lemma_insert_self(forest: Seq<NodeView>, parts: Seq<Seq<char>>, leaf: LeafView)
    requires
        parts.len() > 0,
    ensures
        match node_at(insert_path(forest, parts, leaf), parts) {
            Some(node) => holds_leaf(node, leaf),
            None => false,
        },
    decreases parts.len(),
{
    let after = insert_path(forest, parts, leaf);
    let idx = child_index(forest, parts[0], 0);
    lemma_child_index(forest, parts[0], 0);
    let child = if idx < forest.len() {
        forest[idx]
    } else {
        empty_folder(parts[0])
    };
    assert forall|j: int| 0 <= j < idx implies after[j].name != parts[0] by {
        assert(after[j] == forest[j]);
    }
    lemma_child_index_is(after, parts[0], 0, idx);
    if parts.len() > 1 {
        lemma_insert_self(child.children, parts.skip(1), leaf);
    }
}

proof fn lemma_insert_keeps(
    forest: Seq<NodeView>,
    parts: Seq<Seq<char>>,
    leaf: LeafView,
    p: Seq<Seq<char>>,
)
    requires
        parts.len() > 0,
        p != parts,
        node_at(forest, p) is Some,
    ensures
        node_at(insert_path(forest, parts, leaf), p) is Some,
        same_data(node_at(insert_path(forest, parts, leaf), p)->0, node_at(forest, p)->0),
    decreases parts.len(),
{
    let after = insert_path(forest, parts, leaf);
    let idx = child_index(forest, parts[0], 0);
    lemma_child_index(forest, parts[0], 0);
    let q = child_index(forest, p[0], 0);
    lemma_child_index(forest, p[0], 0);
    assert forall|j: int| 0 <= j < q implies after[j].name != p[0] by {
        if j != idx {
            assert(after[j] == forest[j]);
        }
    }
    lemma_child_index_is(after, p[0], 0, q);
    if p[0] == parts[0] {
        assert(q == idx);
        if p.len() == 1 {
            if parts.len() == 1 {
                assert(p =~= parts);
            }
        } else if parts.len() > 1 {
            if p.skip(1) == parts.skip(1) {
                lemma_skip_equal(p, parts);
            }
            lemma_insert_keeps(forest[idx].children, parts.skip(1), leaf, p.skip(1));
        }
    } else {
        assert(after[q] == forest[q]);
    }
}

proof fn lemma_trie_present(entries: Seq<EntryView>, repo: Seq<char>, n: int, k: int)
    requires
        0 <= k < n <= entries.len(),
        included(entries[k].path),
        is_last_of_path(entries, k, n),
    ensures
        entry_present(trie_of(entries, repo, n), repo, entries[k]),
    decreases n,
{
    let entry = entries[n - 1];
    let before = trie_of(entries, repo, n - 1);
    lemma_split_scan_nonempty(entry.path, '/', 0, 0);
    if k == n - 1 {
        lemma_insert_self(before, split(entry.path, '/'), leaf_of(repo, entry));
    } else {
        lemma_trie_present(entries, repo, n - 1, k);
        if included(entry.path) {
            assert(entry.path != entries[k].path);
            if split(entries[k].path, '/') == split(entry.path, '/') {
                lemma_split_injective(entries[k].path, entry.path, '/');
            }
            lemma_insert_keeps(
                before,
                split(entry.path, '/'),
                leaf_of(repo, entry),
                split(entries[k].path, '/'),
            );
        }
    }
}

proof fn lemma_sort_covers(forest: Seq<NodeView>, n: int, i: int)
    requires
        0 <= i < n <= forest.len(),
    ensures
        exists|j: int|
            0 <= j < sort_forest(forest, n).len() && #[trigger] sort_forest(forest, n)[j]
                == sort_node(forest[i]),
    decreases n,
{
    let sorted = sort_forest(forest, n - 1);
    let x = sort_node(forest[n - 1]);
    let pos = sorted_position(sorted, x, 0);
    lemma_sorted_position(sorted, x, 0);
    let after = sort_forest(forest, n);
    if i == n - 1 {
        assert(after[pos] == x);
    } else {
        lemma_sort_covers(forest, n - 1, i);
        let j = choose|j: int| 0 <= j < sorted.len() && #[trigger] sorted[j] == sort_node(forest[i]);
        if j < pos {
            assert(after[j] == sorted[j]);
        } else {
            assert(after[j + 1] == sorted[j]);
        }
    }
}

proof fn lemma_sort_keeps(forest: Seq<NodeView>, p: Seq<Seq<char>>)
    requires
        tree_distinct(forest),
        node_at(forest, p) is Some,
    ensures
        node_at(sort_forest(forest, forest.len() as int), p) is Some,
        same_data(node_at(sort_forest(forest, forest.len() as int), p)->0, node_at(forest, p)->0),
    decreases p.len(),
{
    let sorted = sort_forest(forest, forest.len() as int);
    let q = child_index(forest, p[0], 0);
    lemma_child_index(forest, p[0], 0);
    lemma_sort_covers(forest, forest.len() as int, q);
    let j = choose|j: int| 0 <= j < sorted.len() && #[trigger] sorted[j] == sort_node(forest[q]);
    let found = child_index(sorted, p[0], 0);
    lemma_child_index(sorted, p[0], 0);
    assert(sorted[j].name == p[0]);
    assert(found <= j);
    lemma_sort_members(forest, forest.len() as int, found);
    let i = choose|i: int| 0 <= i < forest.len() && sorted[found] == sort_node(#[trigger] forest[i]);
    assert(forest[i].name == p[0]);
    assert(i == q);
    if p.len() > 1 {
        lemma_sort_keeps(forest[q].children, p.skip(1));
    }
}

/// Every listed manifest entry whose path no later entry has is a file of
/// the forest, with its data.
pub open spec fn entries_are_present(
    forest: Seq<NodeView>,
    repo: Seq<char>,
    entries: Seq<EntryView>,
) -> bool {
    forall|k: int|
        0 <= k < entries.len() && included((#[trigger] entries[k]).path) && is_last_of_path(
            entries,
            k,
            entries.len() as int,
        ) ==> entry_present(forest, repo, entries[k])
}

/// A manifest entry that the filter lets through, and whose path no later
/// entry has, is a file of the tree: at its path stands a file with its
/// download address, its size and its date.
pub proof fn lemma_listed_entries_present(entries: Seq<EntryView>, repo: Seq<char>, k: int)
    requires
        0 <= k < entries.len(),
        included(entries[k].path),
        is_last_of_path(entries, k, entries.len() as int),
    ensures
        entry_present(file_tree(entries, repo), repo, entries[k]),
{
    let trie = trie_of(entries, repo, entries.len() as int);
    lemma_trie_present(entries, repo, entries.len() as int, k);
    lemma_trie_distinct(entries, repo, entries.len() as int);
    lemma_sort_keeps(trie, split(entries[k].path, '/'));
}

/// `q` has at least one part and `parts` begins with the parts of `q`.
pub open spec fn is_prefix_of(q: Seq<Seq<char>>, parts: Seq<Seq<char>>) -> bool {
    0 < q.len() <= parts.len() && parts.take(q.len() as int) == q
}

/// The path `q` is that of a listed manifest entry or lies above one.
pub open spec fn is_covered(entries: Seq<EntryView>, q: Seq<Seq<char>>) -> bool {
    exists|k: int|
        0 <= k < entries.len() && included((#[trigger] entries[k]).path) && is_prefix_of(
            q,
            split(entries[k].path, '/'),
        )
}

proof fn lemma_prefix_step(q: Seq<Seq<char>>, parts: Seq<Seq<char>>)
    requires
        q.len() > 1,
        parts.len() > 1,
        q[0] == parts[0],
        is_prefix_of(q.skip(1), parts.skip(1)),
    ensures
        is_prefix_of(q, parts),
{
    let n = q.len() as int;
    assert(q.skip(1).len() == n - 1);
    assert(parts.skip(1).len() == parts.len() - 1);
    assert forall|i: int| 0 <= i < n implies parts.take(n)[i] == q[i] by {
        if i > 0 {
            assert(parts.skip(1).take(n - 1)[i - 1] == q.skip(1)[i - 1]);
            assert(parts.skip(1).take(n - 1)[i - 1] == parts[i]);
            assert(q.skip(1)[i - 1] == q[i]);
        }
    }
    assert(parts.take(n) =~= q);
}

proof fn lemma_insert_nodes(
    forest: Seq<NodeView>,
    parts: Seq<Seq<char>>,
    leaf: LeafView,
    q: Seq<Seq<char>>,
)
    requires
        parts.len() > 0,
        node_at(insert_path(forest, parts, leaf), q) is Some,
    ensures
        is_prefix_of(q, parts) || node_at(forest, q) is Some,
    decreases parts.len(),
{
    let after = insert_path(forest, parts, leaf);
    let idx = child_index(forest, parts[0], 0);
    lemma_child_index(forest, parts[0], 0);
    let child = if idx < forest.len() {
        forest[idx]
    } else {
        empty_folder(parts[0])
    };
    let entered = after[idx];
    assert(q.len() > 0);
    lemma_child_index(after, q[0], 0);
    if q[0] == parts[0] {
        if q.len() == 1 {
            assert(parts.take(1) =~= q);
        } else {
            assert forall|j: int| 0 <= j < idx implies after[j].name != q[0] by {
                assert(after[j] == forest[j]);
            }
            lemma_child_index_is(after, q[0], 0, idx);
            assert(node_at(after, q) == node_at(entered.children, q.skip(1)));
            if idx >= forest.len() {
                assert(child.children.len() == 0);
            } else {
                assert(node_at(forest, q) == node_at(forest[idx].children, q.skip(1)));
            }
            if parts.len() > 1 {
                assert(entered.children == insert_path(child.children, parts.skip(1), leaf));
                lemma_insert_nodes(child.children, parts.skip(1), leaf, q.skip(1));
                if is_prefix_of(q.skip(1), parts.skip(1)) {
                    lemma_prefix_step(q, parts);
                } else {
                    assert(node_at(child.children, q.skip(1)) is Some);
                    assert(idx < forest.len());
                }
            } else {
                assert(entered.children == child.children);
                assert(idx < forest.len());
            }
        }
    } else {
        let at = child_index(forest, q[0], 0);
        lemma_child_index(forest, q[0], 0);
        if at < forest.len() {
            assert forall|j: int| 0 <= j < at implies after[j].name != q[0] by {
                if j != idx {
                    assert(after[j] == forest[j]);
                }
            }
            assert(after[at] == forest[at]);
            lemma_child_index_is(after, q[0], 0, at);
            assert(node_at(after, q) == node_at(forest, q));
        } else {
            assert forall|j: int| 0 <= j < after.len() implies after[j].name != q[0] by {
                if j != idx {
                    assert(after[j] == forest[j]);
                }
            }
            assert(child_index(after, q[0], 0) >= after.len());
        }
    }
}

proof fn lemma_trie_nodes(entries: Seq<EntryView>, repo: Seq<char>, n: int, q: Seq<Seq<char>>)
    requires
        node_at(trie_of(entries, repo, n), q) is Some,
    ensures
        is_covered(entries, q),
    decreases n,
{
    if 0 < n <= entries.len() {
        let entry = entries[n - 1];
        if included(entry.path) {
            lemma_split_scan_nonempty(entry.path, '/', 0, 0);
            lemma_insert_nodes(
                trie_of(entries, repo, n - 1),
                split(entry.path, '/'),
                leaf_of(repo, entry),
                q,
            );
            if !is_prefix_of(q, split(entry.path, '/')) {
                lemma_trie_nodes(entries, repo, n - 1, q);
            }
        } else {
            lemma_trie_nodes(entries, repo, n - 1, q);
        }
    } else {
        assert(trie_of(entries, repo, n).len() == 0);
    }
}

proof fn lemma_sort_back(forest: Seq<NodeView>, p: Seq<Seq<char>>)
    requires
        tree_distinct(forest),
        node_at(sort_forest(forest, forest.len() as int), p) is Some,
    ensures
        node_at(forest, p) is Some,
        same_data(node_at(sort_forest(forest, forest.len() as int), p)->0, node_at(forest, p)->0),
    decreases p.len(),
{
    let sorted = sort_forest(forest, forest.len() as int);
    let found = child_index(sorted, p[0], 0);
    lemma_child_index(sorted, p[0], 0);
    lemma_sort_members(forest, forest.len() as int, found);
    let i = choose|i: int| 0 <= i < forest.len() && sorted[found] == sort_node(#[trigger] forest[i]);
    let at = child_index(forest, p[0], 0);
    lemma_child_index(forest, p[0], 0);
    assert(forest[i].name == p[0]);
    assert(at == i);
    if p.len() > 1 {
        lemma_sort_back(forest[i].children, p.skip(1));
    }
}

/// Every node of the file tree stands at the path of a listed manifest
/// entry or above one.
pub proof fn lemma_nodes_are_covered(entries: Seq<EntryView>, repo: Seq<char>, q: Seq<Seq<char>>)
    requires
        node_at(file_tree(entries, repo), q) is Some,
    ensures
        is_covered(entries, q),
{
    let trie = trie_of(entries, repo, entries.len() as int);
    lemma_trie_distinct(entries, repo, entries.len() as int);
    lemma_sort_back(trie, q);
    lemma_trie_nodes(entries, repo, entries.len() as int, q);
}

proof fn lemma_last_of_path(entries: Seq<EntryView>, k: int)
    requires
        0 <= k < entries.len(),
    ensures
        exists|j: int|
            k <= j < entries.len() && (#[trigger] entries[j]).path == entries[k].path
                && is_last_of_path(entries, j, entries.len() as int),
    decreases entries.len() - k,
{
    if is_last_of_path(entries, k, entries.len() as int) {
        assert(entries[k].path == entries[k].path);
    } else {
        let later = choose|j: int|
            k < j < entries.len() && (#[trigger] entries[j]).path == entries[k].path;
        lemma_last_of_path(entries, later);
    }
}

/// A folder of the file tree lies above a listed manifest entry: its path
/// is a proper beginning of the entry's path.
pub proof fn lemma_folders_lie_above(entries: Seq<EntryView>, repo: Seq<char>, q: Seq<Seq<char>>)
    requires
        node_at(file_tree(entries, repo), q) is Some,
        node_at(file_tree(entries, repo), q)->0.node_type == NodeType::Folder,
    ensures
        exists|k: int|
            0 <= k < entries.len() && included((#[trigger] entries[k]).path) && is_prefix_of(
                q,
                split(entries[k].path, '/'),
            ) && q.len() < split(entries[k].path, '/').len(),
{
    lemma_nodes_are_covered(entries, repo, q);
    let k = choose|k: int|
        0 <= k < entries.len() && included((#[trigger] entries[k]).path) && is_prefix_of(
            q,
            split(entries[k].path, '/'),
        );
    let parts = split(entries[k].path, '/');
    if q.len() == parts.len() {
        assert(parts.take(parts.len() as int) =~= parts);
        lemma_last_of_path(entries, k);
        let j = choose|j: int|
            k <= j < entries.len() && (#[trigger] entries[j]).path == entries[k].path
                && is_last_of_path(entries, j, entries.len() as int);
        lemma_listed_entries_present(entries, repo, j);
    }
}

/// A text with more than one part begins with its first part and the
/// separator.
pub proof fn lemma_first_part(s: Seq<char>, sep: char)
    requires
        split(s, sep).len() >= 2,
    ensures
        starts_with(s, split(s, sep)[0] + seq![sep]),
{
    let parts = split(s, sep);
    let rest = parts.skip(1);
    lemma_split_join(s, sep);
    assert(seq![parts[0]] + rest =~= parts);
    lemma_join_prepend(parts[0], rest, seq![sep]);
    let head = parts[0] + seq![sep];
    assert(s == head + join(rest, seq![sep]));
    assert(s.subrange(0, head.len() as int) =~= head);
}

/// Below the excluded directory nothing stands in the file tree, and a
/// node with the directory's name at the root can only be a file.
pub proof fn lemma_no_hidden_directory(entries: Seq<EntryView>, repo: Seq<char>, q: Seq<Seq<char>>)
    requires
        q.len() >= 1,
        q[0] == ".github"@,
    ensures
        match node_at(file_tree(entries, repo), q) {
            Some(node) => q.len() == 1 && node.node_type == NodeType::File,
            None => true,
        },
{
    reveal_strlit(".github");
    reveal_strlit(".github/");
    assert(".github"@ + seq!['/'] =~= ".github/"@);
    if node_at(file_tree(entries, repo), q) is Some {
        lemma_nodes_are_covered(entries, repo, q);
        let k = choose|k: int|
            0 <= k < entries.len() && included((#[trigger] entries[k]).path) && is_prefix_of(
                q,
                split(entries[k].path, '/'),
            );
        let parts = split(entries[k].path, '/');
        assert(parts.take(q.len() as int)[0] == q[0]);
        if parts.len() >= 2 {
            lemma_first_part(entries[k].path, '/');
        }
        assert(parts.len() == 1);
        if node_at(file_tree(entries, repo), q)->0.node_type == NodeType::Folder {
            lemma_folders_lie_above(entries, repo, q);
            let j = choose|j: int|
                0 <= j < entries.len() && included((#[trigger] entries[j]).path) && is_prefix_of(
                    q,
                    split(entries[j].path, '/'),
                ) && q.len() < split(entries[j].path, '/').len();
            assert(split(entries[j].path, '/').take(q.len() as int)[0] == q[0]);
            lemma_first_part(entries[j].path, '/');
        }
    }
}

proof fn lemma_hex_digit(d: u8)
    requires
        d < 16,
    ensures
        hex_digit(d) as u32 == (if d < 10 {
            0x30 + d
        } else {
            0x37 + d
        }),
        hex_digit(d) != '%',
        hex_digit(d) != '/',
{
}

proof fn lemma_encoded_byte(b: u8)
    ensures
        encoded_byte(b).len() == (if is_unreserved(b) {
            1nat
        } else {
            3nat
        }),
        forall|k: int| 0 <= k < encoded_byte(b).len() ==> #[trigger] encoded_byte(b)[k] != '/',
        forall|k: int|
            0 <= k < encoded_byte(b).len() ==> (#[trigger] encoded_byte(b)[k] == '%' <==> k == 0
                && !is_unreserved(b)),
        is_unreserved(b) ==> encoded_byte(b)[0] as u32 == b as u32,
{
    lemma_hex_digit(b / 16);
    lemma_hex_digit(b % 16);
}

proof fn lemma_encoded_shape(bytes: Seq<u8>)
    ensures
        has_no_char(percent_encoded(bytes), '/'),
        forall|i: int|
            0 <= i < percent_encoded(bytes).len() && #[trigger] percent_encoded(bytes)[i] == '%'
                ==> i + 2 < percent_encoded(bytes).len(),
        bytes.len() > 0 ==> percent_encoded(bytes).len() > 0,
    decreases bytes.len(),
{
    if bytes.len() > 0 {
        let head = percent_encoded(bytes.drop_last());
        let tail = encoded_byte(bytes.last());
        let all = percent_encoded(bytes);
        lemma_encoded_shape(bytes.drop_last());
        lemma_encoded_byte(bytes.last());
        assert(all == head + tail);
        assert forall|i: int| 0 <= i < all.len() implies #[trigger] all[i] != '/' && (all[i] == '%'
            ==> i + 2 < all.len()) by {
            if i < head.len() {
                assert(all[i] == head[i]);
            } else {
                assert(all[i] == tail[i - head.len()]);
            }
        }
    }
}

proof fn lemma_percent_injective(a: Seq<u8>, b: Seq<u8>)
    requires
        percent_encoded(a) == percent_encoded(b),
    ensures
        a == b,
    decreases a.len(),
{
    lemma_encoded_shape(a);
    lemma_encoded_shape(b);
    if a.len() == 0 || b.len() == 0 {
        assert(a =~= b);
    } else {
        let all = percent_encoded(a);
        let n = all.len() as int;
        let ea = percent_encoded(a.drop_last());
        let eb = percent_encoded(b.drop_last());
        let la = encoded_byte(a.last());
        let lb = encoded_byte(b.last());
        lemma_encoded_byte(a.last());
        lemma_encoded_byte(b.last());
        lemma_encoded_shape(a.drop_last());
        lemma_encoded_shape(b.drop_last());
        assert(all == ea + la);
        assert(all == eb + lb);
        // An escape is the last thing exactly where a percent sign stands third from the end.
        assert(!is_unreserved(a.last()) <==> (n >= 3 && all[n - 3] == '%')) by {
            if is_unreserved(a.last()) {
                if n >= 3 {
                    assert(all[n - 3] == ea[n - 3]);
                }
            } else {
                assert(all[n - 3] == la[0]);
            }
        }
        assert(!is_unreserved(b.last()) <==> (n >= 3 && all[n - 3] == '%')) by {
            if is_unreserved(b.last()) {
                if n >= 3 {
                    assert(all[n - 3] == eb[n - 3]);
                }
            } else {
                assert(all[n - 3] == lb[0]);
            }
        }
        if is_unreserved(a.last()) {
            assert(all[n - 1] == la[0]);
            assert(all[n - 1] == lb[0]);
            assert(a.last() == b.last());
            assert(ea =~= all.take(n - 1));
            assert(eb =~= all.take(n - 1));
        } else {
            assert(all[n - 2] == la[1] && all[n - 1] == la[2]);
            assert(all[n - 2] == lb[1] && all[n - 1] == lb[2]);
            lemma_hex_digit(a.last() / 16);
            lemma_hex_digit(a.last() % 16);
            lemma_hex_digit(b.last() / 16);
            lemma_hex_digit(b.last() % 16);
            assert(a.last() / 16 == b.last() / 16);
            assert(a.last() % 16 == b.last() % 16);
            assert(a.last() == b.last());
            assert(ea =~= all.take(n - 3));
            assert(eb =~= all.take(n - 3));
        }
        lemma_percent_injective(a.drop_last(), b.drop_last());
        assert(a =~= a.drop_last().push(a.last()));
        assert(b =~= b.drop_last().push(b.last()));
    }
}

proof fn lemma_piece_injective(x: Seq<char>, y: Seq<char>)
    requires
        percent_encoded(encode_utf8(x)) == percent_encoded(encode_utf8(y)),
    ensures
        x == y,
{
    lemma_percent_injective(encode_utf8(x), encode_utf8(y));
    vstd::utf8::encode_utf8_decode_utf8(x);
    vstd::utf8::encode_utf8_decode_utf8(y);
}

/// Two paths with the same download address in a repository are the same
/// path.
pub proof fn lemma_download_url_injective(repo: Seq<char>, a: Seq<char>, b: Seq<char>)
    requires
        download_url(repo, a) == download_url(repo, b),
    ensures
        a == b,
{
    let head = "https://gh.hoa.moe/github.com/HITSZ-OpenAuto/"@ + repo + "/raw/main/"@;
    let pa = encode_pieces(split(a, '/'));
    let pb = encode_pieces(split(b, '/'));
    let ja = join(pa, seq!['/']);
    let jb = join(pb, seq!['/']);
    assert(download_url(repo, a) == head + ja);
    assert(download_url(repo, b) == head + jb);
    assert(ja =~= (head + ja).skip(head.len() as int));
    assert(jb =~= (head + jb).skip(head.len() as int));
    lemma_split_scan_nonempty(a, '/', 0, 0);
    lemma_split_scan_nonempty(b, '/', 0, 0);
    assert forall|i: int| 0 <= i < pa.len() implies has_no_char(#[trigger] pa[i], '/') by {
        lemma_encoded_shape(encode_utf8(split(a, '/')[i]));
    }
    assert forall|i: int| 0 <= i < pb.len() implies has_no_char(#[trigger] pb[i], '/') by {
        lemma_encoded_shape(encode_utf8(split(b, '/')[i]));
    }
    lemma_join_split(pa, '/');
    lemma_join_split(pb, '/');
    assert(pa == pb);
    assert(split(a, '/').len() == split(b, '/').len());
    assert forall|i: int| 0 <= i < split(a, '/').len() implies split(a, '/')[i] == split(
        b,
        '/',
    )[i] by {
        assert(pa[i] == pb[i]);
        lemma_piece_injective(split(a, '/')[i], split(b, '/')[i]);
    }
    assert(split(a, '/') =~= split(b, '/'));
    lemma_split_injective(a, b, '/');
}

/// Every file of the file tree carries the download address of a listed
/// manifest entry whose path leads to it.
pub proof fn lemma_file_addresses(entries: Seq<EntryView>, repo: Seq<char>, q: Seq<Seq<char>>)
    requires
        is_file_at(file_tree(entries, repo), q),
    ensures
        exists|k: int|
            0 <= k < entries.len() && included((#[trigger] entries[k]).path) && split(
                entries[k].path,
                '/',
            ) == q && node_at(file_tree(entries, repo), q)->0.url == Some(
                download_url(repo, entries[k].path),
            ),
{
    lemma_file_tree_lists(entries, repo);
    let k = choose|k: int|
        0 <= k < entries.len() && included((#[trigger] entries[k]).path) && split(
            entries[k].path,
            '/',
        ) == q;
    lemma_last_of_path(entries, k);
    let j = choose|j: int|
        k <= j < entries.len() && (#[trigger] entries[j]).path == entries[k].path
            && is_last_of_path(entries, j, entries.len() as int);
    lemma_listed_entries_present(entries, repo, j);
    assert(included(entries[j].path) && split(entries[j].path, '/') == q);
}

/// No file of the file tree carries the download address of a manifest
/// entry that the filter rejects.
pub proof fn lemma_excluded_address_absent(
    entries: Seq<EntryView>,
    repo: Seq<char>,
    k: int,
    q: Seq<Seq<char>>,
)
    requires
        0 <= k < entries.len(),
        !included(entries[k].path),
        is_file_at(file_tree(entries, repo), q),
    ensures
        node_at(file_tree(entries, repo), q)->0.url != Some(download_url(repo, entries[k].path)),
{
    lemma_file_addresses(entries, repo, q);
    let j = choose|j: int|
        0 <= j < entries.len() && included((#[trigger] entries[j]).path) && split(
            entries[j].path,
            '/',
        ) == q && node_at(file_tree(entries, repo), q)->0.url == Some(
            download_url(repo, entries[j].path),
        );
    if download_url(repo, entries[j].path) == download_url(repo, entries[k].path) {
        lemma_download_url_injective(repo, entries[j].path, entries[k].path);
    }
}

/// The node stands somewhere in the forest, at the root or below it.
pub open spec fn is_node_of(forest: Seq<NodeView>, node: NodeView) -> bool
    decreases forest,
{
    exists|i: int|
        0 <= i < forest.len() && ((#[trigger] forest[i]) == node || is_node_of(
            forest[i].children,
            node,
        ))
}

proof fn lemma_node_has_path(forest: Seq<NodeView>, node: NodeView)
    requires
        tree_distinct(forest),
        is_node_of(forest, node),
    ensures
        exists|q: Seq<Seq<char>>| node_at(forest, q) == Some(node),
    decreases forest,
{
    let i = choose|i: int|
        0 <= i < forest.len() && ((#[trigger] forest[i]) == node || is_node_of(
            forest[i].children,
            node,
        ));
    let name = forest[i].name;
    assert forall|j: int| 0 <= j < i implies forest[j].name != name by {}
    lemma_child_index_is(forest, name, 0, i);
    if forest[i] == node {
        let q = seq![name];
        assert(node_at(forest, q) == Some(node));
    } else {
        lemma_node_has_path(forest[i].children, node);
        let below = choose|q: Seq<Seq<char>>| node_at(forest[i].children, q) == Some(node);
        let q = seq![name] + below;
        assert(q.skip(1) =~= below);
        assert(q[0] == name);
        assert(below.len() > 0);
        assert(node_at(forest, q) == Some(node));
    }
}

proof fn lemma_sort_distinct(forest: Seq<NodeView>, n: int)
    requires
        tree_distinct(forest),
    ensures
        tree_distinct(sort_forest(forest, n)),
    decreases forest, n,
{
    if 0 < n <= forest.len() {
        let sorted = sort_forest(forest, n - 1);
        let node = forest[n - 1];
        let x = sort_node(node);
        let pos = sorted_position(sorted, x, 0);
        lemma_sorted_position(sorted, x, 0);
        lemma_sort_distinct(forest, n - 1);
        lemma_sort_distinct(node.children, node.children.len() as int);
        let after = sorted.insert(pos, x);
        assert forall|j: int| 0 <= j < sorted.len() implies (#[trigger] sorted[j]).name
            != x.name by {
            lemma_sort_members(forest, n - 1, j);
            let i = choose|i: int|
                0 <= i < n - 1 && i < forest.len() && sort_forest(forest, n - 1)[j] == sort_node(
                    #[trigger] forest[i],
                );
            assert(forest[i].name != forest[n - 1].name);
        }
        assert forall|a: int, b: int| 0 <= a < b < after.len() implies (#[trigger] after[a]).name
            != (#[trigger] after[b]).name by {
            let ia = if a < pos {
                a
            } else {
                a - 1
            };
            let ib = if b < pos {
                b
            } else {
                b - 1
            };
            if a == pos {
                assert(after[b] == sorted[ib]);
            } else if b == pos {
                assert(after[a] == sorted[ia]);
            } else {
                assert(after[a] == sorted[ia] && after[b] == sorted[ib]);
            }
        }
        assert forall|j: int| 0 <= j < after.len() implies tree_distinct(
            (#[trigger] after[j]).children,
        ) by {
            if j < pos {
                assert(after[j] == sorted[j]);
            } else if j > pos {
                assert(after[j] == sorted[j - 1]);
            }
        }
    }
}

/// No file anywhere in the file tree carries the download address of a
/// manifest entry that the filter rejects: not one whose name is excluded,
/// not one with an excluded extension, not one under the excluded
/// directory.
pub proof fn lemma_excluded_address_nowhere(
    entries: Seq<EntryView>,
    repo: Seq<char>,
    k: int,
    node: NodeView,
)
    requires
        0 <= k < entries.len(),
        !included(entries[k].path),
        is_node_of(file_tree(entries, repo), node),
        node.node_type == NodeType::File,
    ensures
        node.url != Some(download_url(repo, entries[k].path)),
{
    let trie = trie_of(entries, repo, entries.len() as int);
    lemma_trie_distinct(entries, repo, entries.len() as int);
    lemma_sort_distinct(trie, trie.len() as int);
    lemma_node_has_path(file_tree(entries, repo), node);
    let q = choose|q: Seq<Seq<char>>| node_at(file_tree(entries, repo), q) == Some(node);
    lemma_excluded_address_absent(entries, repo, k, q);
}

/// No folder at the root of the file tree has the name of the excluded
/// directory, whatever the manifest holds.
pub proof fn lemma_no_hidden_root(entries: Seq<EntryView>, repo: Seq<char>, i: int)
    requires
        0 <= i < file_tree(entries, repo).len(),
        file_tree(entries, repo)[i].name == ".github"@,
    ensures
        file_tree(entries, repo)[i].node_type == NodeType::File,
{
    let tree = file_tree(entries, repo);
    let trie = trie_of(entries, repo, entries.len() as int);
    lemma_trie_distinct(entries, repo, entries.len() as int);
    lemma_sort_distinct(trie, trie.len() as int);
    assert forall|j: int| 0 <= j < i implies tree[j].name != ".github"@ by {}
    lemma_child_index_is(tree, ".github"@, 0, i);
    let q = seq![".github"@];
    assert(node_at(tree, q) == Some(tree[i]));
    lemma_no_hidden_directory(entries, repo, q);
}

} // verus!
