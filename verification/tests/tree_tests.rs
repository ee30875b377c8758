use fuma_rs::models::{FileMetadata, FileNode, NodeType, WorktreeData};
use fuma_rs::tree::{build_file_tree, format_timestamp, generate_download_url, tree_to_jsx};

fn entry(path: &str, size: Option<u64>, time: Option<i64>) -> (String, FileMetadata) {
    (path.to_string(), FileMetadata { size, time })
}

#[test]
fn test_build_simple_tree() {
    let data = vec![
        entry("file1.txt", Some(100), Some(1640000000)),
        entry("folder/file2.txt", Some(200), Some(1640000000)),
    ];

    let worktree = WorktreeData(data);
    let tree = build_file_tree(&worktree, "test-repo");

    assert_eq!(tree.len(), 2); // file1.txt and folder
    assert!(tree.iter().any(|n| n.name == "file1.txt"));
    assert!(tree.iter().any(|n| n.name == "folder"));
}

#[test]
fn test_build_nested_tree() {
    let data = vec![
        entry("docs/notes/lecture1.pdf", Some(1024), Some(1640000000)),
        entry("docs/notes/lecture2.pdf", Some(2048), Some(1640000000)),
        entry("docs/assignments/hw1.pdf", Some(512), Some(1640000000)),
    ];

    let worktree = WorktreeData(data);
    let tree = build_file_tree(&worktree, "test-repo");

    assert_eq!(tree.len(), 1); // Only docs folder at root
    let docs_folder = &tree[0];
    assert_eq!(docs_folder.name, "docs");
    assert_eq!(docs_folder.node_type, NodeType::Folder);
    assert_eq!(docs_folder.children.len(), 2); // notes and assignments
}

#[test]
fn test_tree_sorting() {
    let data = vec![
        entry("z_file.txt", Some(100), None),
        entry("a_folder/file.txt", Some(100), None),
        entry("b_file.txt", Some(100), None),
    ];

    let worktree = WorktreeData(data);
    let tree = build_file_tree(&worktree, "test-repo");

    // Folders should come before files
    assert_eq!(tree[0].name, "a_folder");
    assert_eq!(tree[0].node_type, NodeType::Folder);
    assert_eq!(tree[1].name, "b_file.txt");
    assert_eq!(tree[2].name, "z_file.txt");
}

#[test]
fn test_exclusion_rules() {
    let data = vec![
        entry("README.md", Some(100), None),
        entry("valid.txt", Some(100), None),
        entry(".github/workflow.yml", Some(100), None),
    ];

    let worktree = WorktreeData(data);
    let tree = build_file_tree(&worktree, "test-repo");

    // Only valid.txt should remain
    assert_eq!(tree.len(), 1);
    assert_eq!(tree[0].name, "valid.txt");
}

#[test]
fn test_generate_download_url() {
    let url = generate_download_url("TEST101", "slides/lecture1.pdf");
    assert_eq!(
        url,
        "https://gh.hoa.moe/github.com/HITSZ-OpenAuto/TEST101/raw/main/slides/lecture1.pdf"
    );
}

#[test]
fn test_generate_download_url_with_spaces() {
    let url = generate_download_url("COURSE", "folder/file name.pdf");
    assert!(url.contains("file%20name.pdf"));
}

#[test]
fn test_generate_download_url_with_chinese() {
    let url = generate_download_url("COURSE", "作业/题目.pdf");
    assert!(url.contains("%E4%BD%9C%E4%B8%9A")); // Encoded Chinese
}

#[test]
fn test_format_timestamp() {
    let formatted = format_timestamp(1640000000);
    assert_eq!(formatted, Some("2021-12-20".to_string()));
}

#[test]
fn test_tree_to_jsx_simple() {
    let nodes = vec![FileNode {
        name: "test.pdf".to_string(),
        node_type: NodeType::File,
        children: vec![],
        url: Some("https://example.com/test.pdf".to_string()),
        size: Some(1024),
        date: Some("2021-12-20".to_string()),
    }];

    let jsx = tree_to_jsx(&nodes, 1);
    assert!(jsx.contains("<File"));
    assert!(jsx.contains("name=\"test.pdf\""));
    assert!(jsx.contains("url=\"https://example.com/test.pdf\""));
    assert!(jsx.contains("date=\"2021-12-20\""));
    assert!(jsx.contains("size={1024}"));
}

#[test]
fn test_tree_to_jsx_folder() {
    let nodes = vec![FileNode {
        name: "docs".to_string(),
        node_type: NodeType::Folder,
        children: vec![FileNode {
            name: "file.txt".to_string(),
            node_type: NodeType::File,
            children: vec![],
            url: Some("https://example.com/file.txt".to_string()),
            size: Some(100),
            date: None,
        }],
        url: None,
        size: None,
        date: None,
    }];

    let jsx = tree_to_jsx(&nodes, 1);
    assert!(jsx.contains("<Folder name=\"docs\">"));
    assert!(jsx.contains("</Folder>"));
    assert!(jsx.contains("<File name=\"file.txt\""));
}

#[test]
fn test_tree_to_jsx_zero_size_excluded() {
    let nodes = vec![FileNode {
        name: "empty.txt".to_string(),
        node_type: NodeType::File,
        children: vec![],
        url: Some("https://example.com/empty.txt".to_string()),
        size: Some(0),
        date: None,
    }];

    let jsx = tree_to_jsx(&nodes, 1);
    // Size should be excluded if 0
    assert!(!jsx.contains("size="));
}

#[test]
fn test_tree_to_jsx_indentation() {
    let nodes = vec![FileNode {
        name: "folder".to_string(),
        node_type: NodeType::Folder,
        children: vec![FileNode {
            name: "nested".to_string(),
            node_type: NodeType::Folder,
            children: vec![FileNode {
                name: "file.txt".to_string(),
                node_type: NodeType::File,
                children: vec![],
                url: Some("https://example.com/file.txt".to_string()),
                size: Some(100),
                date: None,
            }],
            url: None,
            size: None,
            date: None,
        }],
        url: None,
        size: None,
        date: None,
    }];

    let jsx = tree_to_jsx(&nodes, 1);
    // Check proper indentation
    assert!(jsx.contains("  <Folder name=\"folder\">"));
    assert!(jsx.contains("    <Folder name=\"nested\">"));
    assert!(jsx.contains("      <File name=\"file.txt\""));
}

#[test]
fn test_tree_to_jsx_empty() {
    let nodes: Vec<FileNode> = vec![];
    let jsx = tree_to_jsx(&nodes, 1);
    assert_eq!(jsx, "");
}

#[test]
fn siblings_are_ordered_without_regard_to_case() {
    let data = vec![
        entry("b.txt", None, None),
        entry("C.txt", None, None),
        entry("a.txt", None, None),
        entry("Zeta/x", None, None),
        entry("alpha/x", None, None),
    ];
    let tree = build_file_tree(&WorktreeData(data), "R");
    let names: Vec<&str> = tree.iter().map(|n| n.name.as_str()).collect();
    assert_eq!(names, vec!["alpha", "Zeta", "a.txt", "b.txt", "C.txt"]);
}

#[test]
fn build_file_tree_fills_the_file_nodes() {
    let data = vec![
        entry("docs/a b.pdf", Some(0), Some(1640000000)),
        entry("docs/.gitkeep", Some(1), None),
        entry("only/tag.txt", Some(1), None),
        entry("conf/x.toml", Some(1), None),
        entry("top", None, None),
    ];
    let tree = build_file_tree(&WorktreeData(data), "REPO");
    assert_eq!(tree.len(), 2);
    assert_eq!(tree[0].name, "docs");
    assert_eq!(tree[0].node_type, NodeType::Folder);
    assert_eq!(tree[0].url, None);
    assert_eq!(tree[0].children.len(), 1);
    let file = &tree[0].children[0];
    assert_eq!(file.name, "a b.pdf");
    assert_eq!(file.node_type, NodeType::File);
    assert_eq!(
        file.url,
        Some("https://gh.hoa.moe/github.com/HITSZ-OpenAuto/REPO/raw/main/docs/a%20b.pdf".to_string())
    );
    assert_eq!(file.size, Some(0));
    assert_eq!(file.date, Some("2021-12-20".to_string()));
    assert_eq!(tree[1].name, "top");
    assert_eq!(tree[1].node_type, NodeType::File);
    assert_eq!(tree[1].size, None);
    assert_eq!(tree[1].date, None);
}

#[test]
fn a_path_that_is_file_and_folder_is_a_file_with_children() {
    let data = vec![entry("a/b", Some(1), None), entry("a", Some(2), None)];
    let tree = build_file_tree(&WorktreeData(data), "R");
    assert_eq!(tree.len(), 1);
    assert_eq!(tree[0].name, "a");
    assert_eq!(tree[0].node_type, NodeType::File);
    assert_eq!(tree[0].size, Some(2));
    assert_eq!(tree[0].children.len(), 1);
    assert_eq!(tree[0].children[0].name, "b");
}

#[test]
fn the_later_of_two_entries_with_one_path_counts() {
    let data = vec![entry("a", Some(1), None), entry("a", Some(2), Some(0))];
    let tree = build_file_tree(&WorktreeData(data), "R");
    assert_eq!(tree.len(), 1);
    assert_eq!(tree[0].size, Some(2));
    assert_eq!(tree[0].date, Some("1970-01-01".to_string()));
}

#[test]
fn an_empty_manifest_gives_an_empty_tree() {
    assert!(build_file_tree(&WorktreeData(vec![]), "R").is_empty());
}

#[test]
fn format_timestamp_at_the_edges() {
    assert_eq!(format_timestamp(0), Some("1970-01-01".to_string()));
    assert_eq!(format_timestamp(86399), Some("1970-01-01".to_string()));
    assert_eq!(format_timestamp(86400), Some("1970-01-02".to_string()));
    assert_eq!(format_timestamp(-1), Some("1969-12-31".to_string()));
    assert_eq!(format_timestamp(i64::MAX), None);
    assert_eq!(format_timestamp(i64::MIN), None);
}

#[test]
fn download_url_encodes_each_part_and_keeps_the_slashes() {
    assert_eq!(
        generate_download_url("COURSE", "folder/file name.pdf"),
        "https://gh.hoa.moe/github.com/HITSZ-OpenAuto/COURSE/raw/main/folder/file%20name.pdf"
    );
    assert_eq!(
        generate_download_url("C", "作业/a-b_c.d~e/%/"),
        "https://gh.hoa.moe/github.com/HITSZ-OpenAuto/C/raw/main/%E4%BD%9C%E4%B8%9A/a-b_c.d~e/%25/"
    );
    assert_eq!(
        generate_download_url("C", ""),
        "https://gh.hoa.moe/github.com/HITSZ-OpenAuto/C/raw/main/"
    );
}

#[test]
fn tree_to_jsx_gives_the_exact_markup() {
    let nodes = vec![
        FileNode {
            name: "docs".to_string(),
            node_type: NodeType::Folder,
            children: vec![
                FileNode {
                    name: "empty".to_string(),
                    node_type: NodeType::Folder,
                    children: vec![],
                    url: None,
                    size: None,
                    date: None,
                },
                FileNode {
                    name: "a.pdf".to_string(),
                    node_type: NodeType::File,
                    children: vec![],
                    url: Some("u".to_string()),
                    size: Some(1024),
                    date: Some("2021-12-20".to_string()),
                },
            ],
            url: Some("ignored".to_string()),
            size: Some(5),
            date: None,
        },
        FileNode {
            name: "z".to_string(),
            node_type: NodeType::File,
            children: vec![],
            url: None,
            size: Some(0),
            date: None,
        },
    ];
    assert_eq!(
        tree_to_jsx(&nodes, 1),
        "  <Folder name=\"docs\">\n    <Folder name=\"empty\">\n\n    </Folder>\n    <File name=\"a.pdf\" url=\"u\" date=\"2021-12-20\" size={1024} />\n  </Folder>\n  <File name=\"z\" />"
    );
    let single = vec![FileNode {
        name: "z".to_string(),
        node_type: NodeType::File,
        children: vec![],
        url: None,
        size: None,
        date: None,
    }];
    assert_eq!(tree_to_jsx(&single, 0), "<File name=\"z\" />");
}

#[test]
fn nothing_of_a_rejected_entry_is_in_the_tree() {
    let data = vec![
        entry(".github/workflows/ci.yml", Some(1), None),
        entry(".github", Some(2), None),
        entry("folder/settings.toml", Some(3), None),
        entry("folder/kept.txt", Some(4), None),
        entry("docs/README.md", Some(5), None),
    ];
    let tree = build_file_tree(&WorktreeData(data), "R");
    fn urls(nodes: &[FileNode], out: &mut Vec<String>) {
        for node in nodes {
            if let Some(url) = &node.url {
                out.push(url.clone());
            }
            urls(&node.children, out);
        }
    }
    let mut all = Vec::new();
    urls(&tree, &mut all);
    all.sort();
    assert_eq!(
        all,
        vec![
            generate_download_url("R", ".github"),
            generate_download_url("R", "folder/kept.txt"),
        ]
    );
    for rejected in [".github/workflows/ci.yml", "folder/settings.toml", "docs/README.md"] {
        assert!(!all.contains(&generate_download_url("R", rejected)));
    }
    let names: Vec<(&str, NodeType)> = tree.iter().map(|n| (n.name.as_str(), n.node_type)).collect();
    assert_eq!(names, vec![("folder", NodeType::Folder), (".github", NodeType::File)]);
    assert!(tree[1].children.is_empty());
}

#[test]
fn download_urls_of_different_paths_differ() {
    let paths = ["a", "a/", "/a", "a b", "a%20b", "a/b", "a%2Fb", "%", "%25", "", "/", "é", "e"];
    for x in paths.iter() {
        for y in paths.iter() {
            assert_eq!(
                generate_download_url("R", x) == generate_download_url("R", y),
                x == y,
                "paths {:?} and {:?}",
                x,
                y
            );
        }
    }
}

#[test]
fn ascii_names_are_ordered_by_their_lower_case() {
    let data = vec![entry("B.txt", None, None), entry("a.txt", None, None), entry("C_1", None, None)];
    let tree = build_file_tree(&WorktreeData(data), "R");
    let names: Vec<&str> = tree.iter().map(|n| n.name.as_str()).collect();
    assert_eq!(names, vec!["a.txt", "B.txt", "C_1"]);
}
