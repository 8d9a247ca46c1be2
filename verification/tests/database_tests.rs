use ttytips::database::{load_database, is_markdown_name, list_workspaces, parse_md_content, FsEntry};
use ttytips::engine::NodeType;

fn dir(name: &str, children: Vec<FsEntry>) -> FsEntry {
    FsEntry { name: name.to_string(), is_dir: true, content: None, children }
}

fn file(name: &str, content: Option<&str>) -> FsEntry {
    FsEntry {
        name: name.to_string(),
        is_dir: false,
        content: content.map(|c| c.to_string()),
        children: Vec::new(),
    }
}

#[test]
fn markdown_tags_and_headers() {
    let (tags, headers) = parse_md_content(
        "Tags: #git #vcs notag\n# Git basics \n## Commit\ntext line\n### Push\r\n",
        "/db/Git.md",
    );
    assert_eq!(tags, vec!["git", "vcs"]);
    let names: Vec<&str> = headers.iter().map(|h| h.name.as_str()).collect();
    assert_eq!(names, vec!["Git basics", "Commit", "Push"]);
    assert_eq!(headers[0].node_type, NodeType::MarkdownHeader { level: 1 });
    assert_eq!(headers[1].node_type, NodeType::MarkdownHeader { level: 2 });
    assert_eq!(headers[2].node_type, NodeType::MarkdownHeader { level: 3 });
    assert_eq!(headers[2].path, "/db/Git.md");
    assert!(headers[0].tags.is_empty() && headers[0].children.is_empty());
}

#[test]
fn tags_line_is_found_in_any_case_and_hashes_are_trimmed() {
    let (tags, _) = parse_md_content("TAGS: ##docker# plain #k8s\n", "p");
    assert_eq!(tags, vec!["docker", "k8s"]);
}

#[test]
fn a_file_keeps_at_most_ten_tags() {
    let text = "tags: #a #b #c #d #e #f #g #h\ntags: #i #j #k #l\n";
    let (tags, _) = parse_md_content(text, "p");
    assert_eq!(tags, vec!["a", "b", "c", "d", "e", "f", "g", "h", "i", "j"]);
}

#[test]
fn header_level_counts_leading_hashes() {
    let (_, headers) = parse_md_content("####   Deep   \n#\n", "p");
    assert_eq!(headers.len(), 2);
    assert_eq!(headers[0].name, "Deep");
    assert_eq!(headers[0].node_type, NodeType::MarkdownHeader { level: 4 });
    assert_eq!(headers[1].name, "");
    assert_eq!(headers[1].node_type, NodeType::MarkdownHeader { level: 1 });
}

#[test]
fn empty_text_has_nothing() {
    let (tags, headers) = parse_md_content("", "p");
    assert!(tags.is_empty() && headers.is_empty());
}

#[test]
fn markdown_names() {
    assert!(is_markdown_name("a.md"));
    assert!(is_markdown_name("notes.md"));
    assert!(!is_markdown_name(".md"));
    assert!(!is_markdown_name("a.txt"));
    assert!(!is_markdown_name("a.md.bak"));
    assert!(!is_markdown_name("md"));
}

#[test]
fn database_is_sorted_and_skips_other_files() {
    let entries = vec![
        file("b.md", Some("Tags: #x\n# B\n")),
        file("readme.txt", None),
        dir("a", vec![file("z.md", Some("")), file("c.md", None)]),
        file("Inbox.md", Some("# In\n")),
    ];
    let nodes = load_database("/db", &entries);
    let names: Vec<&str> = nodes.iter().map(|n| n.name.as_str()).collect();
    assert_eq!(names, vec!["Inbox.md", "a", "b.md"]);
    assert_eq!(nodes[1].node_type, NodeType::Folder);
    assert!(nodes[1].tags.is_empty());
    let inner: Vec<&str> = nodes[1].children.iter().map(|n| n.name.as_str()).collect();
    assert_eq!(inner, vec!["c.md", "z.md"]);
    assert_eq!(nodes[2].node_type, NodeType::File);
    assert_eq!(nodes[2].tags, vec!["x"]);
    assert_eq!(nodes[2].children.len(), 1);
    assert_eq!(nodes[2].children[0].name, "B");
    assert_eq!(nodes[2].path, "/db/b.md");
    assert_eq!(nodes[2].children[0].path, "/db/b.md");
    assert_eq!(nodes[1].path, "/db/a");
    assert_eq!(nodes[1].children[0].path, "/db/a/c.md");
    assert!(nodes[1].children[0].children.is_empty());
}

#[test]
fn paths_join_the_root_with_or_without_a_trailing_slash() {
    let with_slash = load_database("/db/", &[dir("a", vec![file("n.md", Some(""))])]);
    assert_eq!(with_slash[0].path, "/db/a");
    assert_eq!(with_slash[0].children[0].path, "/db/a/n.md");
    let relative = load_database("notes", &[file("n.md", None)]);
    assert_eq!(relative[0].path, "notes/n.md");
}

#[test]
fn unreadable_markdown_file_is_an_empty_file_node() {
    let nodes = load_database("/db", &[file("x.md", None)]);
    assert_eq!(nodes.len(), 1);
    assert!(nodes[0].tags.is_empty() && nodes[0].children.is_empty());
}

#[test]
fn workspaces_are_sorted_directories_other_than_db() {
    let entries = vec![
        dir("zeta", vec![]),
        dir("db", vec![]),
        file("notes.md", None),
        dir("Alpha", vec![]),
        dir("alpha", vec![]),
    ];
    assert_eq!(list_workspaces("/r", &entries), vec!["/r/Alpha", "/r/alpha", "/r/zeta"]);
}

#[test]
fn no_workspaces_in_empty_directory() {
    assert!(list_workspaces("/r", &[]).is_empty());
}
