use ttytips::engine::{matches_node, prune_nodes, search_by_tags, search_by_text, DbNode, NodeType, SearchField};

fn node(name: &str, path: &str, node_type: NodeType, tags: &[&str], children: Vec<DbNode>) -> DbNode {
    DbNode {
        name: name.to_string(),
        path: path.to_string(),
        node_type,
        tags: tags.iter().map(|t| t.to_string()).collect(),
        children,
    }
}

fn sample() -> Vec<DbNode> {
    let git = node(
        "Git.md",
        "/db/Linux/Git.md",
        NodeType::File,
        &["git", "VCS"],
        vec![
            node("Git", "/db/Linux/Git.md", NodeType::MarkdownHeader { level: 1 }, &[], vec![]),
            node("Commit", "/db/Linux/Git.md", NodeType::MarkdownHeader { level: 2 }, &[], vec![]),
        ],
    );
    let docker = node("Docker.md", "/db/Docker.md", NodeType::File, &["Containers"], vec![]);
    let linux = node("Linux", "/db/Linux", NodeType::Folder, &[], vec![git]);
    vec![linux, docker]
}

fn names(nodes: &[DbNode]) -> Vec<String> {
    nodes.iter().map(|n| n.name.clone()).collect()
}

#[test]
fn empty_text_query_keeps_everything() {
    let nodes = sample();
    let r = search_by_text(&nodes, "");
    assert_eq!(names(&r), vec!["Linux", "Docker.md"]);
    assert_eq!(names(&r[0].children), vec!["Git.md"]);
    assert_eq!(names(&r[0].children[0].children), vec!["Git", "Commit"]);
}

#[test]
fn text_search_ignores_case_and_keeps_ancestors() {
    let nodes = sample();
    let r = search_by_text(&nodes, "COM");
    assert_eq!(names(&r), vec!["Linux"]);
    assert_eq!(names(&r[0].children), vec!["Git.md"]);
    assert_eq!(names(&r[0].children[0].children), vec!["Commit"]);
    assert_eq!(r[0].children[0].tags, vec!["git", "VCS"]);
    assert_eq!(r[0].children[0].path, "/db/Linux/Git.md");
}

#[test]
fn text_search_keeps_matching_node_with_pruned_children() {
    let nodes = sample();
    let r = search_by_text(&nodes, "git");
    assert_eq!(names(&r), vec!["Linux"]);
    assert_eq!(names(&r[0].children), vec!["Git.md"]);
    assert_eq!(names(&r[0].children[0].children), vec!["Git"]);
}

#[test]
fn text_search_without_match_is_empty() {
    let nodes = sample();
    assert!(search_by_text(&nodes, "kubernetes").is_empty());
}

#[test]
fn text_search_lowercases_cyrillic() {
    let nodes = vec![node("Заметки", "/db/Заметки", NodeType::Folder, &[], vec![])];
    let r = search_by_text(&nodes, "ЗАМ");
    assert_eq!(names(&r), vec!["Заметки"]);
}

#[test]
fn tag_search_matches_tags_not_names() {
    let nodes = sample();
    let r = search_by_tags(&nodes, "contain");
    assert_eq!(names(&r), vec!["Docker.md"]);
    assert!(search_by_tags(&nodes, "docker").is_empty());
}

#[test]
fn tag_search_ignores_case() {
    let nodes = sample();
    let r = search_by_tags(&nodes, "vcs");
    assert_eq!(names(&r), vec!["Linux"]);
    assert_eq!(names(&r[0].children), vec!["Git.md"]);
    assert!(r[0].children[0].children.is_empty());
}

#[test]
fn empty_tag_query_keeps_everything() {
    let nodes = sample();
    let r = search_by_tags(&nodes, "");
    assert_eq!(names(&r), vec!["Linux", "Docker.md"]);
}

#[test]
fn searching_twice_changes_nothing() {
    let nodes = sample();
    let once = search_by_text(&nodes, "it");
    let twice = search_by_text(&once, "it");
    assert_eq!(names(&once), names(&twice));
    assert_eq!(names(&once[0].children), names(&twice[0].children));
    assert_eq!(names(&once[0].children[0].children), names(&twice[0].children[0].children));
}

#[test]
fn clone_copies_the_whole_tree() {
    let nodes = sample();
    let c = nodes[0].clone();
    assert_eq!(c.name, "Linux");
    assert_eq!(c.children[0].children[1].name, "Commit");
    assert_eq!(c.children[0].children[1].node_type, NodeType::MarkdownHeader { level: 2 });
}

#[test]
fn narrowing_the_query_narrows_the_results() {
    let nodes = sample();
    let wide = search_by_text(&nodes, "i");
    let narrow_from_wide = search_by_text(&wide, "it");
    let narrow = search_by_text(&nodes, "it");
    assert_eq!(names(&narrow_from_wide), names(&narrow));
    assert_eq!(names(&narrow[0].children[0].children), vec!["Git", "Commit"]);
}

#[test]
fn pruning_with_a_lower_cased_query() {

    let nodes = sample();
    let q: Vec<char> = "commit".chars().collect();
    let r = prune_nodes(&nodes, SearchField::Name, &q);
    assert_eq!(names(&r), vec!["Linux"]);
    let upper: Vec<char> = "COMMIT".chars().collect();
    assert!(prune_nodes(&nodes, SearchField::Name, &upper).is_empty());
    let vcs: Vec<char> = "vcs".chars().collect();
    assert!(matches_node(&nodes[0].children[0], SearchField::Tags, &vcs));
    assert!(!matches_node(&nodes[0], SearchField::Tags, &vcs));
}

#[test]
fn queries_that_differ_in_case_give_the_same_result() {
    let nodes = sample();
    let a = names(&search_by_text(&nodes, "Docker"));
    assert_eq!(a, names(&search_by_text(&nodes, "DOCKER")));
    assert_eq!(a, names(&search_by_text(&nodes, "docker")));
    assert_eq!(a, vec!["Docker.md"]);
    let t = search_by_tags(&nodes, "vcs");
    assert_eq!(names(&t), names(&search_by_tags(&nodes, "VCS")));
}

#[test]
fn a_longer_query_keeps_a_part_of_what_a_shorter_one_keeps() {
    let nodes = sample();
    let short = search_by_text(&nodes, "g");
    let long = search_by_text(&nodes, "git");
    assert_eq!(names(&short), vec!["Linux"]);
    assert_eq!(names(&long), vec!["Linux"]);
    assert_eq!(names(&short[0].children[0].children), vec!["Git"]);
    assert_eq!(names(&long[0].children[0].children), vec!["Git"]);
    assert!(search_by_tags(&nodes, "containers").len() <= search_by_tags(&nodes, "c").len());
}

#[test]
fn a_tag_search_does_not_look_at_names_or_paths() {
    let renamed = vec![
        node(
            "Other",
            "/x/Other",
            NodeType::Folder,
            &[],
            vec![node(
                "Renamed.md",
                "/x/Other/Renamed.md",
                NodeType::File,
                &["git", "VCS"],
                vec![
                    node("A", "/x/Other/Renamed.md", NodeType::MarkdownHeader { level: 1 }, &[], vec![]),
                    node("B", "/x/Other/Renamed.md", NodeType::MarkdownHeader { level: 2 }, &[], vec![]),
                ],
            )],
        ),
        node("Elsewhere.md", "/x/Elsewhere.md", NodeType::File, &["Containers"], vec![]),
    ];
    let a = search_by_tags(&sample(), "vcs");
    let b = search_by_tags(&renamed, "vcs");
    assert_eq!(names(&a), vec!["Linux"]);
    assert_eq!(names(&b), vec!["Other"]);
    assert_eq!(names(&a[0].children), vec!["Git.md"]);
    assert_eq!(names(&b[0].children), vec!["Renamed.md"]);
    assert!(a[0].children[0].children.is_empty() && b[0].children[0].children.is_empty());
}

#[test]
fn a_matching_header_deep_in_the_tree_remains() {
    let r = search_by_text(&sample(), "commit");
    assert_eq!(names(&r), vec!["Linux"]);
    assert_eq!(names(&r[0].children), vec!["Git.md"]);
    assert_eq!(names(&r[0].children[0].children), vec!["Commit"]);
}
