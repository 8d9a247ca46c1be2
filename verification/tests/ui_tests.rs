use ttytips::engine::NodeType;
use ttytips::ui::{
    centered_percentages, centered_rect, is_input_mode, node_prefix, preview, tags_display, InputState,
    LineKind,
};

#[test]
fn prefixes_of_tree_items() {
    assert_eq!(node_prefix(NodeType::Folder), "📁 ");
    assert_eq!(node_prefix(NodeType::File), "📝 ");
    assert_eq!(node_prefix(NodeType::MarkdownHeader { level: 1 }), "└─ ");
    assert_eq!(node_prefix(NodeType::MarkdownHeader { level: 3 }), "    └─ ");
    assert_eq!(node_prefix(NodeType::MarkdownHeader { level: 0 }), "└─ ");
}

#[test]
fn typing_modes() {
    assert!(is_input_mode(InputState::TextSearching));
    assert!(is_input_mode(InputState::SettingsPathInput));
    assert!(is_input_mode(InputState::ConfirmDelete));
    assert!(!is_input_mode(InputState::Normal));
    assert!(!is_input_mode(InputState::SettingsMenu));
    assert!(!is_input_mode(InputState::WorkspaceSwitching));
    assert!(!is_input_mode(InputState::HelpMenu));
}

const NOTE: &str = "Tags: #git #vcs\n# Git\nintro\n## Commit\n`git commit -m msg`\nsaves work\n## Push\ntags: #remote\n`git push`\n";

#[test]
fn header_preview_shows_its_section() {
    let (lines, tags) = preview(NOTE, NodeType::MarkdownHeader { level: 2 }, "Commit");
    let shown: Vec<(LineKind, &str)> = lines.iter().map(|l| (l.kind, l.text.as_str())).collect();
    assert_eq!(
        shown,
        vec![
            (LineKind::Heading, " ## Commit"),
            (LineKind::Code, "   git commit -m msg"),
            (LineKind::Plain, " saves work"),
        ]
    );
    assert_eq!(tags, vec!["git", "vcs"]);
}

#[test]
fn last_header_preview_reads_tags_inside_its_section() {
    let (lines, tags) = preview(NOTE, NodeType::MarkdownHeader { level: 2 }, "Push");
    let shown: Vec<&str> = lines.iter().map(|l| l.text.as_str()).collect();
    assert_eq!(shown, vec![" ## Push", "   git push"]);
    assert_eq!(tags, vec!["git", "vcs", "remote"]);
}

#[test]
fn file_preview_shows_whole_text_without_tags_lines() {
    let (lines, tags) = preview("Tags: #a\n# T\nbody`\n", NodeType::File, "x.md");
    let shown: Vec<(LineKind, &str)> = lines.iter().map(|l| (l.kind, l.text.as_str())).collect();
    assert_eq!(shown, vec![(LineKind::Heading, " # T"), (LineKind::Code, "   body")]);
    assert!(tags.is_empty());
}

#[test]
fn blank_or_missing_sections_have_no_preview() {
    let (lines, _) = preview("  \n \t", NodeType::File, "x.md");
    assert!(lines.is_empty());
    let (lines, _) = preview(NOTE, NodeType::MarkdownHeader { level: 1 }, "Absent");
    assert!(lines.is_empty());
}

#[test]
fn tag_line_text() {
    assert_eq!(tags_display(&vec![]), " нет привязанных тегов");
    let tags: Vec<String> = ["git", "git", "vcs", "git"].iter().map(|s| s.to_string()).collect();
    assert_eq!(tags_display(&tags), " #git #vcs #git");
}

#[test]
fn centred_percentages() {
    assert_eq!(centered_percentages(60), vec![20, 60, 20]);
    assert_eq!(centered_percentages(45), vec![27, 45, 27]);
    assert_eq!(centered_percentages(100), vec![0, 100, 0]);
}

#[test]
fn centred_popup_area() {
    assert_eq!(centered_rect(50, 40, (0, 0, 100, 50)), (25, 15, 50, 20));
    assert_eq!(centered_rect(60, 30, (0, 0, 200, 100)), (40, 35, 120, 30));
}

#[test]
fn centred_popup_stays_inside_an_uneven_area() {
    let r = (3, 2, 81, 13);
    let (x, y, w, h) = centered_rect(65, 15, r);
    assert!(x >= 3 && x as u32 + w as u32 <= 84);
    assert!(y >= 2 && y as u32 + h as u32 <= 15);
    assert_eq!((x, y, w, h), (17, 7, 52, 2));
}

#[test]
fn centred_popup_is_the_middle_of_the_middle_band() {
    assert_eq!(centered_rect(50, 40, (10, 20, 100, 100)), (35, 50, 50, 40));
}

#[test]
fn centred_popup_rounds_halves_up() {
    assert_eq!(centered_rect(50, 100, (0, 0, 10, 4)), (3, 0, 5, 4));
}
