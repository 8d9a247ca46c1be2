use ttytips::notes::{clean_export_text, inbox_entry, inbox_template, names_note, note_template};

#[test]
fn export_drops_marks_tags_and_blank_lines() {
    let text = "Tags: #git\n\n# Git\n## Commit\n`git commit`\n  plain  \n## tags: inside\n";
    assert_eq!(clean_export_text(text), "Git\nCommit\ngit commit\nplain");
}

#[test]
fn export_of_empty_note_is_empty() {
    assert_eq!(clean_export_text(""), "");
    assert_eq!(clean_export_text("###\n``\n"), "");
}

#[test]
fn note_template_uses_the_title() {
    assert_eq!(
        note_template("docker.md"),
        "Tags: #change_me #general\n\n# docker\n## Краткое описание совета\n`вставьте_команду_сюда`\n"
    );
    assert!(note_template("x.md.md").contains("\n# x\n"));
}

#[test]
fn names_of_notes() {
    assert!(names_note("a.md"));
    assert!(names_note(".md"));
    assert!(!names_note("folder"));
}

#[test]
fn inbox_texts() {
    assert_eq!(inbox_template(), "Tags: #inbox #new\n\n# Входящие заметки\n");
    assert_eq!(
        inbox_entry("buy milk"),
        "\n## Заметка: buy milk\n`введите детали команды позже через Vim`\n"
    );
}
