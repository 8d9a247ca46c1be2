use ttytips::config::Config;
use ttytips::engine::{DbNode, NodeType};
use ttytips::keys::Action;
use ttytips::session::{App, Command, Language, Pending};
use ttytips::ui::InputState;

fn node(name: &str, children: Vec<DbNode>) -> DbNode {
    DbNode {
        name: name.to_string(),
        path: format!("/r/Main/{}", name),
        node_type: if children.is_empty() { NodeType::File } else { NodeType::Folder },
        tags: vec!["t".to_string()],
        children,
    }
}

fn config() -> Config {
    Config { language: "ru".to_string(), db_root_path: "/r".to_string(), editor: "vim".to_string() }
}

fn describe(cs: &[Command]) -> Vec<String> {
    cs.iter()
        .map(|c| match c {
            Command::Quit => "quit".to_string(),
            Command::SaveConfig => "save".to_string(),
            Command::CreateDir { path, fatal } => format!("mkdir {} {}", path, fatal),
            Command::ListWorkspaces { root } => format!("list {}", root),
            Command::WriteFile { path, text } => format!("write {} {}", path, text.len()),
            Command::WriteFileIfMissing { path, .. } => format!("ensure {}", path),
            Command::AppendFile { path, text } => format!("append {} {}", path, text),
            Command::Remove { path } => format!("remove {}", path),
            Command::Edit { editor, path } => format!("edit {} {}", editor, path),
            Command::Export { source, target } => format!("export {} {}", source, target),
            Command::Reload { path } => format!("reload {}", path),
        })
        .collect()
}

fn started() -> App {
    let (mut app, cmds) = App::start(config());
    assert_eq!(describe(&cmds), vec!["mkdir /r true", "list /r"]);
    let cmds = app.workspaces_listed(vec!["/r/Main".to_string(), "/r/Work".to_string()]);
    assert_eq!(describe(&cmds), vec!["ensure /r/Main/Inbox.md", "reload /r/Main"]);
    app.nodes_loaded(vec![node("Linux", vec![node("Git.md", vec![])]), node("Docker.md", vec![])]);
    app
}

#[test]
fn start_up_opens_first_workspace() {
    let app = started();
    assert_eq!(app.db_path, "/r/Main");
    assert_eq!(app.language, Language::RU);
    assert_eq!(app.current_nodes.len(), 2);
    assert_eq!(app.filtered_nodes.len(), 2);
    assert!(matches!(app.pending, Pending::Idle));
}

#[test]
fn start_up_creates_default_workspace_when_none() {
    let (mut app, _) = App::start(Config { language: "en".to_string(), ..config() });
    assert_eq!(app.language, Language::EN);
    let cmds = app.workspaces_listed(vec![]);
    assert_eq!(describe(&cmds), vec!["mkdir /r/Main_DB true", "list /r"]);
    let cmds = app.workspaces_listed(vec!["/r/Main_DB".to_string()]);
    assert_eq!(describe(&cmds), vec!["ensure /r/Main_DB/Inbox.md", "reload /r/Main_DB"]);
}

#[test]
fn open_node_and_go_back() {
    let mut app = started();
    assert!(app.can_handle(Action::Select));
    assert!(app.handle_action(Action::Select).is_empty());
    assert_eq!(app.current_nodes[0].name, "Git.md");
    assert_eq!(app.history.len(), 1);
    app.handle_action(Action::GoBack);
    assert_eq!(app.current_nodes[0].name, "Linux");
    assert_eq!(app.selected, 0);
    assert!(app.history.is_empty());
}

#[test]
fn moving_stays_in_the_list() {
    let mut app = started();
    app.handle_action(Action::MoveUp);
    assert_eq!(app.selected, 0);
    app.handle_action(Action::MoveDown);
    app.handle_action(Action::MoveDown);
    assert_eq!(app.selected, 1);
    let cmds = app.handle_action(Action::Select);
    assert!(cmds.is_empty());
    assert_eq!(app.current_nodes.len(), 2);
}

#[test]
fn text_search_filters_while_typing() {
    let mut app = started();
    app.handle_action(Action::StartTextSearch);
    assert_eq!(app.mode, InputState::TextSearching);
    app.handle_action(Action::InputChar('D'));
    app.handle_action(Action::InputChar('o'));
    assert_eq!(app.buffer, "Do");
    assert_eq!(app.filtered_nodes.len(), 1);
    assert_eq!(app.filtered_nodes[0].name, "Docker.md");
    app.handle_action(Action::Backspace);
    app.handle_action(Action::Backspace);
    assert_eq!(app.filtered_nodes.len(), 2);
    app.handle_action(Action::Cancel);
    assert_eq!(app.mode, InputState::Normal);
    assert_eq!(app.buffer, "");
}

#[test]
fn quit_only_when_browsing() {
    let mut app = started();
    assert_eq!(describe(&app.handle_action(Action::Quit)), vec!["quit"]);
    app.handle_action(Action::OpenHelpMenu);
    assert!(app.handle_action(Action::Quit).is_empty());
}

#[test]
fn language_toggle_saves() {
    let mut app = started();
    assert_eq!(describe(&app.handle_action(Action::ToggleLanguage)), vec!["save"]);
    assert_eq!(app.language, Language::EN);
    assert_eq!(app.config.language, "en");
}

#[test]
fn settings_menu_rows() {
    let mut app = started();
    app.handle_action(Action::OpenSettingsMenu);
    app.handle_action(Action::Select);
    assert_eq!(app.config.language, "en");
    assert_eq!(app.language, Language::EN);
    app.handle_action(Action::MoveDown);
    app.handle_action(Action::Select);
    assert_eq!(app.config.editor, "neovim");
    app.handle_action(Action::Select);
    assert_eq!(app.config.editor, "nano");
    for _ in 0..5 {
        app.handle_action(Action::MoveDown);
    }
    assert_eq!(app.settings_row, 3);
    assert_eq!(describe(&app.handle_action(Action::Select)), vec!["save"]);
    assert_eq!(app.mode, InputState::Normal);
}

#[test]
fn changing_the_root_directory() {
    let mut app = started();
    app.handle_action(Action::OpenSettingsMenu);
    app.handle_action(Action::MoveDown);
    app.handle_action(Action::MoveDown);
    app.handle_action(Action::Select);
    assert_eq!(app.mode, InputState::SettingsPathInput);
    assert_eq!(app.buffer, "/r");
    app.handle_action(Action::InputChar('2'));
    let cmds = app.handle_action(Action::Submit);
    assert_eq!(describe(&cmds), vec!["mkdir /r2 false", "list /r2"]);
    assert_eq!(app.mode, InputState::SettingsMenu);
    let cmds = app.workspaces_listed(vec!["/r2/A".to_string()]);
    assert_eq!(describe(&cmds), vec!["reload /r2/A"]);
    assert_eq!(app.db_path, "/r2/A");
}

#[test]
fn creating_a_workspace() {
    let mut app = started();
    app.handle_action(Action::OpenWorkspaceSwitcher);
    app.handle_action(Action::CreateWorkspace);
    for c in "New".chars() {
        app.handle_action(Action::InputChar(c));
    }
    let cmds = app.handle_action(Action::Submit);
    assert_eq!(describe(&cmds)[0], "mkdir /r/New false");
    assert!(describe(&cmds)[1].starts_with("write /r/New/Inbox.md"));
    assert_eq!(describe(&cmds)[2], "list /r");
    let cmds = app.workspaces_listed(vec!["/r/Main".to_string(), "/r/New".to_string(), "/r/Work".to_string()]);
    assert_eq!(describe(&cmds), vec!["reload /r/New"]);
    assert_eq!(app.active_workspace, 1);
    assert_eq!(app.workspaces.len(), 3);
}

#[test]
fn switching_workspace() {
    let mut app = started();
    app.handle_action(Action::OpenWorkspaceSwitcher);
    app.handle_action(Action::MoveDown);
    app.handle_action(Action::MoveDown);
    assert_eq!(app.active_workspace, 1);
    let cmds = app.handle_action(Action::Select);
    assert_eq!(describe(&cmds), vec!["reload /r/Work"]);
    assert_eq!(app.mode, InputState::Normal);
}

#[test]
fn creating_notes_and_folders() {
    let mut app = started();
    app.handle_action(Action::CreateItem);
    for c in "tip.md".chars() {
        app.handle_action(Action::InputChar(c));
    }
    let cmds = app.handle_action(Action::Submit);
    match &cmds[0] {
        Command::WriteFile { path, text } => {
            assert_eq!(path, "/r/Main/tip.md");
            assert!(text.contains("\n# tip\n"));
        }
        _ => panic!("expected a note"),
    }
    assert_eq!(describe(&cmds)[1], "reload /r/Main");
    app.handle_action(Action::CreateItem);
    app.handle_action(Action::InputChar('d'));
    assert_eq!(describe(&app.handle_action(Action::Submit)), vec!["mkdir /r/Main/d false", "reload /r/Main"]);
}

#[test]
fn quick_inbox_and_delete() {
    let mut app = started();
    app.handle_action(Action::StartQuickInbox);
    app.handle_action(Action::InputChar('x'));
    let cmds = app.handle_action(Action::Submit);
    assert!(describe(&cmds)[0].starts_with("append /r/Main/Inbox.md \n## Заметка: x\n"));
    app.handle_action(Action::MoveDown);
    app.handle_action(Action::DeleteItem);
    assert_eq!(app.mode, InputState::ConfirmDelete);
    app.handle_action(Action::InputChar('Y'));
    assert!(app.can_handle(Action::Submit));
    let cmds = app.handle_action(Action::Submit);
    assert_eq!(describe(&cmds), vec!["remove /r/Main/Docker.md", "reload /r/Main"]);
    assert_eq!(app.selected, 0);
    app.handle_action(Action::DeleteItem);
    app.handle_action(Action::InputChar('n'));
    assert!(app.handle_action(Action::Submit).is_empty());
}

#[test]
fn edit_and_export() {
    let mut app = started();
    assert_eq!(
        describe(&app.handle_action(Action::EditItem)),
        vec!["edit vim /r/Main/Linux", "reload /r/Main"]
    );
    assert_eq!(
        describe(&app.handle_action(Action::ExportItem)),
        vec!["export /r/Main/Linux /r/Main/Linux_export.txt"]
    );
}

#[test]
fn selection_past_the_end_cannot_be_chosen() {
    let mut app = started();
    app.nodes_loaded(vec![]);
    assert!(!app.can_handle(Action::Select));
    assert!(app.can_handle(Action::EditItem));
    assert!(app.handle_action(Action::EditItem).is_empty());
}

#[test]
fn toggling_language_twice_gives_it_back() {
    let mut app = started();
    app.handle_action(Action::ToggleLanguage);
    app.handle_action(Action::ToggleLanguage);
    assert_eq!(app.language, Language::RU);
    assert_eq!(app.config.language, "ru");
}
