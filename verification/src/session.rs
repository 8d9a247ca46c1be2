//! The interactive session: its state, and how each action and each result of
//! outside work changes it and asks for more outside work.
use vstd::prelude::*;
use crate::text::{
    lowercase, path_join, same_path, ends_with, chars_of, string_of, lower_string, join_path,
    paths_equal,
};
use crate::engine::{
    DbNode, NodeView, SearchField, nodes_view, strings_view, search_result, search_by_text,
    search_by_tags, copy_nodes, lemma_nodes_view_index, lemma_nodes_view_len,
};
use crate::config::{Config, ConfigView};
use crate::keys::Action;
use crate::ui::InputState;
use crate::notes::{
    inbox_template_text, inbox_entry_text, note_template_text, strip_md, md_ext, inbox_template,
    inbox_entry, note_template, names_note,
};

verus! {

/// The interface language.
#[derive(Clone, Copy, Debug, PartialEq, Eq, Structural)]
pub enum Language {
    RU,
    EN,
}

/// Outside work that the session waits for the result of.
pub enum Pending {
    /// Nothing is awaited.
    Idle,
    /// At start-up, the workspaces of the root directory are awaited;
    /// `retried` once the default workspace was created.
    Startup { retried: bool },
    /// At start-up, the nodes of the first workspace are awaited.
    StartupLoad,
    /// After the root directory changed, its workspaces are awaited.
    RootChange { retried: bool },
    /// After a workspace was created at `path`, the workspaces are awaited.
    NewWorkspace { path: String },
}

/// The mathematical value of `Pending`.
pub enum PendingView {
    Idle,
    Startup { retried: bool },
    StartupLoad,
    RootChange { retried: bool },
    NewWorkspace { path: Seq<char> },
}

/// Outside work for the program around the session to do, in order.
pub enum Command {
    /// End the session.
    Quit,
    /// Write the settings file with the session's settings.
    SaveConfig,
    /// Create a directory and its parents; a failure ends the program when
    /// `fatal`, and is ignored otherwise.
    CreateDir { path: String, fatal: bool },
    /// List the workspaces under `root` and hand them to `workspaces_listed`.
    ListWorkspaces { root: String },
    /// Write a file, ignoring a failure.
    WriteFile { path: String, text: String },
    /// Write a file unless it exists; a failure ends the program.
    WriteFileIfMissing { path: String, text: String },
    /// Append to an existing file, ignoring a failure.
    AppendFile { path: String, text: String },
    /// Remove a file or a directory with its contents, ignoring a failure.
    Remove { path: String },
    /// Open a file in the editor (falling back to `nano`), the terminal left to it.
    Edit { editor: String, path: String },
    /// Write the plain-text export of a note; a failure ends the program.
    Export { source: String, target: String },
    /// Load the database of a workspace and hand it to `nodes_loaded`.
    Reload { path: String },
}

/// The mathematical value of a `Command`.
pub enum CommandView {
    Quit,
    SaveConfig,
    CreateDir { path: Seq<char>, fatal: bool },
    ListWorkspaces { root: Seq<char> },
    WriteFile { path: Seq<char>, text: Seq<char> },
    WriteFileIfMissing { path: Seq<char>, text: Seq<char> },
    AppendFile { path: Seq<char>, text: Seq<char> },
    Remove { path: Seq<char> },
    Edit { editor: Seq<char>, path: Seq<char> },
    Export { source: Seq<char>, target: Seq<char> },
    Reload { path: Seq<char> },
}

/// The state of the session.
pub struct App {
    /// The mode of the interface.
    pub mode: InputState,
    /// The text typed in the current prompt.
    pub buffer: String,
    /// The selected item of the tree (or of the search results while searching).
    pub selected: usize,
    /// Whether the preview, not the tree, has the focus.
    pub right_focused: bool,
    /// How far the preview is scrolled.
    pub text_scroll: u16,
    /// The selected row of the settings menu.
    pub settings_row: usize,
    /// How far the help is scrolled.
    pub help_scroll: u16,
    /// The selected workspace.
    pub active_workspace: usize,
    /// The workspaces under the root directory.
    pub workspaces: Vec<String>,
    /// The interface language.
    pub language: Language,
    /// The settings.
    pub config: Config,
    /// The directory of the open workspace.
    pub db_path: String,
    /// The level of the tree being browsed.
    pub current_nodes: Vec<DbNode>,
    /// The search results.
    pub filtered_nodes: Vec<DbNode>,
    /// The levels above, each with the selection it had.
    pub history: Vec<(Vec<DbNode>, usize)>,
    /// The outside work awaited.
    pub pending: Pending,
}

/// The mathematical value of the session's state.
#[verifier::ext_equal]
pub struct AppView {
    pub mode: InputState,
    pub buffer: Seq<char>,
    pub selected: usize,
    pub right_focused: bool,
    pub text_scroll: u16,
    pub settings_row: usize,
    pub help_scroll: u16,
    pub active_workspace: usize,
    pub workspaces: Seq<Seq<char>>,
    pub language: Language,
    pub config: ConfigView,
    pub db_path: Seq<char>,
    pub nodes: Seq<NodeView>,
    pub filtered: Seq<NodeView>,
    pub history: Seq<(Seq<NodeView>, usize)>,
    pub pending: PendingView,
}

/// The value of the levels above.
pub open spec fn history_view(h: Seq<(Vec<DbNode>, usize)>) -> Seq<(Seq<NodeView>, usize)> {
    h.map_values(|p: (Vec<DbNode>, usize)| (nodes_view(p.0@), p.1))
}

/// The value of the awaited work.
pub open spec fn pending_view(p: Pending) -> PendingView {
    match p {
        Pending::Idle => PendingView::Idle,
        Pending::Startup { retried } => PendingView::Startup { retried },
        Pending::StartupLoad => PendingView::StartupLoad,
        Pending::RootChange { retried } => PendingView::RootChange { retried },
        Pending::NewWorkspace { path } => PendingView::NewWorkspace { path: path@ },
    }
}

/// The value of a command.
pub open spec fn command_view(c: Command) -> CommandView {
    match c {
        Command::Quit => CommandView::Quit,
        Command::SaveConfig => CommandView::SaveConfig,
        Command::CreateDir { path, fatal } => CommandView::CreateDir { path: path@, fatal },
        Command::ListWorkspaces { root } => CommandView::ListWorkspaces { root: root@ },
        Command::WriteFile { path, text } => CommandView::WriteFile { path: path@, text: text@ },
        Command::WriteFileIfMissing { path, text } => CommandView::WriteFileIfMissing {
            path: path@,
            text: text@,
        },
        Command::AppendFile { path, text } => CommandView::AppendFile { path: path@, text: text@ },
        Command::Remove { path } => CommandView::Remove { path: path@ },
        Command::Edit { editor, path } => CommandView::Edit { editor: editor@, path: path@ },
        Command::Export { source, target } => CommandView::Export {
            source: source@,
            target: target@,
        },
        Command::Reload { path } => CommandView::Reload { path: path@ },
    }
}

/// The values of a list of commands.
pub open spec fn commands_view(cs: Seq<Command>) -> Seq<CommandView> {
    cs.map_values(|c: Command| command_view(c))
}

impl View for App {
    type V = AppView;

    open spec fn view(&self) -> AppView {
        AppView {
            mode: self.mode,
            buffer: self.buffer@,
            selected: self.selected,
            right_focused: self.right_focused,
            text_scroll: self.text_scroll,
            settings_row: self.settings_row,
            help_scroll: self.help_scroll,
            active_workspace: self.active_workspace,
            workspaces: strings_view(self.workspaces@),
            language: self.language,
            config: self.config@,
            db_path: self.db_path@,
            nodes: nodes_view(self.current_nodes@),
            filtered: nodes_view(self.filtered_nodes@),
            history: history_view(self.history@),
            pending: pending_view(self.pending),
        }
    }
}

// ---------------------------------------------------------------------------
// The transitions
// ---------------------------------------------------------------------------

/// The code of a language in the settings.
pub open spec fn language_code(l: Language) -> Seq<char> {
    match l {
        Language::RU => "ru"@,
        Language::EN => "en"@,
    }
}

/// The editor that follows `e` in the settings menu.
pub open spec fn next_editor(e: Seq<char>) -> Seq<char> {
    if e == "nano"@ {
        "vi"@
    } else if e == "vi"@ {
        "vim"@
    } else if e == "vim"@ {
        "neovim"@
    } else {
        "nano"@
    }
}

/// A mode that shows search results.
pub open spec fn is_searching(m: InputState) -> bool {
    m == InputState::TextSearching || m == InputState::TagSearching
}

/// `x - 1`, staying at 0.
pub open spec fn dec_sat(x: u16) -> u16 {
    if x == 0 {
        0
    } else {
        (x - 1) as u16
    }
}

/// `x + 1`, staying at the largest value.
pub open spec fn inc_sat(x: u16) -> u16 {
    if x == u16::MAX {
        x
    } else {
        (x + 1) as u16
    }
}

/// The inbox of a workspace.
pub open spec fn inbox_of(db: Seq<char>) -> Seq<char> {
    path_join(db, "Inbox.md"@)
}

/// The search results recomputed for the text typed, while searching.
pub open spec fn refilter(s: AppView) -> AppView {
    if s.mode == InputState::TextSearching {
        AppView { filtered: search_result(s.nodes, SearchField::Name, s.buffer), ..s }
    } else if s.mode == InputState::TagSearching {
        AppView { filtered: search_result(s.nodes, SearchField::Tags, s.buffer), ..s }
    } else {
        s
    }
}

/// Moving up: in the workspace list, in the settings menu, in the help, in the
/// preview, or in the tree.
pub open spec fn move_up(s: AppView) -> AppView {
    if s.mode == InputState::WorkspaceSwitching {
        if s.active_workspace > 0 {
            AppView { active_workspace: (s.active_workspace - 1) as usize, ..s }
        } else {
            s
        }
    } else if s.mode == InputState::SettingsMenu {
        if s.settings_row > 0 {
            AppView { settings_row: (s.settings_row - 1) as usize, ..s }
        } else {
            s
        }
    } else if s.mode == InputState::HelpMenu {
        AppView { help_scroll: dec_sat(s.help_scroll), ..s }
    } else if s.right_focused {
        AppView { text_scroll: dec_sat(s.text_scroll), ..s }
    } else if s.selected > 0 {
        AppView { selected: (s.selected - 1) as usize, text_scroll: 0, ..s }
    } else {
        s
    }
}

/// Moving down, never past the last workspace, the last settings row (the
/// fourth), or the last item shown.
pub open spec fn move_down(s: AppView) -> AppView {
    if s.mode == InputState::WorkspaceSwitching {
        if s.active_workspace < s.workspaces.len() - 1 {
            AppView { active_workspace: (s.active_workspace + 1) as usize, ..s }
        } else {
            s
        }
    } else if s.mode == InputState::SettingsMenu {
        if s.settings_row < 3 {
            AppView { settings_row: (s.settings_row + 1) as usize, ..s }
        } else {
            s
        }
    } else if s.mode == InputState::HelpMenu {
        AppView { help_scroll: inc_sat(s.help_scroll), ..s }
    } else if s.right_focused {
        AppView { text_scroll: inc_sat(s.text_scroll), ..s }
    } else {
        let limit = if is_searching(s.mode) {
            s.filtered.len()
        } else {
            s.nodes.len()
        };
        if limit > 0 && s.selected < limit - 1 {
            AppView { selected: (s.selected + 1) as usize, text_scroll: 0, ..s }
        } else {
            s
        }
    }
}

/// Choosing: a settings row acts (language, editor, workspaces directory,
/// save); in the tree, a node with children is opened; in the workspace list,
/// the selected workspace is opened.
pub open spec fn choose_item(s: AppView) -> (AppView, Seq<CommandView>) {
    if s.mode == InputState::SettingsMenu {
        if s.settings_row == 0 {
            let code = if s.config.language == "ru"@ {
                "en"@
            } else {
                "ru"@
            };
            (
                AppView {
                    config: ConfigView { language: code, ..s.config },
                    language: if code == "ru"@ {
                        Language::RU
                    } else {
                        Language::EN
                    },
                    ..s
                },
                seq![],
            )
        } else if s.settings_row == 1 {
            (
                AppView {
                    config: ConfigView { editor: next_editor(s.config.editor), ..s.config },
                    ..s
                },
                seq![],
            )
        } else if s.settings_row == 2 {
            (
                AppView {
                    mode: InputState::SettingsPathInput,
                    buffer: s.config.db_root_path,
                    ..s
                },
                seq![],
            )
        } else if s.settings_row == 3 {
            (AppView { mode: InputState::Normal, ..s }, seq![CommandView::SaveConfig])
        } else {
            (s, seq![])
        }
    } else if !s.right_focused && s.mode == InputState::Normal {
        let node = s.nodes[s.selected as int];
        if node.children.len() > 0 {
            (
                AppView {
                    history: s.history.push((s.nodes, s.selected)),
                    nodes: node.children,
                    filtered: node.children,
                    selected: 0,
                    text_scroll: 0,
                    ..s
                },
                seq![],
            )
        } else {
            (s, seq![])
        }
    } else if s.mode == InputState::WorkspaceSwitching {
        let db = s.workspaces[s.active_workspace as int];
        (
            AppView {
                db_path: db,
                history: seq![],
                selected: 0,
                text_scroll: 0,
                mode: InputState::Normal,
                ..s
            },
            seq![CommandView::Reload { path: db }],
        )
    } else {
        (s, seq![])
    }
}

/// Going back: out of a menu, out of the preview, or up one level of the tree
/// to the selection it had.
pub open spec fn go_back(s: AppView) -> AppView {
    if s.mode == InputState::SettingsMenu || s.mode == InputState::WorkspaceSwitching || s.mode
        == InputState::HelpMenu {
        AppView { mode: InputState::Normal, ..s }
    } else if s.right_focused {
        AppView { right_focused: false, ..s }
    } else if s.history.len() > 0 {
        let top = s.history.last();
        AppView {
            history: s.history.drop_last(),
            nodes: top.0,
            filtered: top.0,
            selected: top.1,
            text_scroll: 0,
            ..s
        }
    } else {
        s
    }
}

/// The state after a prompt is answered: the mode returns to normal (to the
/// settings menu from the directory prompt) and the typed text is cleared.
pub open spec fn answered(s: AppView) -> AppView {
    AppView {
        mode: if s.mode == InputState::SettingsPathInput {
            InputState::SettingsMenu
        } else {
            InputState::Normal
        },
        buffer: seq![],
        ..s
    }
}

/// Submitting the typed text: a new workspaces directory, a new workspace, a new
/// note (a name ending in `.md`) or folder, a quick note for the inbox, or the
/// confirmation (`y`, in any case) of deleting the selected item.
pub open spec fn submit(s: AppView) -> (AppView, Seq<CommandView>) {
    let done = answered(s);
    let text = s.buffer;
    if s.mode == InputState::SettingsPathInput {
        if text.len() > 0 {
            (
                AppView {
                    config: ConfigView { db_root_path: text, ..s.config },
                    pending: PendingView::RootChange { retried: false },
                    ..done
                },
                seq![
                    CommandView::CreateDir { path: text, fatal: false },
                    CommandView::ListWorkspaces { root: text },
                ],
            )
        } else {
            (done, seq![])
        }
    } else if s.mode == InputState::WorkspaceCreating {
        if text.len() > 0 {
            let path = path_join(s.config.db_root_path, text);
            (
                AppView { pending: PendingView::NewWorkspace { path }, ..done },
                seq![
                    CommandView::CreateDir { path, fatal: false },
                    CommandView::WriteFile { path: inbox_of(path), text: inbox_template_text() },
                    CommandView::ListWorkspaces { root: s.config.db_root_path },
                ],
            )
        } else {
            (done, seq![])
        }
    } else if s.mode == InputState::Creating {
        if text.len() > 0 {
            let path = path_join(s.db_path, text);
            let make = if ends_with(text, md_ext()) {
                CommandView::WriteFile { path, text: note_template_text(strip_md(text)) }
            } else {
                CommandView::CreateDir { path, fatal: false }
            };
            (done, seq![make, CommandView::Reload { path: s.db_path }])
        } else {
            (done, seq![])
        }
    } else if s.mode == InputState::QuickInboxInput {
        if text.len() > 0 {
            (
                done,
                seq![
                    CommandView::AppendFile {
                        path: inbox_of(s.db_path),
                        text: inbox_entry_text(text),
                    },
                    CommandView::Reload { path: s.db_path },
                ],
            )
        } else {
            (done, seq![])
        }
    } else if s.mode == InputState::ConfirmDelete {
        if lowercase(text) == seq!['y'] {
            (
                AppView { selected: 0, ..done },
                seq![
                    CommandView::Remove { path: s.nodes[s.selected as int].path },
                    CommandView::Reload { path: s.db_path },
                ],
            )
        } else {
            (done, seq![])
        }
    } else {
        (AppView { mode: InputState::Normal, buffer: seq![], ..s }, seq![])
    }
}

/// No outside work, and the state `t` when `cond` holds, else `s`.
pub open spec fn when(cond: bool, s: AppView, t: AppView) -> (AppView, Seq<CommandView>) {
    if cond {
        (t, seq![])
    } else {
        (s, seq![])
    }
}

/// What an action does to the session, and the outside work it asks for.
pub open spec fn step(s: AppView, a: Action) -> (AppView, Seq<CommandView>) {
    let normal = s.mode == InputState::Normal;
    let browsing = !s.right_focused && normal;
    match a {
        Action::Quit => (s, if normal {
            seq![CommandView::Quit]
        } else {
            seq![]
        }),
        Action::ToggleLanguage => {
            let l = if s.language == Language::RU {
                Language::EN
            } else {
                Language::RU
            };
            (
                AppView {
                    language: l,
                    config: ConfigView { language: language_code(l), ..s.config },
                    ..s
                },
                seq![CommandView::SaveConfig],
            )
        },
        Action::ToggleFocus => when(
            normal && s.nodes.len() > 0,
            s,
            AppView { right_focused: !s.right_focused, text_scroll: 0, ..s },
        ),
        Action::StartTextSearch => when(
            browsing,
            s,
            AppView { mode: InputState::TextSearching, buffer: seq![], ..s },
        ),
        Action::StartTagSearch => when(
            browsing,
            s,
            AppView { mode: InputState::TagSearching, buffer: seq![], ..s },
        ),
        Action::CreateItem => when(
            browsing,
            s,
            AppView { mode: InputState::Creating, buffer: seq![], ..s },
        ),
        Action::DeleteItem => when(
            browsing && s.nodes.len() > 0,
            s,
            AppView { mode: InputState::ConfirmDelete, buffer: seq![], ..s },
        ),
        Action::OpenWorkspaceSwitcher => when(
            normal,
            s,
            AppView { mode: InputState::WorkspaceSwitching, ..s },
        ),
        Action::CreateWorkspace => when(
            s.mode == InputState::WorkspaceSwitching,
            s,
            AppView { mode: InputState::WorkspaceCreating, buffer: seq![], ..s },
        ),
        Action::StartQuickInbox => when(
            normal,
            s,
            AppView { mode: InputState::QuickInboxInput, buffer: seq![], ..s },
        ),
        Action::OpenSettingsMenu => when(
            normal,
            s,
            AppView { mode: InputState::SettingsMenu, settings_row: 0, ..s },
        ),
        Action::OpenHelpMenu => when(
            normal,
            s,
            AppView { mode: InputState::HelpMenu, help_scroll: 0, ..s },
        ),
        Action::EditItem => (s, if s.nodes.len() > 0 && normal {
            seq![
                CommandView::Edit {
                    editor: s.config.editor,
                    path: s.nodes[s.selected as int].path,
                },
                CommandView::Reload { path: s.db_path },
            ]
        } else {
            seq![]
        }),
        Action::ExportItem => (s, if s.nodes.len() > 0 && normal {
            seq![
                CommandView::Export {
                    source: s.nodes[s.selected as int].path,
                    target: path_join(s.db_path, s.nodes[s.selected as int].name + "_export.txt"@),
                },
            ]
        } else {
            seq![]
        }),
        Action::MoveUp => (move_up(s), seq![]),
        Action::MoveDown => (move_down(s), seq![]),
        Action::MoveLeft | Action::MoveRight | Action::Select => choose_item(s),
        Action::GoBack => (go_back(s), seq![]),
        Action::InputChar(c) => (refilter(AppView { buffer: s.buffer.push(c), ..s }), seq![]),
        Action::Backspace => (
            refilter(
                AppView {
                    buffer: if s.buffer.len() > 0 {
                        s.buffer.drop_last()
                    } else {
                        s.buffer
                    },
                    ..s
                },
            ),
            seq![],
        ),
        Action::Cancel => (answered(s), seq![]),
        Action::Submit => submit(s),
        Action::Nothing => (s, seq![]),
    }
}

/// The actions that the session can take in state `s`: those for which the
/// selection points at an item or a workspace wherever it is used.
pub open spec fn can_step(s: AppView, a: Action) -> bool {
    let normal = s.mode == InputState::Normal;
    match a {
        Action::EditItem | Action::ExportItem => s.nodes.len() > 0 && normal ==> s.selected
            < s.nodes.len(),
        Action::MoveDown => s.mode == InputState::WorkspaceSwitching ==> s.workspaces.len() > 0,
        Action::MoveLeft | Action::MoveRight | Action::Select => {
            if s.mode == InputState::SettingsMenu {
                true
            } else if !s.right_focused && normal {
                s.selected < s.nodes.len()
            } else if s.mode == InputState::WorkspaceSwitching {
                s.active_workspace < s.workspaces.len()
            } else {
                true
            }
        },
        Action::Submit => s.mode == InputState::ConfirmDelete && lowercase(s.buffer) == seq!['y']
            ==> s.selected < s.nodes.len(),
        _ => true,
    }
}

/// The first of `ws` that is the same path as `p`.
pub open spec fn path_position(ws: Seq<Seq<char>>, p: Seq<char>) -> Option<int>
    decreases ws.len(),
{
    if ws.len() == 0 {
        None
    } else {
        match path_position(ws.drop_last(), p) {
            Some(i) => Some(i),
            None => if same_path(ws.last(), p) {
                Some(ws.len() - 1)
            } else {
                None
            },
        }
    }
}

/// The workspaces found under the root: at start-up or after the root changed,
/// none found leads to creating `Main_DB` and looking again, and else the first
/// one is opened (at start-up, after making sure that it has an inbox); after a
/// workspace was created, it is opened and selected.
pub open spec fn after_listing(s: AppView, found: Seq<Seq<char>>) -> (AppView, Seq<CommandView>) {
    let root = s.config.db_root_path;
    match s.pending {
        PendingView::Startup { retried } => if found.len() == 0 && !retried {
            (
                AppView { pending: PendingView::Startup { retried: true }, ..s },
                seq![
                    CommandView::CreateDir { path: path_join(root, "Main_DB"@), fatal: true },
                    CommandView::ListWorkspaces { root },
                ],
            )
        } else {
            (
                AppView {
                    workspaces: found,
                    active_workspace: 0,
                    db_path: found[0],
                    history: seq![],
                    selected: 0,
                    pending: PendingView::StartupLoad,
                    ..s
                },
                seq![
                    CommandView::WriteFileIfMissing {
                        path: inbox_of(found[0]),
                        text: inbox_template_text(),
                    },
                    CommandView::Reload { path: found[0] },
                ],
            )
        },
        PendingView::RootChange { retried } => if found.len() == 0 && !retried {
            (
                AppView { pending: PendingView::RootChange { retried: true }, ..s },
                seq![
                    CommandView::CreateDir { path: path_join(root, "Main_DB"@), fatal: false },
                    CommandView::ListWorkspaces { root },
                ],
            )
        } else {
            (
                AppView {
                    workspaces: found,
                    active_workspace: 0,
                    db_path: found[0],
                    history: seq![],
                    selected: 0,
                    pending: PendingView::Idle,
                    ..s
                },
                seq![CommandView::Reload { path: found[0] }],
            )
        },
        PendingView::NewWorkspace { path } => (
            AppView {
                workspaces: found,
                active_workspace: match path_position(found, path) {
                    Some(i) => i as usize,
                    None => s.active_workspace,
                },
                db_path: path,
                history: seq![],
                selected: 0,
                text_scroll: 0,
                pending: PendingView::Idle,
                ..s
            },
            seq![CommandView::Reload { path }],
        ),
        _ => (s, seq![]),
    }
}

/// Whether a list of workspaces can be taken: after the retry at start-up or
/// after a root change, one must have been found.
pub open spec fn can_list(s: AppView, found: Seq<Seq<char>>) -> bool {
    match s.pending {
        PendingView::Startup { retried } => retried ==> found.len() > 0,
        PendingView::RootChange { retried } => retried ==> found.len() > 0,
        _ => true,
    }
}

/// The nodes of the open workspace, loaded: they become the tree level shown
/// (and, at start-up, the search results too).
pub open spec fn after_loading(s: AppView, nodes: Seq<NodeView>) -> AppView {
    match s.pending {
        PendingView::StartupLoad => AppView {
            nodes,
            filtered: nodes,
            pending: PendingView::Idle,
            ..s
        },
        _ => AppView { nodes, ..s },
    }
}

/// The session at start-up with the settings `c`: the language is English when
/// the settings say `en` and Russian otherwise, nothing is selected or typed, and
/// the root directory is created and its workspaces listed.
pub open spec fn initial(c: ConfigView) -> AppView {
    AppView {
        mode: InputState::Normal,
        buffer: seq![],
        selected: 0,
        right_focused: false,
        text_scroll: 0,
        settings_row: 0,
        help_scroll: 0,
        active_workspace: 0,
        workspaces: seq![],
        language: if c.language == "en"@ {
            Language::EN
        } else {
            Language::RU
        },
        config: c,
        db_path: seq![],
        nodes: seq![],
        filtered: seq![],
        history: seq![],
        pending: PendingView::Startup { retried: false },
    }
}

/// The outside work that start-up asks for.
pub open spec fn initial_commands(c: ConfigView) -> Seq<CommandView> {
    seq![
        CommandView::CreateDir { path: c.db_root_path, fatal: true },
        CommandView::ListWorkspaces { root: c.db_root_path },
    ]
}

// ---------------------------------------------------------------------------
// Laws of the session
// ---------------------------------------------------------------------------

/// Opening a node of the tree and going back returns to the same level with the
/// same selection and the same levels above.
pub proof fn law_open_then_back(s: AppView)
    requires
        s.mode == InputState::Normal,
        !s.right_focused,
        s.selected < s.nodes.len(),
        s.nodes[s.selected as int].children.len() > 0,
    ensures
        ({
            let back = step(step(s, Action::Select).0, Action::GoBack).0;
            &&& back.nodes == s.nodes
            &&& back.selected == s.selected
            &&& back.history == s.history
            &&& back.mode == InputState::Normal
        }),
{
    let opened = step(s, Action::Select).0;
    assert(opened.history.drop_last() =~= s.history);
}

/// Starting a search and cancelling it returns to browsing the same level with
/// the same selection, the typed text cleared.
pub proof fn law_search_then_cancel(s: AppView, by_tags: bool)
    requires
        s.mode == InputState::Normal,
        !s.right_focused,
    ensures
        ({
            let a = if by_tags {
                Action::StartTagSearch
            } else {
                Action::StartTextSearch
            };
            let back = step(step(s, a).0, Action::Cancel).0;
            back == AppView { buffer: seq![], ..s }
        }),
{
    let a = if by_tags {
        Action::StartTagSearch
    } else {
        Action::StartTextSearch
    };
    assert(step(step(s, a).0, Action::Cancel).0 =~= AppView { buffer: seq![], ..s });
}

/// Switching the language twice gives the language back.
pub proof fn law_language_toggle_twice(s: AppView)
    ensures
        step(step(s, Action::ToggleLanguage).0, Action::ToggleLanguage).0.language == s.language,
{
}

/// Typing a character and deleting it gives back the typed text, and while
/// searching the results for that text.
pub proof fn law_type_then_delete(s: AppView, c: char)
    ensures
        step(step(s, Action::InputChar(c)).0, Action::Backspace).0 == refilter(s),
{
    assert(s.buffer.push(c).drop_last() =~= s.buffer);
    assert(step(step(s, Action::InputChar(c)).0, Action::Backspace).0 =~= refilter(s));
}

/// The settings menu has four rows: no action moves its selection past the
/// fourth.
pub proof fn law_settings_row_in_menu(s: AppView, a: Action)
    requires
        s.settings_row <= 3,
    ensures
        step(s, a).0.settings_row <= 3,
{
}

/// Browsing the tree, moving up selects the item just above and resets the
/// preview's scroll; at the first item it changes nothing. The tree itself, the
/// mode and the levels above stay as they were.
pub proof fn law_move_up_in_tree(s: AppView)
    requires
        s.mode == InputState::Normal,
        !s.right_focused,
    ensures
        ({
            let t = step(s, Action::MoveUp);
            &&& t.1.len() == 0
            &&& s.selected > 0 ==> t.0.selected == s.selected - 1 && t.0.text_scroll == 0
            &&& s.selected == 0 ==> t.0 == s
            &&& t.0.nodes == s.nodes
            &&& t.0.history == s.history
            &&& t.0.mode == s.mode
        }),
{
}

/// Browsing the tree, moving down selects the item just below, never past the
/// last item; moving down and then up returns to the same selection.
pub proof fn law_move_down_then_up(s: AppView)
    requires
        s.mode == InputState::Normal,
        !s.right_focused,
        s.selected + 1 < s.nodes.len(),
        s.nodes.len() <= usize::MAX,
    ensures
        step(s, Action::MoveDown).0.selected == s.selected + 1,
        step(step(s, Action::MoveDown).0, Action::MoveUp).0.selected == s.selected,
        step(step(s, Action::MoveDown).0, Action::MoveUp).0.nodes == s.nodes,
{
}

/// Moving down in the tree never selects past the last item shown (a tree
/// level, held in a `Vec`, has at most `usize::MAX` items).
pub proof fn law_move_down_stays_in_tree(s: AppView)
    requires
        s.mode == InputState::Normal,
        !s.right_focused,
        s.selected < s.nodes.len(),
        s.nodes.len() <= usize::MAX,
    ensures
        step(s, Action::MoveDown).0.selected < s.nodes.len(),
        step(s, Action::MoveDown).0.selected >= s.selected,
{
}

/// A listing of workspaces that opens one (at start-up or after the root
/// changed, once one was found) makes the list found the session's workspaces,
/// opens the first of them, selected, at the top of its tree, and asks to load
/// it; a listing after a workspace was created likewise takes the list found
/// and opens the new workspace. Finding none for the first time keeps the
/// workspaces and asks to create `Main_DB` under the root and look again.
pub proof fn law_listing_takes_found(s: AppView, found: Seq<Seq<char>>)
    requires
        can_list(s, found),
    ensures
        ({
            let (t, cmds) = after_listing(s, found);
            let root = s.config.db_root_path;
            &&& (s.pending is Startup || s.pending is RootChange) && found.len() > 0 ==> {
                &&& t.workspaces == found
                &&& t.active_workspace == 0
                &&& t.db_path == found[0]
                &&& t.workspaces.contains(t.db_path)
                &&& t.history.len() == 0
                &&& t.selected == 0
                &&& cmds.len() > 0
                &&& cmds.last() == CommandView::Reload { path: found[0] }
            }
            &&& (s.pending is Startup || s.pending is RootChange) && found.len() == 0 ==> {
                &&& t.workspaces == s.workspaces
                &&& cmds.len() == 2
                &&& cmds[0] is CreateDir
                &&& cmds[0]->CreateDir_path == path_join(root, "Main_DB"@)
                &&& cmds[1] == CommandView::ListWorkspaces { root }
            }
            &&& s.pending is NewWorkspace ==> {
                &&& t.workspaces == found
                &&& t.db_path == s.pending->NewWorkspace_path
                &&& t.pending == PendingView::Idle
                &&& cmds == seq![CommandView::Reload { path: s.pending->NewWorkspace_path }]
            }
        }),
{
    if (s.pending is Startup || s.pending is RootChange) && found.len() > 0 {
        assert(found[0] == found[0]);
        assert(found.contains(found[0]));
    }
}

/// Choosing a node with children while browsing opens it: its children become
/// the level shown, the first of them is selected, and the level left is kept,
/// with its selection, as the last level above.
pub proof fn law_open_node(s: AppView)
    requires
        s.mode == InputState::Normal,
        !s.right_focused,
        s.selected < s.nodes.len(),
        s.nodes[s.selected as int].children.len() > 0,
    ensures
        ({
            let t = step(s, Action::Select);
            &&& t.1.len() == 0
            &&& t.0.nodes == s.nodes[s.selected as int].children
            &&& t.0.selected == 0
            &&& t.0.history.len() == s.history.len() + 1
            &&& t.0.history.last() == (s.nodes, s.selected)
            &&& t.0.history.drop_last() == s.history
        }),
{
    assert(step(s, Action::Select).0.history.drop_last() =~= s.history);
}

/// Going back while browsing a level below the top returns to the level above,
/// with the selection it had; at the top level it changes nothing.
pub proof fn law_go_back(s: AppView)
    requires
        s.mode == InputState::Normal,
        !s.right_focused,
    ensures
        s.history.len() > 0 ==> step(s, Action::GoBack).0.nodes == s.history.last().0
            && step(s, Action::GoBack).0.selected == s.history.last().1 && step(
            s,
            Action::GoBack,
        ).0.history == s.history.drop_last(),
        s.history.len() == 0 ==> step(s, Action::GoBack).0 == s,
{
}

/// Quitting ends the session while browsing, and is ignored in prompts and
/// menus.
pub proof fn law_quit(s: AppView)
    ensures
        s.mode == InputState::Normal ==> step(s, Action::Quit).1 == seq![CommandView::Quit],
        s.mode != InputState::Normal ==> step(s, Action::Quit).1.len() == 0,
        step(s, Action::Quit).0 == s,
{
}

/// Choosing a workspace in the switcher opens it: it becomes the open
/// workspace, browsing starts at its top level, and its tree is loaded.
pub proof fn law_open_workspace(s: AppView)
    requires
        s.mode == InputState::WorkspaceSwitching,
        s.active_workspace < s.workspaces.len(),
    ensures
        ({
            let t = step(s, Action::Select);
            let w = s.workspaces[s.active_workspace as int];
            &&& t.0.db_path == w
            &&& t.0.mode == InputState::Normal
            &&& t.0.history.len() == 0
            &&& t.0.selected == 0
            &&& t.1 == seq![CommandView::Reload { path: w }]
        }),
{
}

/// Answering a prompt with text does what the prompt asked, on the path named
/// by the text, and returns to browsing (to the settings for the directory
/// prompt) with the text cleared: a name ending in `.md` becomes a new note in
/// the open workspace and any other name a folder, a quick note is appended to
/// the inbox, a workspace name becomes a directory under the root, and a
/// directory becomes the new root whose workspaces are listed. Each change to
/// the open workspace is followed by reloading it.
pub proof fn law_submit_prompt(s: AppView)
    requires
        s.buffer.len() > 0,
    ensures
        ({
            let (t, cmds) = step(s, Action::Submit);
            let text = s.buffer;
            &&& s.mode == InputState::Creating ==> {
                &&& t.mode == InputState::Normal
                &&& t.buffer.len() == 0
                &&& cmds.len() == 2
                &&& cmds[1] == CommandView::Reload { path: s.db_path }
                &&& ends_with(text, md_ext()) ==> cmds[0] is WriteFile
                    && cmds[0]->WriteFile_path == path_join(s.db_path, text)
                &&& !ends_with(text, md_ext()) ==> cmds[0] == CommandView::CreateDir {
                    path: path_join(s.db_path, text),
                    fatal: false,
                }
            }
            &&& s.mode == InputState::QuickInboxInput ==> {
                &&& t.mode == InputState::Normal
                &&& cmds.len() == 2
                &&& cmds[0] is AppendFile
                &&& cmds[0]->AppendFile_path == path_join(s.db_path, "Inbox.md"@)
                &&& cmds[1] == CommandView::Reload { path: s.db_path }
            }
            &&& s.mode == InputState::WorkspaceCreating ==> {
                &&& t.mode == InputState::Normal
                &&& cmds.len() == 3
                &&& cmds[0] == CommandView::CreateDir {
                    path: path_join(s.config.db_root_path, text),
                    fatal: false,
                }
                &&& cmds[2] == CommandView::ListWorkspaces { root: s.config.db_root_path }
                &&& t.pending == PendingView::NewWorkspace {
                    path: path_join(s.config.db_root_path, text),
                }
            }
            &&& s.mode == InputState::SettingsPathInput ==> {
                &&& t.mode == InputState::SettingsMenu
                &&& t.config.db_root_path == text
                &&& cmds[cmds.len() - 1] == CommandView::ListWorkspaces { root: text }
                &&& t.pending == PendingView::RootChange { retried: false }
            }
        }),
{
}

/// Deleting asks for `y` (in either case): with it the selected item is removed
/// and the workspace reloaded; with anything else nothing is removed. Either
/// way browsing resumes.
pub proof fn law_confirm_delete(s: AppView)
    requires
        s.mode == InputState::ConfirmDelete,
        lowercase(s.buffer) == seq!['y'] ==> s.selected < s.nodes.len(),
    ensures
        ({
            let (t, cmds) = step(s, Action::Submit);
            &&& t.mode == InputState::Normal
            &&& lowercase(s.buffer) == seq!['y'] ==> cmds == seq![
                CommandView::Remove { path: s.nodes[s.selected as int].path },
                CommandView::Reload { path: s.db_path },
            ]
            &&& lowercase(s.buffer) != seq!['y'] ==> cmds.len() == 0
        }),
{
}

/// Loading a tree makes it the level shown.
pub proof fn law_loaded_tree_shown(s: AppView, nodes: Seq<NodeView>)
    ensures
        after_loading(s, nodes).nodes == nodes,
        s.pending is StartupLoad ==> after_loading(s, nodes).filtered == nodes
            && after_loading(s, nodes).pending == PendingView::Idle,
{
}

// ---------------------------------------------------------------------------
// Executable transitions
// ---------------------------------------------------------------------------

/// Whether two strings hold the same characters.
pub fn str_eq(a: &str, b: &str) -> (r: bool)
    ensures
        r == (a@ == b@),
{
    let x = chars_of(a);
    let y = chars_of(b);
    crate::text::chars_equal(x.as_slice(), y.as_slice())
}

/// The code of a language.
fn language_code_string(l: Language) -> (r: String)
    ensures
        r@ == language_code(l),
{
    match l {
        Language::RU => "ru".to_owned(),
        Language::EN => "en".to_owned(),
    }
}

impl App {
    /// The session at start-up with the settings `config`, and the outside work
    /// it asks for first.
    pub fn start(config: Config) -> (r: (App, Vec<Command>))
        ensures
            r.0@ == initial(config@),
            commands_view(r.1@) == initial_commands(config@),
    {
        let language = if str_eq(config.language.as_str(), "en") {
            Language::EN
        } else {
            Language::RU
        };
        let root = config.db_root_path.clone();
        let root2 = config.db_root_path.clone();
        let app = App {
            mode: InputState::Normal,
            buffer: String::new(),
            selected: 0,
            right_focused: false,
            text_scroll: 0,
            settings_row: 0,
            help_scroll: 0,
            active_workspace: 0,
            workspaces: Vec::new(),
            language,
            config,
            db_path: String::new(),
            current_nodes: Vec::new(),
            filtered_nodes: Vec::new(),
            history: Vec::new(),
            pending: Pending::Startup { retried: false },
        };
        let cmds = vec![Command::CreateDir { path: root, fatal: true }, Command::ListWorkspaces {
            root: root2,
        }];
        proof {
            assert(strings_view(app.workspaces@) =~= seq![]);
            assert(nodes_view(app.current_nodes@) =~= seq![]);
            assert(history_view(app.history@) =~= seq![]);
            assert(app@ =~= initial(config@));
            assert(commands_view(cmds@) =~= initial_commands(config@));
        }
        (app, cmds)
    }

    /// Whether the session can take action `a` now (see `can_step`).
    pub fn can_handle(&self, a: Action) -> (r: bool)
        ensures
            r == can_step(self@, a),
    {
        proof {
            lemma_nodes_view_len(self.current_nodes@);
        }
        let normal = self.mode == InputState::Normal;
        match a {
            Action::EditItem | Action::ExportItem => !(self.current_nodes.len() > 0 && normal)
                || self.selected < self.current_nodes.len(),
            Action::MoveDown => !(self.mode == InputState::WorkspaceSwitching)
                || self.workspaces.len() > 0,
            Action::MoveLeft | Action::MoveRight | Action::Select => {
                if self.mode == InputState::SettingsMenu {
                    true
                } else if !self.right_focused && normal {
                    self.selected < self.current_nodes.len()
                } else if self.mode == InputState::WorkspaceSwitching {
                    self.active_workspace < self.workspaces.len()
                } else {
                    true
                }
            },
            Action::Submit => {
                if self.mode == InputState::ConfirmDelete {
                    let low = lower_string(self.buffer.as_str());
                    if str_eq(low.as_str(), "y") {
                        proof {
                            reveal_strlit("y");
                            assert("y"@ =~= seq!['y']);
                        }
                        self.selected < self.current_nodes.len()
                    } else {
                        proof {
                            reveal_strlit("y");
                            assert("y"@ =~= seq!['y']);
                        }
                        true
                    }
                } else {
                    true
                }
            },
            _ => true,
        }
    }
}

impl App {
    /// Recomputes the search results for the typed text while searching.
    fn refilter(&mut self)
        ensures
            final(self)@ == refilter(old(self)@),
    {
        if self.mode == InputState::TextSearching {
            self.filtered_nodes = search_by_text(self.current_nodes.as_slice(), self.buffer.as_str());
        } else if self.mode == InputState::TagSearching {
            self.filtered_nodes = search_by_tags(self.current_nodes.as_slice(), self.buffer.as_str());
        }
        assert(self@ =~= refilter(old(self)@));
    }

    /// Moves up (see `move_up`).
    fn move_up(&mut self)
        ensures
            final(self)@ == move_up(old(self)@),
    {
        if self.mode == InputState::WorkspaceSwitching {
            if self.active_workspace > 0 {
                self.active_workspace -= 1;
            }
        } else if self.mode == InputState::SettingsMenu {
            if self.settings_row > 0 {
                self.settings_row -= 1;
            }
        } else if self.mode == InputState::HelpMenu {
            self.help_scroll = self.help_scroll.saturating_sub(1);
        } else if self.right_focused {
            self.text_scroll = self.text_scroll.saturating_sub(1);
        } else if self.selected > 0 {
            self.selected -= 1;
            self.text_scroll = 0;
        }
        assert(self@ =~= move_up(old(self)@));
    }

    /// Moves down (see `move_down`).
    fn move_down(&mut self)
        requires
            old(self).mode == InputState::WorkspaceSwitching ==> old(self).workspaces.len() > 0,
        ensures
            final(self)@ == move_down(old(self)@),
    {
        proof {
            lemma_nodes_view_len(self.current_nodes@);
            lemma_nodes_view_len(self.filtered_nodes@);
        }
        if self.mode == InputState::WorkspaceSwitching {
            if self.active_workspace < self.workspaces.len() - 1 {
                self.active_workspace += 1;
            }
        } else if self.mode == InputState::SettingsMenu {
            if self.settings_row < 3 {
                self.settings_row += 1;
            }
        } else if self.mode == InputState::HelpMenu {
            self.help_scroll = self.help_scroll.saturating_add(1);
        } else if self.right_focused {
            self.text_scroll = self.text_scroll.saturating_add(1);
        } else {
            let searching = self.mode == InputState::TextSearching || self.mode
                == InputState::TagSearching;
            let limit = if searching {
                self.filtered_nodes.len()
            } else {
                self.current_nodes.len()
            };
            if limit > 0 && self.selected < limit - 1 {
                self.selected += 1;
                self.text_scroll = 0;
            }
        }
        assert(self@ =~= move_down(old(self)@));
    }

    /// Goes back (see `go_back`).
    fn go_back(&mut self)
        ensures
            final(self)@ == go_back(old(self)@),
    {
        if self.mode == InputState::SettingsMenu || self.mode == InputState::WorkspaceSwitching
            || self.mode == InputState::HelpMenu {
            self.mode = InputState::Normal;
        } else if self.right_focused {
            self.right_focused = false;
        } else if self.history.len() > 0 {
            let ghost h = history_view(self.history@);
            let top = self.history.pop();
            match top {
                Some((prev, idx)) => {
                    proof {
                        assert(h.last() == (nodes_view(prev@), idx));
                        assert(history_view(self.history@) =~= h.drop_last());
                    }
                    self.filtered_nodes = copy_nodes(&prev);
                    self.current_nodes = prev;
                    self.selected = idx;
                    self.text_scroll = 0;
                },
                None => {},
            }
        }
        assert(self@ =~= go_back(old(self)@));
    }

    /// Chooses the selected row, node or workspace (see `choose_item`).
    fn choose_selected(&mut self) -> (r: Vec<Command>)
        requires
            can_step(old(self)@, Action::Select),
        ensures
            (final(self)@, commands_view(r@)) == choose_item(old(self)@),
    {
        proof {
            lemma_nodes_view_len(self.current_nodes@);
        }
        let ghost s = self@;
        let mut cmds: Vec<Command> = Vec::new();
        if self.mode == InputState::SettingsMenu {
            if self.settings_row == 0 {
                let code = if str_eq(self.config.language.as_str(), "ru") {
                    "en".to_owned()
                } else {
                    "ru".to_owned()
                };
                self.language = if str_eq(code.as_str(), "ru") {
                    Language::RU
                } else {
                    Language::EN
                };
                self.config.language = code;
            } else if self.settings_row == 1 {
                let e = self.config.editor.as_str();
                let next = if str_eq(e, "nano") {
                    "vi".to_owned()
                } else if str_eq(e, "vi") {
                    "vim".to_owned()
                } else if str_eq(e, "vim") {
                    "neovim".to_owned()
                } else {
                    "nano".to_owned()
                };
                self.config.editor = next;
            } else if self.settings_row == 2 {
                self.mode = InputState::SettingsPathInput;
                self.buffer = self.config.db_root_path.clone();
            } else if self.settings_row == 3 {
                self.mode = InputState::Normal;
                cmds.push(Command::SaveConfig);
            }
        } else if !self.right_focused && self.mode == InputState::Normal {
            proof {
                lemma_nodes_view_index(self.current_nodes@, self.selected as int);
            }
            let i = self.selected;
            if self.current_nodes[i].children.len() > 0 {
                proof {
                    lemma_nodes_view_len(self.current_nodes@[i as int].children@);
                }
                let kids = copy_nodes(&self.current_nodes[i].children);
                let kids2 = copy_nodes(&self.current_nodes[i].children);
                let here = copy_nodes(&self.current_nodes);
                let ghost h = history_view(self.history@);
                self.history.push((here, i));
                assert(history_view(self.history@) =~= h.push((s.nodes, s.selected)));
                self.current_nodes = kids;
                self.filtered_nodes = kids2;
                self.selected = 0;
                self.text_scroll = 0;
            }
        } else if self.mode == InputState::WorkspaceSwitching {
            let db = self.workspaces[self.active_workspace].clone();
            let db2 = db.clone();
            self.db_path = db;
            self.history = Vec::new();
            self.selected = 0;
            self.text_scroll = 0;
            self.mode = InputState::Normal;
            cmds.push(Command::Reload { path: db2 });
            assert(history_view(self.history@) =~= seq![]);
        }
        proof {
            reveal_strlit("ru");
            reveal_strlit("en");
            assert(self@ =~= choose_item(s).0);
            assert(commands_view(cmds@) =~= choose_item(s).1);
        }
        cmds
    }
}

impl App {
    /// Leaves a prompt (see `answered`).
    fn leave_prompt(&mut self)
        ensures
            final(self)@ == answered(old(self)@),
    {
        if self.mode == InputState::SettingsPathInput {
            self.mode = InputState::SettingsMenu;
        } else {
            self.mode = InputState::Normal;
        }
        self.buffer = String::new();
        assert(self@ =~= answered(old(self)@));
    }

    /// Submits the typed text (see `submit`).
    fn submit_text(&mut self) -> (r: Vec<Command>)
        requires
            can_step(old(self)@, Action::Submit),
        ensures
            (final(self)@, commands_view(r@)) == submit(old(self)@),
    {
        proof {
            lemma_nodes_view_len(self.current_nodes@);
        }
        let ghost s = self@;
        let text = self.buffer.clone();
        let mut cmds: Vec<Command> = Vec::new();
        if self.mode == InputState::SettingsPathInput {
            self.leave_prompt();
            if !text.as_str().is_empty() {
                proof {
                    assert(text@.len() > 0);
                }
                self.config.db_root_path = text.clone();
                self.pending = Pending::RootChange { retried: false };
                cmds.push(Command::CreateDir { path: text.clone(), fatal: false });
                cmds.push(Command::ListWorkspaces { root: text });
            } else {
                proof {
                    assert(text@.len() == 0);
                }
            }
        } else if self.mode == InputState::WorkspaceCreating {
            self.leave_prompt();
            if !text.as_str().is_empty() {
                let path = join_path(self.config.db_root_path.as_str(), text.as_str());
                let inbox = join_path(path.as_str(), "Inbox.md");
                self.pending = Pending::NewWorkspace { path: path.clone() };
                cmds.push(Command::CreateDir { path: path.clone(), fatal: false });
                cmds.push(Command::WriteFile { path: inbox, text: inbox_template() });
                cmds.push(Command::ListWorkspaces { root: self.config.db_root_path.clone() });
            } else {
                proof {
                    assert(text@.len() == 0);
                }
            }
        } else if self.mode == InputState::Creating {
            self.leave_prompt();
            if !text.as_str().is_empty() {
                let path = join_path(self.db_path.as_str(), text.as_str());
                if names_note(text.as_str()) {
                    cmds.push(Command::WriteFile { path, text: note_template(text.as_str()) });
                } else {
                    cmds.push(Command::CreateDir { path, fatal: false });
                }
                cmds.push(Command::Reload { path: self.db_path.clone() });
            } else {
                proof {
                    assert(text@.len() == 0);
                }
            }
        } else if self.mode == InputState::QuickInboxInput {
            self.leave_prompt();
            if !text.as_str().is_empty() {
                let inbox = join_path(self.db_path.as_str(), "Inbox.md");
                cmds.push(Command::AppendFile { path: inbox, text: inbox_entry(text.as_str()) });
                cmds.push(Command::Reload { path: self.db_path.clone() });
            } else {
                proof {
                    assert(text@.len() == 0);
                }
            }
        } else if self.mode == InputState::ConfirmDelete {
            let low = lower_string(text.as_str());
            proof {
                reveal_strlit("y");
                assert("y"@ =~= seq!['y']);
            }
            if str_eq(low.as_str(), "y") {
                proof {
                    lemma_nodes_view_index(self.current_nodes@, self.selected as int);
                }
                let target = self.current_nodes[self.selected].path.clone();
                self.leave_prompt();
                self.selected = 0;
                cmds.push(Command::Remove { path: target });
                cmds.push(Command::Reload { path: self.db_path.clone() });
            } else {
                self.leave_prompt();
            }
        } else {
            self.mode = InputState::Normal;
            self.buffer = String::new();
        }
        proof {
            assert(self@ =~= submit(s).0);
            assert(commands_view(cmds@) =~= submit(s).1);
        }
        cmds
    }

    /// Takes action `a`: changes the session as `step` says, and returns the
    /// outside work that `step` asks for, in order.
    pub fn handle_action(&mut self, a: Action) -> (r: Vec<Command>)
        requires
            can_step(old(self)@, a),
        ensures
            (final(self)@, commands_view(r@)) == step(old(self)@, a),
    {
        proof {
            lemma_nodes_view_len(self.current_nodes@);
        }
        let ghost s = self@;
        let normal = self.mode == InputState::Normal;
        let browsing = !self.right_focused && normal;
        let mut cmds: Vec<Command> = Vec::new();
        match a {
            Action::Quit => {
                if normal {
                    cmds.push(Command::Quit);
                }
            },
            Action::ToggleLanguage => {
                let l = if self.language == Language::RU {
                    Language::EN
                } else {
                    Language::RU
                };
                self.language = l;
                self.config.language = language_code_string(l);
                cmds.push(Command::SaveConfig);
            },
            Action::ToggleFocus => {
                if normal && self.current_nodes.len() > 0 {
                    self.right_focused = !self.right_focused;
                    self.text_scroll = 0;
                }
            },
            Action::StartTextSearch => {
                if browsing {
                    self.mode = InputState::TextSearching;
                    self.buffer = String::new();
                }
            },
            Action::StartTagSearch => {
                if browsing {
                    self.mode = InputState::TagSearching;
                    self.buffer = String::new();
                }
            },
            Action::CreateItem => {
                if browsing {
                    self.mode = InputState::Creating;
                    self.buffer = String::new();
                }
            },
            Action::DeleteItem => {
                if browsing && self.current_nodes.len() > 0 {
                    self.mode = InputState::ConfirmDelete;
                    self.buffer = String::new();
                }
            },
            Action::OpenWorkspaceSwitcher => {
                if normal {
                    self.mode = InputState::WorkspaceSwitching;
                }
            },
            Action::CreateWorkspace => {
                if self.mode == InputState::WorkspaceSwitching {
                    self.mode = InputState::WorkspaceCreating;
                    self.buffer = String::new();
                }
            },
            Action::StartQuickInbox => {
                if normal {
                    self.mode = InputState::QuickInboxInput;
                    self.buffer = String::new();
                }
            },
            Action::OpenSettingsMenu => {
                if normal {
                    self.mode = InputState::SettingsMenu;
                    self.settings_row = 0;
                }
            },
            Action::OpenHelpMenu => {
                if normal {
                    self.mode = InputState::HelpMenu;
                    self.help_scroll = 0;
                }
            },
            Action::EditItem => {
                if self.current_nodes.len() > 0 && normal {
                    proof {
                        lemma_nodes_view_index(self.current_nodes@, self.selected as int);
                    }
                    cmds.push(Command::Edit {
                        editor: self.config.editor.clone(),
                        path: self.current_nodes[self.selected].path.clone(),
                    });
                    cmds.push(Command::Reload { path: self.db_path.clone() });
                }
            },
            Action::ExportItem => {
                if self.current_nodes.len() > 0 && normal {
                    proof {
                        lemma_nodes_view_index(self.current_nodes@, self.selected as int);
                    }
                    let node = &self.current_nodes[self.selected];
                    let mut file_name = node.name.clone();
                    file_name.append("_export.txt");
                    let target = join_path(self.db_path.as_str(), file_name.as_str());
                    cmds.push(Command::Export { source: node.path.clone(), target });
                }
            },
            Action::MoveUp => {
                self.move_up();
            },
            Action::MoveDown => {
                self.move_down();
            },
            Action::MoveLeft | Action::MoveRight | Action::Select => {
                cmds = self.choose_selected();
            },
            Action::GoBack => {
                self.go_back();
            },
            Action::InputChar(c) => {
                crate::text::push_char(&mut self.buffer, c);
                self.refilter();
            },
            Action::Backspace => {
                let chars = chars_of(self.buffer.as_str());
                if chars.len() > 0 {
                    let shorter = crate::text::copy_range(chars.as_slice(), 0, chars.len() - 1);
                    assert(shorter@ =~= s.buffer.drop_last());
                    self.buffer = string_of(shorter.as_slice());
                }
                self.refilter();
            },
            Action::Cancel => {
                self.leave_prompt();
            },
            Action::Submit => {
                cmds = self.submit_text();
            },
            Action::Nothing => {},
        }
        proof {
            assert(self@ =~= step(s, a).0);
            assert(commands_view(cmds@) =~= step(s, a).1);
        }
        cmds
    }
}

/// The first of `ws` that is the same path as `p`.
fn find_workspace(ws: &Vec<String>, p: &str) -> (r: Option<usize>)
    ensures
        match r {
            Some(i) => path_position(strings_view(ws@), p@) == Some(i as int),
            None => path_position(strings_view(ws@), p@) == None::<int>,
        },
{
    let ghost all = strings_view(ws@);
    let mut i: usize = 0;
    while i < ws.len()
        invariant
            i <= ws.len(),
            all == strings_view(ws@),
            path_position(all.take(i as int), p@) == None::<int>,
        decreases ws.len() - i,
    {
        proof {
            assert(all.take(i + 1).drop_last() =~= all.take(i as int));
            assert(all.take(i + 1).last() == ws@[i as int]@);
        }
        if paths_equal(ws[i].as_str(), p) {
            proof {
                lemma_path_position_prefix(all, p@, i as int + 1);
            }
            return Some(i);
        }
        i += 1;
    }
    assert(all.take(ws.len() as int) =~= all);
    None
}

/// Once found in a prefix, the position stays the same in the whole list.
proof fn lemma_path_position_prefix(ws: Seq<Seq<char>>, p: Seq<char>, k: int)
    requires
        0 <= k <= ws.len(),
        path_position(ws.take(k), p) is Some,
    ensures
        path_position(ws, p) == path_position(ws.take(k), p),
    decreases ws.len() - k,
{
    if k < ws.len() {
        assert(ws.take(k + 1).drop_last() =~= ws.take(k));
        lemma_path_position_prefix(ws, p, k + 1);
    } else {
        assert(ws.take(k) =~= ws);
    }
}

impl App {
    /// Takes the workspaces listed under the root (see `after_listing`), and
    /// returns the outside work asked for next.
    pub fn workspaces_listed(&mut self, found: Vec<String>) -> (r: Vec<Command>)
        requires
            can_list(old(self)@, strings_view(found@)),
        ensures
            (final(self)@, commands_view(r@)) == after_listing(old(self)@, strings_view(found@)),
    {
        let ghost s = self@;
        let ghost fv = strings_view(found@);
        let mut cmds: Vec<Command> = Vec::new();
        let root = self.config.db_root_path.clone();
        match &self.pending {
            Pending::Startup { retried } | Pending::RootChange { retried } => {
                let startup = match &self.pending {
                    Pending::Startup { .. } => true,
                    _ => false,
                };
                let retried = *retried;
                if found.len() == 0 && !retried {
                    self.pending = if startup {
                        Pending::Startup { retried: true }
                    } else {
                        Pending::RootChange { retried: true }
                    };
                    cmds.push(Command::CreateDir {
                        path: join_path(root.as_str(), "Main_DB"),
                        fatal: startup,
                    });
                    cmds.push(Command::ListWorkspaces { root });
                } else {
                    let first = found[0].clone();
                    let first2 = found[0].clone();
                    proof {
                        assert(fv[0] == found@[0]@);
                    }
                    if startup {
                        let inbox = join_path(first.as_str(), "Inbox.md");
                        cmds.push(Command::WriteFileIfMissing { path: inbox, text: inbox_template() });
                    }
                    cmds.push(Command::Reload { path: first2 });
                    self.workspaces = found;
                    self.active_workspace = 0;
                    self.db_path = first;
                    self.history = Vec::new();
                    self.selected = 0;
                    self.pending = if startup {
                        Pending::StartupLoad
                    } else {
                        Pending::Idle
                    };
                    assert(history_view(self.history@) =~= seq![]);
                }
            },
            Pending::NewWorkspace { path } => {
                let path = path.clone();
                let pos = find_workspace(&found, path.as_str());
                match pos {
                    Some(i) => {
                        self.active_workspace = i;
                    },
                    None => {},
                }
                cmds.push(Command::Reload { path: path.clone() });
                self.workspaces = found;
                self.db_path = path;
                self.history = Vec::new();
                self.selected = 0;
                self.text_scroll = 0;
                self.pending = Pending::Idle;
                assert(history_view(self.history@) =~= seq![]);
            },
            _ => {},
        }
        proof {
            assert(self@ =~= after_listing(s, fv).0);
            assert(commands_view(cmds@) =~= after_listing(s, fv).1);
        }
        cmds
    }

    /// Whether the workspaces `found` can be taken now (see `can_list`).
    pub fn can_take_workspaces(&self, found: &Vec<String>) -> (r: bool)
        ensures
            r == can_list(self@, strings_view(found@)),
    {
        match &self.pending {
            Pending::Startup { retried } => !*retried || found.len() > 0,
            Pending::RootChange { retried } => !*retried || found.len() > 0,
            _ => true,
        }
    }

    /// Takes the nodes loaded for the open workspace (see `after_loading`).
    pub fn nodes_loaded(&mut self, nodes: Vec<DbNode>)
        ensures
            final(self)@ == after_loading(old(self)@, nodes_view(nodes@)),
    {
        match self.pending {
            Pending::StartupLoad => {
                self.filtered_nodes = copy_nodes(&nodes);
                self.current_nodes = nodes;
                self.pending = Pending::Idle;
            },
            _ => {
                self.current_nodes = nodes;
            },
        }
        assert(self@ =~= after_loading(old(self)@, nodes_view(nodes@)));
    }
}

} // verus!