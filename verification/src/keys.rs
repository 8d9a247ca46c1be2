//! Key bindings: which action a key press asks for.
use vstd::prelude::*;

verus! {

/// What the user asks for.
#[derive(Clone, Copy, Debug, PartialEq, Eq, Structural)]
pub enum Action {
    MoveUp,
    MoveDown,
    MoveLeft,
    MoveRight,
    Select,
    GoBack,
    Quit,
    ToggleLanguage,
    ToggleFocus,
    StartTextSearch,
    StartTagSearch,
    EditItem,
    ExportItem,
    CreateItem,
    DeleteItem,
    OpenWorkspaceSwitcher,
    CreateWorkspace,
    StartQuickInbox,
    OpenSettingsMenu,
    OpenHelpMenu,
    InputChar(char),
    Backspace,
    Submit,
    Cancel,
    Nothing,
}

/// A key as the terminal reports it; `Other` stands for every key that no
/// binding names.
#[derive(Clone, Copy, Debug, PartialEq, Eq, Structural)]
pub enum Key {
    Up,
    Down,
    Left,
    Right,
    Enter,
    Esc,
    Backspace,
    Tab,
    Char(char),
    F(u8),
    Other,
}

/// The key bindings. While text is being typed, the arrows move, Enter submits,
/// Esc cancels, Backspace deletes and any character is typed. Otherwise Ctrl+S
/// (or the key at its place on a Russian layout) opens the settings, and each
/// command has a key on the Latin layout and most have one on the Russian layout.
pub open spec fn key_action(is_input_mode: bool, key: Key, ctrl: bool) -> Action {
    if is_input_mode {
        match key {
            Key::Up => Action::MoveUp,
            Key::Down => Action::MoveDown,
            Key::Left => Action::MoveLeft,
            Key::Right => Action::MoveRight,
            Key::Enter => Action::Submit,
            Key::Esc => Action::Cancel,
            Key::Backspace => Action::Backspace,
            Key::Char(c) => Action::InputChar(c),
            _ => Action::Nothing,
        }
    } else if ctrl && (key == Key::Char('s') || key == Key::Char('\u{44b}')) {
        Action::OpenSettingsMenu
    } else {
        match key {
            Key::Char('q') | Key::Char('\u{439}') => Action::Quit,
            Key::Tab => Action::ToggleFocus,
            Key::Up | Key::Char('k') => Action::MoveUp,
            Key::Down | Key::Char('j') => Action::MoveDown,
            Key::Left | Key::Char('h') => Action::GoBack,
            Key::Right | Key::Char('l') => Action::Select,
            Key::Enter => Action::Select,
            Key::Esc => Action::GoBack,
            Key::F(2) => Action::ToggleLanguage,
            Key::Char('/') => Action::StartTextSearch,
            Key::Char('t') | Key::Char('\u{435}') => Action::StartTagSearch,
            Key::Char('w') | Key::Char('\u{446}') => Action::OpenWorkspaceSwitcher,
            Key::Char('N') | Key::Char('\u{422}') => Action::CreateWorkspace,
            Key::Char('i') | Key::Char('\u{448}') => Action::StartQuickInbox,
            Key::Char('?') | Key::Char(',') => Action::OpenHelpMenu,
            Key::F(4) => Action::EditItem,
            Key::F(3) => Action::ExportItem,
            Key::Char('+') | Key::Char('=') => Action::CreateItem,
            Key::Char('-') => Action::DeleteItem,
            _ => Action::Nothing,
        }
    }
}

/// The action that a key press asks for, `ctrl` telling whether Control was held.
pub fn action_for_key(is_input_mode: bool, key: Key, ctrl: bool) -> (a: Action)
    ensures
        a == key_action(is_input_mode, key, ctrl),
{
    if is_input_mode {
        match key {
            Key::Up => Action::MoveUp,
            Key::Down => Action::MoveDown,
            Key::Left => Action::MoveLeft,
            Key::Right => Action::MoveRight,
            Key::Enter => Action::Submit,
            Key::Esc => Action::Cancel,
            Key::Backspace => Action::Backspace,
            Key::Char(c) => Action::InputChar(c),
            _ => Action::Nothing,
        }
    } else {
        if ctrl {
            match key {
                Key::Char('s') | Key::Char('\u{44b}') => {
                    return Action::OpenSettingsMenu;
                },
                _ => {},
            }
        }
        match key {
            Key::Char('q') | Key::Char('\u{439}') => Action::Quit,
            Key::Tab => Action::ToggleFocus,
            Key::Up | Key::Char('k') => Action::MoveUp,
            Key::Down | Key::Char('j') => Action::MoveDown,
            Key::Left | Key::Char('h') => Action::GoBack,
            Key::Right | Key::Char('l') => Action::Select,
            Key::Enter => Action::Select,
            Key::Esc => Action::GoBack,
            Key::F(2) => Action::ToggleLanguage,
            Key::Char('/') => Action::StartTextSearch,
            Key::Char('t') | Key::Char('\u{435}') => Action::StartTagSearch,
            Key::Char('w') | Key::Char('\u{446}') => Action::OpenWorkspaceSwitcher,
            Key::Char('N') | Key::Char('\u{422}') => Action::CreateWorkspace,
            Key::Char('i') | Key::Char('\u{448}') => Action::StartQuickInbox,
            Key::Char('?') | Key::Char(',') => Action::OpenHelpMenu,
            Key::F(4) => Action::EditItem,
            Key::F(3) => Action::ExportItem,
            Key::Char('+') | Key::Char('=') => Action::CreateItem,
            Key::Char('-') => Action::DeleteItem,
            _ => Action::Nothing,
        }
    }
}

/// While text is being typed, every character key types its character, with
/// or without Control.
pub proof fn law_typing_takes_every_character(c: char, ctrl: bool)
    ensures
        key_action(true, Key::Char(c), ctrl) == Action::InputChar(c),
{
}

/// While browsing (no text being typed), the arrows and the vim keys move:
/// up and `k` move up, down and `j` move down, left, `h` and Esc go back, and
/// right, `l` and Enter choose, with or without Control; Tab moves the focus
/// and `q` (or `й` on a Russian layout) quits.
pub proof fn law_browsing_keys(ctrl: bool)
    ensures
        key_action(false, Key::Up, ctrl) == Action::MoveUp,
        key_action(false, Key::Char('k'), ctrl) == Action::MoveUp,
        key_action(false, Key::Down, ctrl) == Action::MoveDown,
        key_action(false, Key::Char('j'), ctrl) == Action::MoveDown,
        key_action(false, Key::Left, ctrl) == Action::GoBack,
        key_action(false, Key::Char('h'), ctrl) == Action::GoBack,
        key_action(false, Key::Esc, ctrl) == Action::GoBack,
        key_action(false, Key::Right, ctrl) == Action::Select,
        key_action(false, Key::Char('l'), ctrl) == Action::Select,
        key_action(false, Key::Enter, ctrl) == Action::Select,
        key_action(false, Key::Tab, ctrl) == Action::ToggleFocus,
        key_action(false, Key::Char('q'), ctrl) == Action::Quit,
        key_action(false, Key::Char('\u{439}'), ctrl) == Action::Quit,
{
}

/// While text is typed, the arrows still move, Enter submits, Esc cancels and
/// Backspace deletes, with or without Control.
pub proof fn law_typing_keys(ctrl: bool)
    ensures
        key_action(true, Key::Up, ctrl) == Action::MoveUp,
        key_action(true, Key::Down, ctrl) == Action::MoveDown,
        key_action(true, Key::Left, ctrl) == Action::MoveLeft,
        key_action(true, Key::Right, ctrl) == Action::MoveRight,
        key_action(true, Key::Enter, ctrl) == Action::Submit,
        key_action(true, Key::Esc, ctrl) == Action::Cancel,
        key_action(true, Key::Backspace, ctrl) == Action::Backspace,
{
}

/// While browsing, Ctrl+S (or the key at its place on a Russian layout) opens
/// the settings; without Control, `s` does nothing.
pub proof fn law_settings_key()
    ensures
        key_action(false, Key::Char('s'), true) == Action::OpenSettingsMenu,
        key_action(false, Key::Char('\u{44b}'), true) == Action::OpenSettingsMenu,
        key_action(false, Key::Char('s'), false) == Action::Nothing,
{
}

} // verus!
