use ttytips::keys::{action_for_key, Action, Key};

#[test]
fn typing_mode_keys() {
    assert_eq!(action_for_key(true, Key::Char('q'), false), Action::InputChar('q'));
    assert_eq!(action_for_key(true, Key::Enter, false), Action::Submit);
    assert_eq!(action_for_key(true, Key::Esc, false), Action::Cancel);
    assert_eq!(action_for_key(true, Key::Backspace, false), Action::Backspace);
    assert_eq!(action_for_key(true, Key::Left, false), Action::MoveLeft);
    assert_eq!(action_for_key(true, Key::Tab, false), Action::Nothing);
    assert_eq!(action_for_key(true, Key::Char('s'), true), Action::InputChar('s'));
}

#[test]
fn browsing_keys() {
    assert_eq!(action_for_key(false, Key::Char('q'), false), Action::Quit);
    assert_eq!(action_for_key(false, Key::Char('й'), false), Action::Quit);
    assert_eq!(action_for_key(false, Key::Tab, false), Action::ToggleFocus);
    assert_eq!(action_for_key(false, Key::Char('k'), false), Action::MoveUp);
    assert_eq!(action_for_key(false, Key::Down, false), Action::MoveDown);
    assert_eq!(action_for_key(false, Key::Char('h'), false), Action::GoBack);
    assert_eq!(action_for_key(false, Key::Esc, false), Action::GoBack);
    assert_eq!(action_for_key(false, Key::Right, false), Action::Select);
    assert_eq!(action_for_key(false, Key::Enter, false), Action::Select);
    assert_eq!(action_for_key(false, Key::F(2), false), Action::ToggleLanguage);
    assert_eq!(action_for_key(false, Key::F(3), false), Action::ExportItem);
    assert_eq!(action_for_key(false, Key::F(4), false), Action::EditItem);
    assert_eq!(action_for_key(false, Key::F(5), false), Action::Nothing);
    assert_eq!(action_for_key(false, Key::Char('/'), false), Action::StartTextSearch);
    assert_eq!(action_for_key(false, Key::Char('е'), false), Action::StartTagSearch);
    assert_eq!(action_for_key(false, Key::Char('ц'), false), Action::OpenWorkspaceSwitcher);
    assert_eq!(action_for_key(false, Key::Char('Т'), false), Action::CreateWorkspace);
    assert_eq!(action_for_key(false, Key::Char('ш'), false), Action::StartQuickInbox);
    assert_eq!(action_for_key(false, Key::Char(','), false), Action::OpenHelpMenu);
    assert_eq!(action_for_key(false, Key::Char('='), false), Action::CreateItem);
    assert_eq!(action_for_key(false, Key::Char('-'), false), Action::DeleteItem);
    assert_eq!(action_for_key(false, Key::Char('x'), false), Action::Nothing);
    assert_eq!(action_for_key(false, Key::Other, false), Action::Nothing);
}

#[test]
fn control_s_opens_settings() {
    assert_eq!(action_for_key(false, Key::Char('s'), true), Action::OpenSettingsMenu);
    assert_eq!(action_for_key(false, Key::Char('ы'), true), Action::OpenSettingsMenu);
    assert_eq!(action_for_key(false, Key::Char('s'), false), Action::Nothing);
    assert_eq!(action_for_key(false, Key::Char('q'), true), Action::Quit);
}
