use ttytips::config::{config_dir, config_file, home_dir, Config};

#[test]
fn defaults_without_file() {
    let c = Config::load("/home/u", None);
    assert_eq!(c.language, "ru");
    assert_eq!(c.db_root_path, "/home/u/.config/ttytips/db");
    assert_eq!(c.editor, "nano");
}

#[test]
fn file_values_override_defaults() {
    let text = "language = \"en\"\ndb_root_path = \"/data/notes\"\neditor = \"vim\"\n";
    let c = Config::load("/home/u/", Some(text));
    assert_eq!(c.language, "en");
    assert_eq!(c.db_root_path, "/data/notes");
    assert_eq!(c.editor, "vim");
}

#[test]
fn missing_keys_keep_defaults_and_later_lines_win() {
    let text = "editor = vi\r\nunknown = 1\neditor =   \"micro\"  \n";
    let c = Config::load("h", Some(text));
    assert_eq!(c.language, "ru");
    assert_eq!(c.db_root_path, "h/.config/ttytips/db");
    assert_eq!(c.editor, "micro");
}

#[test]
fn value_stops_at_second_equals_sign() {
    let c = Config::load("h", Some("language = en=ru\n"));
    assert_eq!(c.language, "en");
}

#[test]
fn save_writes_three_lines() {
    let c = Config { language: "en".to_string(), db_root_path: "/x/y".to_string(), editor: "vi".to_string() };
    assert_eq!(c.save(), "language = \"en\"\ndb_root_path = \"/x/y\"\neditor = \"vi\"\n");
}

#[test]
fn save_then_load_gives_the_same_settings() {
    let c = Config { language: "ru".to_string(), db_root_path: "/my notes/db".to_string(), editor: "neovim".to_string() };
    let back = Config::load("/elsewhere", Some(&c.save()));
    assert_eq!(back.language, c.language);
    assert_eq!(back.db_root_path, c.db_root_path);
    assert_eq!(back.editor, c.editor);
}

#[test]
fn home_and_settings_paths() {
    assert_eq!(home_dir(None), ".");
    assert_eq!(home_dir(Some("/home/u".to_string())), "/home/u");
    assert_eq!(config_dir("/home/u"), "/home/u/.config/ttytips");
    assert_eq!(config_file("/home/u/"), "/home/u/.config/ttytips/config.toml");
    assert_eq!(config_file(""), ".config/ttytips/config.toml");
}
