//! The settings file: where it lives, how it is read, and how it is written.
use vstd::prelude::*;
use crate::text::{
    lines, trim, remove_char, second_piece, starts_with, path_join, seqs_of, chars_of, string_of,
    split_lines, trim_chars, remove_char_chars, second_piece_chars, has_prefix, join_path,
};

verus! {

/// The settings: the interface language, the directory that holds the
/// workspaces, and the text editor.
pub struct Config {
    pub language: String,
    pub db_root_path: String,
    pub editor: String,
}

/// The mathematical value of the settings.
#[verifier::ext_equal]
pub struct ConfigView {
    pub language: Seq<char>,
    pub db_root_path: Seq<char>,
    pub editor: Seq<char>,
}

impl View for Config {
    type V = ConfigView;

    open spec fn view(&self) -> ConfigView {
        ConfigView {
            language: self.language@,
            db_root_path: self.db_root_path@,
            editor: self.editor@,
        }
    }
}

/// The home directory: the value of `HOME`, or `.` where it is not set.
pub open spec fn home_or_dot(home: Option<Seq<char>>) -> Seq<char> {
    match home {
        Some(h) => h,
        None => "."@,
    }
}

/// The directory of the settings file under the home directory.
pub open spec fn config_dir_of(home: Seq<char>) -> Seq<char> {
    path_join(home, ".config/ttytips"@)
}

/// The settings file under the home directory.
pub open spec fn config_file_of(home: Seq<char>) -> Seq<char> {
    path_join(home, ".config/ttytips/config.toml"@)
}

/// The default directory of the workspaces under the home directory.
pub open spec fn default_db_of(home: Seq<char>) -> Seq<char> {
    path_join(home, ".config/ttytips/db"@)
}

/// The settings that hold where no file says otherwise.
pub open spec fn default_config(home: Seq<char>) -> ConfigView {
    ConfigView { language: "ru"@, db_root_path: default_db_of(home), editor: "nano"@ }
}

/// The value of a `key = value` line: the text after the first `=` (up to a
/// second one), trimmed, with its double quotes taken out.
pub open spec fn line_value(line: Seq<char>) -> Seq<char> {
    remove_char(trim(second_piece(line, '=')), '"')
}

/// The settings after reading one line of the file: a line that starts with
/// `language =`, `db_root_path =` or `editor =` sets that field.
pub open spec fn config_step(c: ConfigView, line: Seq<char>) -> ConfigView {
    ConfigView {
        language: if starts_with(line, "language ="@) {
            line_value(line)
        } else {
            c.language
        },
        db_root_path: if starts_with(line, "db_root_path ="@) {
            line_value(line)
        } else {
            c.db_root_path
        },
        editor: if starts_with(line, "editor ="@) {
            line_value(line)
        } else {
            c.editor
        },
    }
}

/// The settings after reading the lines `ls` in order, starting from `c`.
pub open spec fn config_lines(c: ConfigView, ls: Seq<Seq<char>>) -> ConfigView
    decreases ls.len(),
{
    if ls.len() == 0 {
        c
    } else {
        config_step(config_lines(c, ls.drop_last()), ls.last())
    }
}

/// The settings read from the settings file's text (`None` where there is no file
/// or it cannot be read), the defaults filling what the file does not set.
pub open spec fn config_from(home: Seq<char>, text: Option<Seq<char>>) -> ConfigView {
    match text {
        Some(t) => config_lines(default_config(home), lines(t)),
        None => default_config(home),
    }
}

/// The line `key = "value"`.
pub open spec fn setting_line(key: Seq<char>, value: Seq<char>) -> Seq<char> {
    key + " = \""@ + value + "\""@
}

/// The text of the settings file for the settings `c`: one `key = "value"` line
/// per field, each ended by a line feed.
pub open spec fn config_text(c: ConfigView) -> Seq<char> {
    setting_line("language"@, c.language) + "\n"@ + setting_line("db_root_path"@, c.db_root_path)
        + "\n"@ + setting_line("editor"@, c.editor) + "\n"@
}

/// The home directory: `home` where it is set, else `.`.
pub fn home_dir(home: Option<String>) -> (r: String)
    ensures
        r@ == home_or_dot(
            match home {
                Some(h) => Some(h@),
                None => None,
            },
        ),
{
    match home {
        Some(h) => h,
        None => ".".to_owned(),
    }
}

/// The directory that holds the settings file.
pub fn config_dir(home: &str) -> (r: String)
    ensures
        r@ == config_dir_of(home@),
{
    join_path(home, ".config/ttytips")
}

/// The settings file.
pub fn config_file(home: &str) -> (r: String)
    ensures
        r@ == config_file_of(home@),
{
    join_path(home, ".config/ttytips/config.toml")
}

/// Reads the value of a `key = value` line.
fn read_value(line: &[char]) -> (r: String)
    ensures
        r@ == line_value(line@),
{
    let piece = second_piece_chars(line, '=');
    let t = trim_chars(piece.as_slice());
    let v = remove_char_chars(t.as_slice(), '"');
    string_of(v.as_slice())
}

impl Config {
    /// The settings read from the text of the settings file under `home`, or the
    /// defaults where `text` is `None` (no file, or one that cannot be read):
    /// language `ru`, the workspaces under `.config/ttytips/db` in `home`, and the
    /// editor `nano`. A line that starts with `language =`, `db_root_path =` or
    /// `editor =` sets that field, later lines winning.
    pub fn load(home: &str, text: Option<&str>) -> (c: Config)
        ensures
            c@ == config_from(
                home@,
                match text {
                    Some(t) => Some(t@),
                    None => None,
                },
            ),
    {
        let mut c = Config {
            language: "ru".to_owned(),
            db_root_path: join_path(home, ".config/ttytips/db"),
            editor: "nano".to_owned(),
        };
        assert(c@ =~= default_config(home@));
        match text {
            None => c,
            Some(t) => {
                let ls = split_lines(chars_of(t).as_slice());
                let k_lang = chars_of("language =");
                let k_path = chars_of("db_root_path =");
                let k_editor = chars_of("editor =");
                let mut i: usize = 0;
                while i < ls.len()
                    invariant
                        i <= ls.len(),
                        seqs_of(ls@) == lines(t@),
                        k_lang@ == "language ="@,
                        k_path@ == "db_root_path ="@,
                        k_editor@ == "editor ="@,
                        c@ == config_lines(default_config(home@), seqs_of(ls@).take(i as int)),
                    decreases ls.len() - i,
                {
                    let line = ls[i].as_slice();
                    proof {
                        assert(seqs_of(ls@).take(i + 1).drop_last() =~= seqs_of(ls@).take(
                            i as int,
                        ));
                        assert(seqs_of(ls@).take(i + 1).last() == line@);
                    }
                    if has_prefix(line, k_lang.as_slice()) {
                        c.language = read_value(line);
                    }
                    if has_prefix(line, k_path.as_slice()) {
                        c.db_root_path = read_value(line);
                    }
                    if has_prefix(line, k_editor.as_slice()) {
                        c.editor = read_value(line);
                    }
                    i += 1;
                }
                assert(seqs_of(ls@).take(ls.len() as int) =~= seqs_of(ls@));
                c
            },
        }
    }

    /// The text that saving writes to the settings file: one `key = "value"` line
    /// for each field, in the order language, workspaces directory, editor.
    pub fn save(&self) -> (r: String)
        ensures
            r@ == config_text(self@),
    {
        let mut r = "language".to_owned();
        r.append(" = \"");
        r.append(self.language.as_str());
        r.append("\"");
        r.append("\n");
        r.append("db_root_path");
        r.append(" = \"");
        r.append(self.db_root_path.as_str());
        r.append("\"");
        r.append("\n");
        r.append("editor");
        r.append(" = \"");
        r.append(self.editor.as_str());
        r.append("\"");
        r.append("\n");
        r
    }
}

// ---------------------------------------------------------------------------
// Saving, then loading
// ---------------------------------------------------------------------------

/// A value that a settings line carries and gives back unchanged: it holds no
/// `=`, no double quote and no line feed.
pub open spec fn storable_value(v: Seq<char>) -> bool {
    forall|j: int| 0 <= j < v.len() ==> v[j] != '=' && v[j] != '"' && v[j] != '\n'
}

/// Settings whose three values are storable.
pub open spec fn storable_config(c: ConfigView) -> bool {
    storable_value(c.language) && storable_value(c.db_root_path) && storable_value(c.editor)
}

proof fn lemma_remove_quotes(v: Seq<char>)
    requires
        storable_value(v),
    ensures
        remove_char(seq!['"'] + v + seq!['"'], '"') == v,
{
    crate::text::lemma_remove_char_add(seq!['"'] + v, seq!['"'], '"');
    crate::text::lemma_remove_char_add(seq!['"'], v, '"');
    assert(seq!['"'].drop_last() =~= seq![]);
    assert(remove_char(seq!['"'], '"') == remove_char(seq![], '"'));
    assert(remove_char(seq!['"'], '"') =~= seq![]);
    crate::text::lemma_remove_char_absent(v, '"');
    assert(seq![] + v + seq![] =~= v);
    assert(remove_char(seq!['"'] + v, '"') == v);
}

/// The value of the line `key = "v"` is `v`, for a key without `=` and a
/// storable `v`.
proof fn lemma_setting_value(key: Seq<char>, v: Seq<char>)
    requires
        forall|j: int| 0 <= j < key.len() ==> key[j] != '=',
        storable_value(v),
    ensures
        line_value(setting_line(key, v)) == v,
{
    reveal_strlit(" = \"");
    reveal_strlit("\"");
    let line = setting_line(key, v);
    let p = key.len() as int + 1;
    assert(line[p] == '=');
    assert forall|j: int| 0 <= j < p implies line[j] != '=' by {
        if j < key.len() {
            assert(line[j] == key[j]);
        }
    }
    crate::text::lemma_find_from_at(line, '=', 0, p);
    assert forall|j: int| p + 1 <= j < line.len() implies line[j] != '=' by {
        if j >= p + 3 && j < p + 3 + v.len() {
            assert(line[j] == v[j - p - 3]);
        }
    }
    crate::text::lemma_find_from_at(line, '=', p + 1, line.len() as int);
    let piece = line.subrange(p + 1, line.len() as int);
    assert(piece =~= seq![' ', '"'] + v + seq!['"']);
    let inner = seq!['"'] + v + seq!['"'];
    assert(piece.drop_first() =~= inner);
    assert(crate::text::trim_start(inner) == inner);
    assert(crate::text::trim_end(inner) == inner);
    assert(trim(piece) == inner);
    lemma_remove_quotes(v);
}

proof fn lemma_not_prefix(line: Seq<char>, key: Seq<char>)
    requires
        line.len() > 0,
        key.len() > 0,
        line[0] != key[0],
    ensures
        !starts_with(line, key),
{
    if key.len() <= line.len() {
        assert(line.subrange(0, key.len() as int)[0] != key[0]);
    }
}

proof fn lemma_line_has_key(key: Seq<char>, v: Seq<char>, k: Seq<char>)
    requires
        k =~= key + seq![' ', '='],
    ensures
        starts_with(setting_line(key, v), k),
{
    reveal_strlit(" = \"");
    assert(setting_line(key, v).subrange(0, k.len() as int) =~= k);
}

/// Saving settings and loading the text that was saved gives the same settings
/// back, for every home directory, whenever no value holds `=`, a double quote or
/// a line feed.
pub proof fn law_save_then_load(home: Seq<char>, c: ConfigView)
    requires
        storable_config(c),
    ensures
        config_from(home, Some(config_text(c))) == c,
{
    reveal_strlit("language");
    reveal_strlit("db_root_path");
    reveal_strlit("editor");
    reveal_strlit("\n");
    reveal_strlit("language =");
    reveal_strlit("db_root_path =");
    reveal_strlit("editor =");
    reveal_strlit("\"");
    reveal_strlit(" = \"");
    let l1 = setting_line("language"@, c.language);
    let l2 = setting_line("db_root_path"@, c.db_root_path);
    let l3 = setting_line("editor"@, c.editor);
    assert forall|key: Seq<char>, v: Seq<char>, j: int|
        storable_value(v) && (forall|i: int| 0 <= i < key.len() ==> key[i] != '\n') && 0 <= j
            < setting_line(key, v).len() implies #[trigger] setting_line(key, v)[j] != '\n' by {
        let line = setting_line(key, v);
        if j < key.len() {
            assert(line[j] == key[j]);
        } else if j >= key.len() + 4 && j < key.len() + 4 + v.len() {
            assert(line[j] == v[j - key.len() - 4]);
        }
    }
    let t = config_text(c);
    assert(t =~= l1 + seq!['\n'] + (l2 + seq!['\n'] + (l3 + seq!['\n'] + seq![])));
    crate::text::lemma_lines_cons(l1, l2 + seq!['\n'] + (l3 + seq!['\n'] + seq![]));
    crate::text::lemma_lines_cons(l2, l3 + seq!['\n'] + seq![]);
    crate::text::lemma_lines_cons(l3, seq![]);
    assert(crate::text::lines(seq![]) =~= seq![]);
    assert(crate::text::strip_cr(l1) == l1);
    assert(crate::text::strip_cr(l2) == l2);
    assert(crate::text::strip_cr(l3) == l3);
    let ls = lines(t);
    assert(ls =~= seq![l1, l2, l3]);
    lemma_setting_value("language"@, c.language);
    lemma_setting_value("db_root_path"@, c.db_root_path);
    lemma_setting_value("editor"@, c.editor);
    lemma_line_has_key("language"@, c.language, "language ="@);
    lemma_line_has_key("db_root_path"@, c.db_root_path, "db_root_path ="@);
    lemma_line_has_key("editor"@, c.editor, "editor ="@);
    lemma_not_prefix(l1, "db_root_path ="@);
    lemma_not_prefix(l1, "editor ="@);
    lemma_not_prefix(l2, "language ="@);
    lemma_not_prefix(l2, "editor ="@);
    lemma_not_prefix(l3, "language ="@);
    lemma_not_prefix(l3, "db_root_path ="@);
    assert(ls.drop_last() =~= seq![l1, l2]);
    assert(ls.drop_last().drop_last() =~= seq![l1]);
    assert(ls.drop_last().drop_last().drop_last() =~= seq![]);
    let d = default_config(home);
    assert(config_lines(d, ls.drop_last().drop_last().drop_last()) == d);
    let c1 = config_step(d, l1);
    assert(config_lines(d, ls.drop_last().drop_last()) == c1);
    let c2 = config_step(c1, l2);
    assert(config_lines(d, ls.drop_last()) == c2);
    let c3 = config_step(c2, l3);
    assert(config_lines(d, ls) == c3);
    assert(c3 =~= c);
}

} // verus!
