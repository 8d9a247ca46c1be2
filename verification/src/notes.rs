//! The texts written into notes: the template of a new note, the inbox file and
//! its quick entries, and the plain-text export of a note.
use vstd::prelude::*;
use crate::text::{
    trim_start, trim_end, lines, lowercase, starts_with, ends_with, trim, trim_start_char, remove_char, seqs_of,
    chars_of, string_of, lower_chars, has_prefix, has_suffix, split_lines, trim_chars,
    trim_start_char_chars, remove_char_chars,
};
use crate::ui::{join_with, join_parts, tags_word};

verus! {

/// The text of a new inbox file.
pub open spec fn inbox_template_text() -> Seq<char> {
    "Tags: #inbox #new\n\n# \u{412}\u{445}\u{43e}\u{434}\u{44f}\u{449}\u{438}\u{435} \u{437}\u{430}\u{43c}\u{435}\u{442}\u{43a}\u{438}\n"@
}

/// The text of a new inbox file.
pub fn inbox_template() -> (r: String)
    ensures
        r@ == inbox_template_text(),
{
    "Tags: #inbox #new\n\n# \u{412}\u{445}\u{43e}\u{434}\u{44f}\u{449}\u{438}\u{435} \u{437}\u{430}\u{43c}\u{435}\u{442}\u{43a}\u{438}\n".to_owned()
}

/// The entry that a quick note appends to the inbox: a `##` header holding the
/// note, and a line to fill in later.
pub open spec fn inbox_entry_text(note: Seq<char>) -> Seq<char> {
    "\n## \u{417}\u{430}\u{43c}\u{435}\u{442}\u{43a}\u{430}: "@ + note
        + "\n`\u{432}\u{432}\u{435}\u{434}\u{438}\u{442}\u{435} \u{434}\u{435}\u{442}\u{430}\u{43b}\u{438} \u{43a}\u{43e}\u{43c}\u{430}\u{43d}\u{434}\u{44b} \u{43f}\u{43e}\u{437}\u{436}\u{435} \u{447}\u{435}\u{440}\u{435}\u{437} Vim`\n"@
}

/// The entry that a quick note appends to the inbox.
pub fn inbox_entry(note: &str) -> (r: String)
    ensures
        r@ == inbox_entry_text(note@),
{
    let mut r = "\n## \u{417}\u{430}\u{43c}\u{435}\u{442}\u{43a}\u{430}: ".to_owned();
    r.append(note);
    r.append(
        "\n`\u{432}\u{432}\u{435}\u{434}\u{438}\u{442}\u{435} \u{434}\u{435}\u{442}\u{430}\u{43b}\u{438} \u{43a}\u{43e}\u{43c}\u{430}\u{43d}\u{434}\u{44b} \u{43f}\u{43e}\u{437}\u{436}\u{435} \u{447}\u{435}\u{440}\u{435}\u{437} Vim`\n",
    );
    r
}

/// The characters `.md`.
pub open spec fn md_ext() -> Seq<char> {
    seq!['.', 'm', 'd']
}

/// `s` without the copies of `.md` at its end (`str::trim_end_matches(".md")`).
pub open spec fn strip_md(s: Seq<char>) -> Seq<char>
    decreases s.len(),
{
    if ends_with(s, md_ext()) {
        strip_md(s.subrange(0, s.len() - 3))
    } else {
        s
    }
}

/// The text of a new note titled `title`: a tags line to change, the title as a
/// header, and a sub-header with a command to fill in.
pub open spec fn note_template_text(title: Seq<char>) -> Seq<char> {
    "Tags: #change_me #general\n\n# "@ + title
        + "\n## \u{41a}\u{440}\u{430}\u{442}\u{43a}\u{43e}\u{435} \u{43e}\u{43f}\u{438}\u{441}\u{430}\u{43d}\u{438}\u{435} \u{441}\u{43e}\u{432}\u{435}\u{442}\u{430}\n`\u{432}\u{441}\u{442}\u{430}\u{432}\u{44c}\u{442}\u{435}_\u{43a}\u{43e}\u{43c}\u{430}\u{43d}\u{434}\u{443}_\u{441}\u{44e}\u{434}\u{430}`\n"@
}

/// Whether a name typed for a new item names a note: it ends with `.md`.
pub fn names_note(name: &str) -> (b: bool)
    ensures
        b == ends_with(name@, md_ext()),
{
    let v = chars_of(name);
    let ext: Vec<char> = vec!['.', 'm', 'd'];
    assert(ext@ =~= md_ext());
    has_suffix(v.as_slice(), ext.as_slice())
}

/// The text of a new note named `file_name`: its title is the name without its
/// trailing `.md`s.
pub fn note_template(file_name: &str) -> (r: String)
    ensures
        r@ == note_template_text(strip_md(file_name@)),
{
    let v = chars_of(file_name);
    let ext: Vec<char> = vec!['.', 'm', 'd'];
    assert(ext@ =~= md_ext());
    let mut end = v.len();
    assert(v@.subrange(0, end as int) =~= v@);
    while end >= 3 && has_suffix(&v.as_slice()[0..end], ext.as_slice())
        invariant
            end <= v.len(),
            ext@ == md_ext(),
            strip_md(v@) == strip_md(v@.subrange(0, end as int)),
        decreases end,
    {
        assert(v@.subrange(0, end as int).subrange(0, end - 3) =~= v@.subrange(0, end - 3));
        end -= 3;
    }
    proof {
        let t = v@.subrange(0, end as int);
        if ends_with(t, md_ext()) {
            assert(t.len() >= 3);
        }
    }
    let title = crate::text::copy_range(v.as_slice(), 0, end);
    let mut r = "Tags: #change_me #general\n\n# ".to_owned();
    r.append(string_of(title.as_slice()).as_str());
    r.append(
        "\n## \u{41a}\u{440}\u{430}\u{442}\u{43a}\u{43e}\u{435} \u{43e}\u{43f}\u{438}\u{441}\u{430}\u{43d}\u{438}\u{435} \u{441}\u{43e}\u{432}\u{435}\u{442}\u{430}\n`\u{432}\u{441}\u{442}\u{430}\u{432}\u{44c}\u{442}\u{435}_\u{43a}\u{43e}\u{43c}\u{430}\u{43d}\u{434}\u{443}_\u{441}\u{44e}\u{434}\u{430}`\n",
    );
    r
}

/// A line of a note as the export shows it: without its leading `#`s, without
/// back quotes, trimmed.
pub open spec fn export_line(line: Seq<char>) -> Seq<char> {
    trim(remove_char(trim_start_char(line, '#'), '`'))
}

/// The exported lines of a note: each line cleaned, the empty ones and the tags
/// lines left out.
pub open spec fn export_lines(ls: Seq<Seq<char>>) -> Seq<Seq<char>>
    decreases ls.len(),
{
    if ls.len() == 0 {
        seq![]
    } else {
        let rest = export_lines(ls.drop_last());
        let clean = export_line(ls.last());
        if clean.len() > 0 && !starts_with(lowercase(clean), tags_word()) {
            rest.push(clean)
        } else {
            rest
        }
    }
}

/// The plain-text export of a note's text: its exported lines joined by line
/// feeds.
pub open spec fn export_text(content: Seq<char>) -> Seq<char> {
    join_with(export_lines(lines(content)), seq!['\n'])
}

/// The plain-text export of a note's text.
pub fn clean_export_text(content: &str) -> (r: String)
    ensures
        r@ == export_text(content@),
{
    let ls = split_lines(chars_of(content).as_slice());
    let marker: Vec<char> = vec!['t', 'a', 'g', 's', ':'];
    assert(marker@ =~= tags_word());
    let mut kept: Vec<Vec<char>> = Vec::new();
    let mut i: usize = 0;
    while i < ls.len()
        invariant
            i <= ls.len(),
            seqs_of(ls@) == lines(content@),
            marker@ == tags_word(),
            seqs_of(kept@) == export_lines(seqs_of(ls@).take(i as int)),
        decreases ls.len() - i,
    {
        proof {
            assert(seqs_of(ls@).take(i + 1).drop_last() =~= seqs_of(ls@).take(i as int));
            assert(seqs_of(ls@).take(i + 1).last() == ls@[i as int]@);
        }
        let a = trim_start_char_chars(ls[i].as_slice(), '#');
        let b = remove_char_chars(a.as_slice(), '`');
        let clean = trim_chars(b.as_slice());
        if clean.len() > 0 {
            let low = lower_chars(clean.as_slice());
            if !has_prefix(low.as_slice(), marker.as_slice()) {
                let ghost before = seqs_of(kept@);
                kept.push(clean);
                assert(seqs_of(kept@) =~= before.push(clean@));
            }
        }
        i += 1;
    }
    assert(seqs_of(ls@).take(ls.len() as int) =~= seqs_of(ls@));
    let nl: Vec<char> = vec!['\n'];
    assert(nl@ =~= seq!['\n']);
    let joined = join_parts(&kept, nl.as_slice());
    string_of(joined.as_slice())
}

/// Every line of an export holds text, and none of them lists tags.
pub proof fn law_export_lines_clean(ls: Seq<Seq<char>>)
    ensures
        forall|i: int|
            0 <= i < export_lines(ls).len() ==> #[trigger] export_lines(ls)[i].len() > 0
                && !starts_with(lowercase(export_lines(ls)[i]), tags_word()),
    decreases ls.len(),
{
    if ls.len() > 0 {
        law_export_lines_clean(ls.drop_last());
        let rest = export_lines(ls.drop_last());
        let r = export_lines(ls);
        assert forall|i: int| 0 <= i < r.len() implies #[trigger] r[i].len() > 0 && !starts_with(
            lowercase(r[i]),
            tags_word(),
        ) by {
            if i < rest.len() {
                assert(r[i] == rest[i]);
            }
        }
    }
}

/// `c` does not occur in `s`.
pub open spec fn lacks(s: Seq<char>, c: char) -> bool {
    forall|k: int| 0 <= k < s.len() ==> #[trigger] s[k] != c
}

proof fn lemma_remove_char_lacks(s: Seq<char>, c: char)
    ensures
        lacks(remove_char(s, c), c),
    decreases s.len(),
{
    if s.len() > 0 {
        lemma_remove_char_lacks(s.drop_last(), c);
        let r = remove_char(s.drop_last(), c);
        if s.last() != c {
            assert forall|k: int| 0 <= k < r.push(s.last()).len() implies #[trigger] r.push(
                s.last(),
            )[k] != c by {
                if k < r.len() {
                    assert(r.push(s.last())[k] == r[k]);
                }
            }
        }
    }
}

proof fn lemma_trim_start_lacks(s: Seq<char>, c: char)
    requires
        lacks(s, c),
    ensures
        lacks(trim_start(s), c),
    decreases s.len(),
{
    if s.len() > 0 && crate::text::is_white_space(s[0]) {
        assert forall|k: int| 0 <= k < s.drop_first().len() implies #[trigger] s.drop_first()[k]
            != c by {
            assert(s.drop_first()[k] == s[k + 1]);
        }
        lemma_trim_start_lacks(s.drop_first(), c);
    }
}

proof fn lemma_trim_end_lacks(s: Seq<char>, c: char)
    requires
        lacks(s, c),
    ensures
        lacks(trim_end(s), c),
    decreases s.len(),
{
    if s.len() > 0 && crate::text::is_white_space(s.last()) {
        assert forall|k: int| 0 <= k < s.drop_last().len() implies #[trigger] s.drop_last()[k]
            != c by {
            assert(s.drop_last()[k] == s[k]);
        }
        lemma_trim_end_lacks(s.drop_last(), c);
    }
}

proof fn lemma_export_line_lacks(line: Seq<char>)
    ensures
        lacks(export_line(line), '`'),
{
    let b = remove_char(trim_start_char(line, '#'), '`');
    lemma_remove_char_lacks(trim_start_char(line, '#'), '`');
    lemma_trim_start_lacks(b, '`');
    lemma_trim_end_lacks(trim_start(b), '`');
}

/// No exported line holds a back quote: every back quote of the note is taken
/// out, wherever it stands in its line.
pub proof fn law_export_lines_without_back_quotes(ls: Seq<Seq<char>>)
    ensures
        forall|i: int|
            0 <= i < export_lines(ls).len() ==> lacks(#[trigger] export_lines(ls)[i], '`'),
    decreases ls.len(),
{
    if ls.len() > 0 {
        law_export_lines_without_back_quotes(ls.drop_last());
        lemma_export_line_lacks(ls.last());
        let rest = export_lines(ls.drop_last());
        let r = export_lines(ls);
        assert forall|i: int| 0 <= i < r.len() implies lacks(#[trigger] r[i], '`') by {
            if i < rest.len() {
                assert(r[i] == rest[i]);
            }
        }
    }
}

proof fn lemma_join_lacks(parts: Seq<Seq<char>>, sep: Seq<char>, c: char)
    requires
        forall|i: int| 0 <= i < parts.len() ==> lacks(#[trigger] parts[i], c),
        lacks(sep, c),
    ensures
        lacks(join_with(parts, sep), c),
    decreases parts.len(),
{
    if parts.len() > 1 {
        let init = parts.drop_last();
        assert forall|i: int| 0 <= i < init.len() implies lacks(#[trigger] init[i], c) by {
            assert(init[i] == parts[i]);
        }
        lemma_join_lacks(init, sep, c);
        let a = join_with(init, sep);
        let j = a + sep + parts.last();
        assert(lacks(parts[parts.len() - 1], c));
        assert forall|k: int| 0 <= k < j.len() implies #[trigger] j[k] != c by {
            if k < a.len() {
                assert(j[k] == a[k]);
            } else if k < a.len() + sep.len() {
                assert(j[k] == sep[k - a.len()]);
            } else {
                assert(j[k] == parts.last()[k - a.len() - sep.len()]);
            }
        }
    } else if parts.len() == 1 {
        assert(lacks(parts[0], c));
    }
}

/// The plain-text export of a note holds no back quote at all.
pub proof fn law_export_without_back_quotes(content: Seq<char>)
    ensures
        lacks(export_text(content), '`'),
{
    law_export_lines_without_back_quotes(lines(content));
    lemma_join_lacks(export_lines(lines(content)), seq!['\n'], '`');
}

} // verus!
