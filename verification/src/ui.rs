//! What the screen shows, apart from drawing it: the modes of the interface,
//! the labels of tree items, the preview of a note, the tag line, and the place
//! of a centred pop-up.
use vstd::prelude::*;
use crate::text::{
    lines, words, lowercase, starts_with, trim, trim_char, trim_start_char, remove_char,
    seqs_of, chars_of, string_of, lower_chars, has_prefix, split_lines, split_words, trim_chars,
    trim_char_chars, trim_start_char_chars, remove_char_chars,
};
use crate::engine::NodeType;
use ratatui::layout::{Constraint, Direction, Layout, Rect};

verus! {

/// The mode of the interface: browsing, or one of the prompts and menus.
#[derive(Clone, Copy, Debug, PartialEq, Eq, Structural)]
pub enum InputState {
    Normal,
    TextSearching,
    TagSearching,
    Creating,
    ConfirmDelete,
    WorkspaceSwitching,
    WorkspaceCreating,
    QuickInboxInput,
    SettingsMenu,
    SettingsPathInput,
    HelpMenu,
}

/// The modes in which keys type text.
pub open spec fn is_typing_mode(m: InputState) -> bool {
    m == InputState::TextSearching || m == InputState::TagSearching || m == InputState::Creating
        || m == InputState::ConfirmDelete || m == InputState::WorkspaceCreating || m
        == InputState::QuickInboxInput || m == InputState::SettingsPathInput
}

/// Whether keys type text in mode `m`.
pub fn is_input_mode(m: InputState) -> (b: bool)
    ensures
        b == is_typing_mode(m),
{
    m == InputState::TextSearching || m == InputState::TagSearching || m == InputState::Creating
        || m == InputState::ConfirmDelete || m == InputState::WorkspaceCreating || m
        == InputState::QuickInboxInput || m == InputState::SettingsPathInput
}

// ---------------------------------------------------------------------------
// Tree items
// ---------------------------------------------------------------------------

/// `s` repeated `n` times.
pub open spec fn repeat_seq(s: Seq<char>, n: nat) -> Seq<char>
    decreases n,
{
    if n == 0 {
        seq![]
    } else {
        repeat_seq(s, (n - 1) as nat) + s
    }
}

/// The mark before a tree item's name: a folder or a note icon, or for a header
/// two spaces of indent per level below the first and a branch.
pub open spec fn prefix_of(t: NodeType) -> Seq<char> {
    match t {
        NodeType::Folder => "\u{1F4C1} "@,
        NodeType::File => "\u{1F4DD} "@,
        NodeType::MarkdownHeader { level } => repeat_seq(
            "  "@,
            if level == 0 {
                0
            } else {
                (level - 1) as nat
            },
        ) + "\u{2514}\u{2500} "@,
    }
}

/// The mark before a tree item's name.
pub fn node_prefix(t: NodeType) -> (r: String)
    ensures
        r@ == prefix_of(t),
{
    match t {
        NodeType::Folder => "\u{1F4C1} ".to_owned(),
        NodeType::File => "\u{1F4DD} ".to_owned(),
        NodeType::MarkdownHeader { level } => {
            let n: usize = if level == 0 {
                0
            } else {
                level - 1
            };
            let mut r = String::new();
            let mut i: usize = 0;
            while i < n
                invariant
                    i <= n,
                    r@ == repeat_seq("  "@, i as nat),
                decreases n - i,
            {
                r.append("  ");
                i += 1;
            }
            r.append("\u{2514}\u{2500} ");
            r
        },
    }
}

// ---------------------------------------------------------------------------
// Joining
// ---------------------------------------------------------------------------

/// The parts joined with `sep` between them.
pub open spec fn join_with(parts: Seq<Seq<char>>, sep: Seq<char>) -> Seq<char>
    decreases parts.len(),
{
    if parts.len() == 0 {
        seq![]
    } else if parts.len() == 1 {
        parts[0]
    } else {
        join_with(parts.drop_last(), sep) + sep + parts.last()
    }
}

/// The parts joined with `sep` between them (`[String]::join`).
pub fn join_parts(parts: &Vec<Vec<char>>, sep: &[char]) -> (r: Vec<char>)
    ensures
        r@ == join_with(seqs_of(parts@), sep@),
{
    let mut r: Vec<char> = Vec::new();
    let mut i: usize = 0;
    while i < parts.len()
        invariant
            i <= parts.len(),
            r@ == join_with(seqs_of(parts@).take(i as int), sep@),
        decreases parts.len() - i,
    {
        let ghost before = r@;
        proof {
            assert(seqs_of(parts@).take(i + 1).drop_last() =~= seqs_of(parts@).take(i as int));
            assert(seqs_of(parts@).take(i + 1).last() == parts@[i as int]@);
        }
        if i > 0 {
            let mut k: usize = 0;
            while k < sep.len()
                invariant
                    k <= sep.len(),
                    r@ == before + sep@.take(k as int),
                decreases sep.len() - k,
            {
                r.push(sep[k]);
                assert(before + sep@.take(k + 1) =~= (before + sep@.take(k as int)).push(
                    sep@[k as int],
                ));
                k += 1;
            }
            assert(sep@.take(sep.len() as int) =~= sep@);
        } else {
            assert(seqs_of(parts@).take(1)[0] == parts@[0]@);
        }
        let ghost mid = r@;
        let p = &parts[i];
        let mut k: usize = 0;
        while k < p.len()
            invariant
                k <= p.len(),
                r@ == mid + p@.take(k as int),
            decreases p.len() - k,
        {
            r.push(p[k]);
            assert(mid + p@.take(k + 1) =~= (mid + p@.take(k as int)).push(p@[k as int]));
            k += 1;
        }
        assert(p@.take(p.len() as int) =~= p@);
        proof {
            if i == 0 {
                assert(before =~= seq![]);
                assert(r@ =~= p@);
            }
        }
        i += 1;
    }
    assert(seqs_of(parts@).take(parts.len() as int) =~= seqs_of(parts@));
    r
}

// ---------------------------------------------------------------------------
// The preview of a note
// ---------------------------------------------------------------------------

/// How a preview line is shown.
#[derive(Clone, Copy, Debug, PartialEq, Eq, Structural)]
pub enum LineKind {
    /// A Markdown header.
    Heading,
    /// A line with a command between back quotes.
    Code,
    /// Any other line.
    Plain,
}

/// A line of the preview, with the text to show.
pub struct PreviewLine {
    pub kind: LineKind,
    pub text: String,
}

/// The characters `tags:`.
pub open spec fn tags_word() -> Seq<char> {
    seq!['t', 'a', 'g', 's', ':']
}

/// The tags named by words: each word that starts with `#`, with its `#`s
/// stripped from both ends.
pub open spec fn hash_words(ws: Seq<Seq<char>>) -> Seq<Seq<char>>
    decreases ws.len(),
{
    if ws.len() == 0 {
        seq![]
    } else {
        let t = hash_words(ws.drop_last());
        let w = ws.last();
        if w.len() > 0 && w[0] == '#' {
            t.push(trim_char(w, '#'))
        } else {
            t
        }
    }
}

/// A line that lists tags: lower-cased, it starts with `tags:`.
pub open spec fn is_tags_line(line: Seq<char>) -> bool {
    starts_with(lowercase(line), tags_word())
}

/// The tags that a tags line names: its words after the first that start with `#`.
pub open spec fn line_hash_tags(line: Seq<char>) -> Seq<Seq<char>> {
    let ws = words(line);
    hash_words(if ws.len() == 0 {
        ws
    } else {
        ws.drop_first()
    })
}

/// The text of a header line: without its leading `#`s, trimmed.
pub open spec fn header_text(line: Seq<char>) -> Seq<char> {
    trim(trim_start_char(line, '#'))
}

/// A line that starts with `#`.
pub open spec fn is_header_line(line: Seq<char>) -> bool {
    line.len() > 0 && line[0] == '#'
}

/// The progress through a note while looking for the section of one header.
#[verifier::ext_equal]
pub struct SectionScan {
    /// The header was found and its lines are being taken.
    pub capture: bool,
    /// The next header after the section was met; nothing more is read.
    pub done: bool,
    /// The lines taken so far.
    pub section: Seq<Seq<char>>,
    /// The tags met so far.
    pub tags: Seq<Seq<char>>,
}

/// Reading one line while looking for the section of the header `name`: until
/// the section ends, a tags line adds its tags; the header whose text is `name`
/// starts (or continues) the section; any other header ends a section that has
/// started; other lines join a started section.
pub open spec fn scan_step(st: SectionScan, line: Seq<char>, name: Seq<char>) -> SectionScan {
    if st.done {
        st
    } else {
        let tags = if is_tags_line(line) {
            st.tags + line_hash_tags(line)
        } else {
            st.tags
        };
        if is_header_line(line) && header_text(line) == name {
            SectionScan { capture: true, done: false, section: st.section.push(line), tags }
        } else if is_header_line(line) && st.capture {
            SectionScan { capture: true, done: true, section: st.section, tags }
        } else if st.capture {
            SectionScan { capture: true, done: false, section: st.section.push(line), tags }
        } else {
            SectionScan { capture: false, done: false, section: st.section, tags }
        }
    }
}

/// The scan after reading the lines `ls`.
pub open spec fn scan_lines(ls: Seq<Seq<char>>, name: Seq<char>) -> SectionScan
    decreases ls.len(),
{
    if ls.len() == 0 {
        SectionScan { capture: false, done: false, section: seq![], tags: seq![] }
    } else {
        scan_step(scan_lines(ls.drop_last(), name), ls.last(), name)
    }
}

/// The text a preview shows for a node read from a file with text `content`:
/// for a header, its section (the header line up to the next header), joined by
/// line feeds; for a folder or a file, the whole text unless it is blank.
pub open spec fn raw_preview(content: Seq<char>, t: NodeType, name: Seq<char>) -> Seq<char> {
    match t {
        NodeType::MarkdownHeader { .. } => join_with(
            scan_lines(lines(content), name).section,
            seq!['\n'],
        ),
        _ => if trim(content).len() == 0 {
            seq![]
        } else {
            content
        },
    }
}

/// The tags a preview adds for a node: for a header, those of the tags lines read
/// before its section ended.
pub open spec fn preview_tags(content: Seq<char>, t: NodeType, name: Seq<char>) -> Seq<
    Seq<char>,
> {
    match t {
        NodeType::MarkdownHeader { .. } => scan_lines(lines(content), name).tags,
        _ => seq![],
    }
}

/// The kind and the shown text of a preview line: headers get a leading space,
/// lines starting or ending with a back quote lose their back quotes and get
/// three leading spaces, other lines get a leading space.
pub open spec fn shown_line(line: Seq<char>) -> (LineKind, Seq<char>) {
    if is_header_line(line) {
        (LineKind::Heading, seq![' '] + line)
    } else if (line.len() > 0 && line[0] == '`') || (line.len() > 0 && line.last() == '`') {
        (LineKind::Code, seq![' ', ' ', ' '] + remove_char(line, '`'))
    } else {
        (LineKind::Plain, seq![' '] + line)
    }
}

/// The shown lines of a text, tags lines left out.
pub open spec fn shown_lines(ls: Seq<Seq<char>>) -> Seq<(LineKind, Seq<char>)>
    decreases ls.len(),
{
    if ls.len() == 0 {
        seq![]
    } else if is_tags_line(ls.last()) {
        shown_lines(ls.drop_last())
    } else {
        shown_lines(ls.drop_last()).push(shown_line(ls.last()))
    }
}

/// The preview of a node: the shown lines of its raw preview text.
pub open spec fn preview_of(content: Seq<char>, t: NodeType, name: Seq<char>) -> Seq<
    (LineKind, Seq<char>),
> {
    let raw = raw_preview(content, t, name);
    if raw.len() == 0 {
        seq![]
    } else {
        shown_lines(lines(raw))
    }
}

/// The kinds and texts of preview lines.
pub open spec fn preview_view(v: Seq<PreviewLine>) -> Seq<(LineKind, Seq<char>)> {
    v.map_values(|l: PreviewLine| (l.kind, l.text@))
}

/// The tags named by the words `ws[1..]`.
fn hash_words_after_first(ws: &Vec<Vec<char>>) -> (r: Vec<Vec<char>>)
    ensures
        seqs_of(r@) == hash_words(
            if ws.len() == 0 {
                seqs_of(ws@)
            } else {
                seqs_of(ws@).drop_first()
            },
        ),
{
    let ghost all = seqs_of(ws@);
    let ghost rest = if ws.len() == 0 {
        all
    } else {
        all.drop_first()
    };
    let start: usize = if ws.len() == 0 {
        0
    } else {
        1
    };
    assert(rest =~= all.subrange(start as int, ws.len() as int));
    let mut r: Vec<Vec<char>> = Vec::new();
    let mut i = start;
    while i < ws.len()
        invariant
            start <= i <= ws.len(),
            all == seqs_of(ws@),
            seqs_of(r@) == hash_words(all.subrange(start as int, i as int)),
        decreases ws.len() - i,
    {
        proof {
            assert(all.subrange(start as int, i + 1).drop_last() =~= all.subrange(
                start as int,
                i as int,
            ));
            assert(all.subrange(start as int, i + 1).last() == ws@[i as int]@);
        }
        let w = &ws[i];
        if w.len() > 0 && w[0] == '#' {
            let t = trim_char_chars(w.as_slice(), '#');
            let ghost before = seqs_of(r@);
            r.push(t);
            assert(seqs_of(r@) =~= before.push(t@));
        }
        i += 1;
    }
    r
}

/// Whether a line lists tags.
fn tags_line(line: &[char]) -> (b: bool)
    ensures
        b == is_tags_line(line@),
{
    let low = lower_chars(line);
    let marker: Vec<char> = vec!['t', 'a', 'g', 's', ':'];
    assert(marker@ =~= tags_word());
    has_prefix(low.as_slice(), marker.as_slice())
}

/// Scans the lines of a note for the section of the header `name`.
fn scan_section(ls: &Vec<Vec<char>>, name: &[char]) -> (r: (Vec<Vec<char>>, Vec<Vec<char>>))
    ensures
        seqs_of(r.0@) == scan_lines(seqs_of(ls@), name@).section,
        seqs_of(r.1@) == scan_lines(seqs_of(ls@), name@).tags,
{
    let mut capture = false;
    let mut done = false;
    let mut section: Vec<Vec<char>> = Vec::new();
    let mut tags: Vec<Vec<char>> = Vec::new();
    let mut i: usize = 0;
    while i < ls.len()
        invariant
            i <= ls.len(),
            scan_lines(seqs_of(ls@).take(i as int), name@) == (SectionScan {
                capture,
                done,
                section: seqs_of(section@),
                tags: seqs_of(tags@),
            }),
        decreases ls.len() - i,
    {
        proof {
            assert(seqs_of(ls@).take(i + 1).drop_last() =~= seqs_of(ls@).take(i as int));
            assert(seqs_of(ls@).take(i + 1).last() == ls@[i as int]@);
        }
        if done {
            i += 1;
            continue;
        }
        let line = &ls[i];
        if tags_line(line.as_slice()) {
            let ws = split_words(line.as_slice());
            let found = hash_words_after_first(&ws);
            let ghost before = seqs_of(tags@);
            let mut k: usize = 0;
            while k < found.len()
                invariant
                    k <= found.len(),
                    seqs_of(tags@) == before + seqs_of(found@).take(k as int),
                decreases found.len() - k,
            {
                let ghost b2 = seqs_of(tags@);
                tags.push(copy_chars(&found[k]));
                assert(seqs_of(tags@) =~= b2.push(found@[k as int]@));
                assert(seqs_of(found@).take(k + 1) =~= seqs_of(found@).take(k as int).push(
                    found@[k as int]@,
                ));
                k += 1;
            }
            assert(seqs_of(found@).take(found.len() as int) =~= seqs_of(found@));
        }
        let is_header = line.len() > 0 && line[0] == '#';
        let mut matches_name = false;
        if is_header {
            let stripped = trim_start_char_chars(line.as_slice(), '#');
            let text = trim_chars(stripped.as_slice());
            matches_name = crate::text::chars_equal(text.as_slice(), name);
        }
        if is_header && matches_name {
            capture = true;
            let ghost before = seqs_of(section@);
            section.push(copy_chars(line));
            assert(seqs_of(section@) =~= before.push(line@));
        } else if is_header && capture {
            done = true;
        } else if capture {
            let ghost before = seqs_of(section@);
            section.push(copy_chars(line));
            assert(seqs_of(section@) =~= before.push(line@));
        }
        i += 1;
    }
    assert(seqs_of(ls@).take(ls.len() as int) =~= seqs_of(ls@));
    (section, tags)
}

/// A copy of `v`.
fn copy_chars(v: &Vec<char>) -> (r: Vec<char>)
    ensures
        r@ == v@,
{
    crate::text::copy_range(v.as_slice(), 0, v.len())
}

/// The shown form of one preview line.
fn show_line(line: &[char]) -> (r: PreviewLine)
    ensures
        (r.kind, r.text@) == shown_line(line@),
{
    if line.len() > 0 && line[0] == '#' {
        let mut t: Vec<char> = vec![' '];
        let ghost start = t@;
        append_chars(&mut t, line);
        assert(t@ =~= seq![' '] + line@);
        PreviewLine { kind: LineKind::Heading, text: string_of(t.as_slice()) }
    } else if (line.len() > 0 && line[0] == '`') || (line.len() > 0 && line[line.len() - 1]
        == '`') {
        let mut t: Vec<char> = vec![' ', ' ', ' '];
        let cleaned = remove_char_chars(line, '`');
        append_chars(&mut t, cleaned.as_slice());
        assert(t@ =~= seq![' ', ' ', ' '] + remove_char(line@, '`'));
        PreviewLine { kind: LineKind::Code, text: string_of(t.as_slice()) }
    } else {
        let mut t: Vec<char> = vec![' '];
        append_chars(&mut t, line);
        assert(t@ =~= seq![' '] + line@);
        PreviewLine { kind: LineKind::Plain, text: string_of(t.as_slice()) }
    }
}

/// Appends the characters of `src` to `dst`.
pub fn append_chars(dst: &mut Vec<char>, src: &[char])
    ensures
        final(dst)@ == old(dst)@ + src@,
{
    let ghost start = dst@;
    let mut k: usize = 0;
    while k < src.len()
        invariant
            k <= src.len(),
            dst@ == start + src@.take(k as int),
        decreases src.len() - k,
    {
        dst.push(src[k]);
        assert(start + src@.take(k + 1) =~= (start + src@.take(k as int)).push(src@[k as int]));
        k += 1;
    }
    assert(src@.take(src.len() as int) =~= src@);
}

/// The preview of a node whose file holds `content`: the lines to show, each
/// with its kind, and the tags that the preview adds to the node's own.
pub fn preview(content: &str, node_type: NodeType, name: &str) -> (r: (Vec<PreviewLine>, Vec<String>))
    ensures
        preview_view(r.0@) == preview_of(content@, node_type, name@),
        crate::engine::strings_view(r.1@) == preview_tags(content@, node_type, name@),
{
    let chars = chars_of(content);
    let ls = split_lines(chars.as_slice());
    let mut extra: Vec<String> = Vec::new();
    let raw: Vec<char> = match node_type {
        NodeType::MarkdownHeader { .. } => {
            let name_chars = chars_of(name);
            let (section, tags) = scan_section(&ls, name_chars.as_slice());
            let mut k: usize = 0;
            while k < tags.len()
                invariant
                    k <= tags.len(),
                    extra.len() == k,
                    forall|j: int| 0 <= j < k ==> #[trigger] extra@[j]@ == tags@[j]@,
                decreases tags.len() - k,
            {
                extra.push(string_of(tags[k].as_slice()));
                k += 1;
            }
            assert(crate::engine::strings_view(extra@) =~= seqs_of(tags@));
            let nl: Vec<char> = vec!['\n'];
            assert(nl@ =~= seq!['\n']);
            let j = join_parts(&section, nl.as_slice());
            assert(j@ == raw_preview(content@, node_type, name@));
            j
        },
        _ => {
            let t = trim_chars(chars.as_slice());
            if t.len() == 0 {
                let e: Vec<char> = Vec::new();
                assert(e@ =~= raw_preview(content@, node_type, name@));
                e
            } else {
                chars
            }
        },
    };
    proof {
        if !(node_type is MarkdownHeader) {
            assert(crate::engine::strings_view(extra@) =~= seq![]);
        }
    }
    assert(raw@ == raw_preview(content@, node_type, name@));
    let mut out: Vec<PreviewLine> = Vec::new();
    if raw.len() == 0 {
        assert(preview_view(out@) =~= seq![]);
        return (out, extra);
    }
    let rl = split_lines(raw.as_slice());
    let mut i: usize = 0;
    while i < rl.len()
        invariant
            i <= rl.len(),
            preview_view(out@) == shown_lines(seqs_of(rl@).take(i as int)),
        decreases rl.len() - i,
    {
        proof {
            assert(seqs_of(rl@).take(i + 1).drop_last() =~= seqs_of(rl@).take(i as int));
            assert(seqs_of(rl@).take(i + 1).last() == rl@[i as int]@);
        }
        let line = &rl[i];
        if !tags_line(line.as_slice()) {
            let l = show_line(line.as_slice());
            let ghost before = preview_view(out@);
            out.push(l);
            assert(preview_view(out@) =~= before.push((l.kind, l.text@)));
        }
        i += 1;
    }
    assert(seqs_of(rl@).take(rl.len() as int) =~= seqs_of(rl@));
    (out, extra)
}

// ---------------------------------------------------------------------------
// The tag line
// ---------------------------------------------------------------------------

/// `s` without its runs of equal neighbours (`Vec::dedup`).
pub open spec fn dedup(s: Seq<Seq<char>>) -> Seq<Seq<char>>
    decreases s.len(),
{
    if s.len() == 0 {
        seq![]
    } else {
        let d = dedup(s.drop_last());
        if d.len() > 0 && d.last() == s.last() {
            d
        } else {
            d.push(s.last())
        }
    }
}

/// The tag line of the tags `tags`: a note that there are none, or each tag
/// once per run of repeats, each after ` #`.
pub open spec fn tags_line_text(tags: Seq<Seq<char>>) -> Seq<char> {
    let d = dedup(tags);
    if d.len() == 0 {
        " \u{43d}\u{435}\u{442} \u{43f}\u{440}\u{438}\u{432}\u{44f}\u{437}\u{430}\u{43d}\u{43d}\u{44b}\u{445} \u{442}\u{435}\u{433}\u{43e}\u{432}"@
    } else {
        " #"@ + join_with(d, " #"@)
    }
}

/// The tag line shown under the preview.
pub fn tags_display(tags: &Vec<String>) -> (r: String)
    ensures
        r@ == tags_line_text(crate::engine::strings_view(tags@)),
{
    let ghost all = crate::engine::strings_view(tags@);
    let mut d: Vec<Vec<char>> = Vec::new();
    let mut i: usize = 0;
    while i < tags.len()
        invariant
            i <= tags.len(),
            all == crate::engine::strings_view(tags@),
            seqs_of(d@) == dedup(all.take(i as int)),
        decreases tags.len() - i,
    {
        proof {
            assert(all.take(i + 1).drop_last() =~= all.take(i as int));
            assert(all.take(i + 1).last() == tags@[i as int]@);
        }
        let t = chars_of(tags[i].as_str());
        let repeat = d.len() > 0 && crate::text::chars_equal(d[d.len() - 1].as_slice(), t.as_slice());
        if !repeat {
            let ghost before = seqs_of(d@);
            d.push(t);
            assert(seqs_of(d@) =~= before.push(t@));
        }
        i += 1;
    }
    assert(all.take(tags.len() as int) =~= all);
    if d.len() == 0 {
        return " \u{43d}\u{435}\u{442} \u{43f}\u{440}\u{438}\u{432}\u{44f}\u{437}\u{430}\u{43d}\u{43d}\u{44b}\u{445} \u{442}\u{435}\u{433}\u{43e}\u{432}".to_owned();
    }
    let sep = chars_of(" #");
    let joined = join_parts(&d, sep.as_slice());
    let mut out = sep;
    append_chars(&mut out, joined.as_slice());
    string_of(out.as_slice())
}

// ---------------------------------------------------------------------------
// Centred pop-ups
// ---------------------------------------------------------------------------

/// Area `a` (column, row, width, height) lies within area `outer`.
pub open spec fn lies_within(a: (u16, u16, u16, u16), outer: (u16, u16, u16, u16)) -> bool {
    &&& outer.0 <= a.0
    &&& a.0 + a.2 <= outer.0 + outer.2
    &&& outer.1 <= a.1
    &&& a.1 + a.3 <= outer.1 + outer.3
}

/// Area `a` spans all of `outer` across the direction of a split: the whole
/// width for a vertical split, the whole height for a horizontal one.
pub open spec fn spans_across(vertical: bool, a: (u16, u16, u16, u16), outer: (u16, u16, u16, u16)) -> bool {
    if vertical {
        a.0 == outer.0 && a.2 == outer.2
    } else {
        a.1 == outer.1 && a.3 == outer.3
    }
}

/// Where area `a` starts along the direction of a split.
pub open spec fn start_along(vertical: bool, a: (u16, u16, u16, u16)) -> int {
    if vertical { a.1 as int } else { a.0 as int }
}

/// Where area `a` ends along the direction of a split.
pub open spec fn end_along(vertical: bool, a: (u16, u16, u16, u16)) -> int {
    if vertical { a.1 + a.3 } else { a.0 + a.2 }
}

/// The length of area `a` along the direction of a split.
pub open spec fn extent_along(vertical: bool, a: (u16, u16, u16, u16)) -> int {
    if vertical { a.3 as int } else { a.2 as int }
}

/// The sum of the first `k` percentages.
pub open spec fn percent_total(percents: Seq<u16>, k: int) -> int
    decreases k,
{
    if k <= 0 {
        0
    } else {
        percent_total(percents, k - 1) + percents[k - 1]
    }
}

/// `pct` percent of `size`, rounded to the nearest whole cell, halves up.
pub open spec fn share(size: int, pct: int) -> int {
    (size * pct + 50) / 100
}

/// The far edges of area `a` are still `u16` coordinates, as on any screen.
pub open spec fn fits_screen(a: (u16, u16, u16, u16)) -> bool {
    a.0 + a.2 <= 65535 && a.1 + a.3 <= 65535
}

/// Band `i` of `area` split along one direction by `percents`, when all of
/// them can be met: it starts after the share of the percentages before it and
/// ends after the share of those up to and including it, both rounded to whole
/// cells, and spans `area` across the split.
pub open spec fn band(vertical: bool, percents: Seq<u16>, area: (u16, u16, u16, u16), i: int) -> (
    u16,
    u16,
    u16,
    u16,
) {
    let size = extent_along(vertical, area);
    let s = start_along(vertical, area) + share(size, percent_total(percents, i));
    let e = start_along(vertical, area) + share(size, percent_total(percents, i + 1));
    if vertical {
        (area.0, s as u16, area.2, (e - s) as u16)
    } else {
        (s as u16, area.1, (e - s) as u16, area.3)
    }
}

/// Splits `area` with `ratatui`'s `Layout::split`, vertically or horizontally,
/// by `Constraint::Percentage` constraints, with the default flex (`Start`),
/// no margin and no spacing. The solver keeps every boundary inside `area` and
/// the boundaries in ascending order, and each area keeps the full extent of
/// `area` across the split; so there is one area per constraint, each inside
/// `area`, in order and without overlap. Where the percentages sum to at most
/// 100 they can all be met at once: the only constraints that outrank them are
/// the required ones and the empty inner spacers, and the leftover goes to the
/// last spacer, whose growth ranks below them. The solver's optimum is then
/// unique, and after `changes_to_rects` rounds its boundaries each area is the
/// `band` of its percentage (for an area whose far edges fit in `u16`). Which
/// sizes the solver picks when the percentages sum to more than 100 is left
/// unsaid.
#[verifier::external_body]
fn split_by_percentages(vertical: bool, percents: &Vec<u16>, area: (u16, u16, u16, u16)) -> (r:
    Vec<(u16, u16, u16, u16)>)
    ensures
        r.len() == percents.len(),
        forall|i: int| 0 <= i < r.len() ==> lies_within(#[trigger] r[i], area),
        forall|i: int| 0 <= i < r.len() ==> spans_across(vertical, #[trigger] r[i], area),
        forall|i: int, j: int|
            0 <= i < j < r.len() ==> end_along(vertical, #[trigger] r[i]) <= start_along(
                vertical,
                #[trigger] r[j],
            ),
        fits_screen(area) && percent_total(percents@, percents@.len() as int) <= 100 ==> forall|
            i: int,
        | 0 <= i < r.len() ==> #[trigger] r[i] == band(vertical, percents@, area, i),
{
    let direction = if vertical { Direction::Vertical } else { Direction::Horizontal };
    let constraints: Vec<Constraint> = percents.iter().map(|p| Constraint::Percentage(*p)).collect();
    let rect = Rect { x: area.0, y: area.1, width: area.2, height: area.3 };
    let rects = Layout::default().direction(direction).constraints(constraints).split(rect);
    rects.iter().map(|r| (r.x, r.y, r.width, r.height)).collect()
}

/// The three percentages that put a band of `p` percent in the middle.
pub open spec fn centred_percents(p: u16) -> Seq<u16> {
    let side = ((100 - p) / 2) as u16;
    seq![side, p, side]
}

/// The three percentages that put a band of `p` percent in the middle: half of
/// what is left on each side, rounded down.
pub fn centered_percentages(p: u16) -> (r: Vec<u16>)
    requires
        p <= 100,
    ensures
        r@ == centred_percents(p),
{
    let side = (100 - p) / 2;
    let r = vec![side, p, side];
    assert(r@ =~= centred_percents(p));
    r
}

/// The percentages of a centred band sum to at most 100.
proof fn lemma_centred_total(p: u16)
    requires
        p <= 100,
    ensures
        percent_total(centred_percents(p), 3) <= 100,
        centred_percents(p).len() == 3,
{
    let c = centred_percents(p);
    assert(percent_total(c, 0) == 0);
    assert(percent_total(c, 1) == c[0]);
    assert(percent_total(c, 2) == c[0] + c[1]);
    assert(percent_total(c, 3) == c[0] + c[1] + c[2]);
}

/// The pop-up of `percent_x` by `percent_y` percent centred in `r`: the middle
/// band of the horizontal split of the middle band of the vertical split of `r`.
pub open spec fn centred_area(percent_x: u16, percent_y: u16, r: (u16, u16, u16, u16)) -> (
    u16,
    u16,
    u16,
    u16,
) {
    band(false, centred_percents(percent_x), band(true, centred_percents(percent_y), r, 1), 1)
}

/// The area of a pop-up of `percent_x` by `percent_y` percent centred in `r`:
/// the middle of a vertical split of `r`, then the middle of a horizontal split
/// of that band. It lies within `r`, and where the far edges of `r` fit in
/// `u16` it is exactly `centred_area`.
pub fn centered_rect(percent_x: u16, percent_y: u16, r: (u16, u16, u16, u16)) -> (a: (
    u16,
    u16,
    u16,
    u16,
))
    requires
        percent_x <= 100,
        percent_y <= 100,
    ensures
        lies_within(a, r),
        fits_screen(r) ==> a == centred_area(percent_x, percent_y, r),
{
    let py = centered_percentages(percent_y);
    let px = centered_percentages(percent_x);
    proof {
        lemma_centred_total(percent_y);
        lemma_centred_total(percent_x);
    }
    let rows = split_by_percentages(true, &py, r);
    let cols = split_by_percentages(false, &px, rows[1]);
    assert(lies_within(rows[1], r));
    assert(lies_within(cols[1], rows[1]));
    cols[1]
}

/// The tag line never names the same tag twice in a row.
pub proof fn law_tags_not_repeated(tags: Seq<Seq<char>>)
    ensures
        forall|i: int| 0 <= i < dedup(tags).len() - 1 ==> #[trigger] dedup(tags)[i] != dedup(tags)[i + 1],
    decreases tags.len(),
{
    if tags.len() > 0 {
        law_tags_not_repeated(tags.drop_last());
        let d = dedup(tags.drop_last());
        let r = dedup(tags);
        assert forall|i: int| 0 <= i < r.len() - 1 implies #[trigger] r[i] != r[i + 1] by {
            if i + 1 < d.len() {
                assert(r[i] == d[i] && r[i + 1] == d[i + 1]);
            } else {
                assert(r[i] == d[i]);
                assert(d.last() == d[i]);
            }
        }
    }
}

} // verus!
