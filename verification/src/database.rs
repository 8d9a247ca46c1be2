//! Building the database tree from the files of a workspace: Markdown parsing,
//! ordering of directory entries, and the list of workspaces.
use vstd::prelude::*;
use crate::text::{
    path_join, lines, words, lowercase, starts_with, ends_with, trim, trim_char, trim_start_char,
    count_leading, seqs_of, chars_of, string_of, lower_chars, has_prefix, has_suffix, split_lines,
    split_words, trim_chars, trim_char_chars, trim_start_char_chars, leading_count,
};
use crate::engine::{DbNode, NodeType, NodeView, nodes_view, strings_view, lemma_nodes_view_push};

verus! {

/// The most tags a file can carry.
pub const MAX_TAGS: usize = 10;

/// The characters `tags:`.
pub open spec fn tags_marker() -> Seq<char> {
    seq!['t', 'a', 'g', 's', ':']
}

/// The tags after adding those of `ws`, a line's words after the first: each word
/// that starts with `#`, with its `#`s stripped from both ends, while fewer than
/// ten tags are held.
pub open spec fn add_word_tags(tags: Seq<Seq<char>>, ws: Seq<Seq<char>>) -> Seq<Seq<char>>
    decreases ws.len(),
{
    if ws.len() == 0 {
        tags
    } else {
        let t = add_word_tags(tags, ws.drop_last());
        let w = ws.last();
        if w.len() > 0 && w[0] == '#' && t.len() < 10 {
            t.push(trim_char(w, '#'))
        } else {
            t
        }
    }
}

/// The words of a line after the first.
pub open spec fn words_after_first(line: Seq<char>) -> Seq<Seq<char>> {
    let ws = words(line);
    if ws.len() == 0 {
        ws
    } else {
        ws.drop_first()
    }
}

/// The tags after reading one line: a line whose lower-cased form starts with
/// `tags:` adds its tags, while fewer than ten are held.
pub open spec fn line_tags(tags: Seq<Seq<char>>, line: Seq<char>) -> Seq<Seq<char>> {
    if starts_with(lowercase(line), tags_marker()) && tags.len() < 10 {
        add_word_tags(tags, words_after_first(line))
    } else {
        tags
    }
}

/// The tags of a Markdown text given as its lines.
pub open spec fn md_tags(ls: Seq<Seq<char>>) -> Seq<Seq<char>>
    decreases ls.len(),
{
    if ls.len() == 0 {
        seq![]
    } else {
        line_tags(md_tags(ls.drop_last()), ls.last())
    }
}

/// The header node of a line that starts with `#`: its level is the number of
/// leading `#`s, its name the rest of the line, trimmed.
pub open spec fn header_view(line: Seq<char>, path: Seq<char>) -> NodeView {
    NodeView {
        name: trim(trim_start_char(line, '#')),
        path: path,
        node_type: NodeType::MarkdownHeader { level: count_leading(line, '#') as usize },
        tags: seq![],
        children: seq![],
    }
}

/// The header nodes of a Markdown text given as its lines, in order.
pub open spec fn md_headers(ls: Seq<Seq<char>>, path: Seq<char>) -> Seq<NodeView>
    decreases ls.len(),
{
    if ls.len() == 0 {
        seq![]
    } else {
        let h = md_headers(ls.drop_last(), path);
        let l = ls.last();
        if l.len() > 0 && l[0] == '#' {
            h.push(header_view(l, path))
        } else {
            h
        }
    }
}

proof fn lemma_add_word_tags_len(tags: Seq<Seq<char>>, ws: Seq<Seq<char>>)
    ensures
        add_word_tags(tags, ws).len() <= if tags.len() <= 10 { 10 } else { tags.len() },
        add_word_tags(tags, ws).len() >= tags.len(),
    decreases ws.len(),
{
    if ws.len() > 0 {
        lemma_add_word_tags_len(tags, ws.drop_last());
    }
}

/// Adds the tags of the words `ws[from..]`.
fn add_tags_from_words(tags: &mut Vec<String>, ws: &Vec<Vec<char>>)
    ensures
        strings_view(final(tags)@) == add_word_tags(
            strings_view(old(tags)@),
            seqs_of(ws@).subrange(if ws.len() == 0 { 0 } else { 1 }, ws.len() as int),
        ),
{
    let ghost start_tags = strings_view(tags@);
    let start: usize = if ws.len() == 0 { 0 } else { 1 };
    let mut i: usize = start;
    while i < ws.len()
        invariant
            start <= i <= ws.len(),
            start == (if ws.len() == 0 { 0usize } else { 1usize }),
            strings_view(tags@) == add_word_tags(
                start_tags,
                seqs_of(ws@).subrange(start as int, i as int),
            ),
        decreases ws.len() - i,
    {
        let w = &ws[i];
        proof {
            assert(seqs_of(ws@).subrange(start as int, i + 1).drop_last() =~= seqs_of(
                ws@,
            ).subrange(start as int, i as int));
            assert(seqs_of(ws@).subrange(start as int, i + 1).last() == w@);
        }
        if w.len() > 0 && w[0] == '#' && tags.len() < MAX_TAGS {
            let t = trim_char_chars(w.as_slice(), '#');
            let s = string_of(t.as_slice());
            let ghost before = tags@;
            tags.push(s);
            assert(strings_view(tags@) =~= strings_view(before).push(s@));
        }
        i += 1;
    }
}

/// The tags and the header nodes of a Markdown file, from its text.
/// Each header node carries `path`.
pub fn parse_md_content(content: &str, path: &str) -> (r: (Vec<String>, Vec<DbNode>))
    ensures
        strings_view(r.0@) == md_tags(lines(content@)),
        nodes_view(r.1@) == md_headers(lines(content@), path@),
{
    let chars = chars_of(content);
    let ls = split_lines(chars.as_slice());
    let marker: Vec<char> = vec!['t', 'a', 'g', 's', ':'];
    assert(marker@ =~= tags_marker());
    let mut tags: Vec<String> = Vec::new();
    let mut headers: Vec<DbNode> = Vec::new();
    let mut i: usize = 0;
    while i < ls.len()
        invariant
            i <= ls.len(),
            seqs_of(ls@) == lines(content@),
            marker@ == tags_marker(),
            strings_view(tags@) == md_tags(seqs_of(ls@).take(i as int)),
            nodes_view(headers@) == md_headers(seqs_of(ls@).take(i as int), path@),
        decreases ls.len() - i,
    {
        let line = &ls[i];
        proof {
            assert(seqs_of(ls@).take(i + 1).drop_last() =~= seqs_of(ls@).take(i as int));
            assert(seqs_of(ls@).take(i + 1).last() == line@);
        }
        let low = lower_chars(line.as_slice());
        if has_prefix(low.as_slice(), marker.as_slice()) && tags.len() < MAX_TAGS {
            let ws = split_words(line.as_slice());
            proof {
                let sw = seqs_of(ws@);
                if ws.len() > 0 {
                    assert(sw.subrange(1, ws.len() as int) =~= sw.drop_first());
                } else {
                    assert(sw.subrange(0, 0) =~= sw);
                }
            }
            add_tags_from_words(&mut tags, &ws);
        }
        if line.len() > 0 && line[0] == '#' {
            let level = leading_count(line.as_slice(), '#');
            let stripped = trim_start_char_chars(line.as_slice(), '#');
            let name = trim_chars(stripped.as_slice());
            let h = DbNode {
                name: string_of(name.as_slice()),
                path: string_of(chars_of(path).as_slice()),
                node_type: NodeType::MarkdownHeader { level },
                tags: Vec::new(),
                children: Vec::new(),
            };
            proof {
                lemma_nodes_view_push(headers@, h);
                assert(strings_view(h.tags@) =~= seq![]);
                assert(nodes_view(h.children@) =~= seq![]);
                assert(crate::engine::node_view(h) =~= header_view(line@, path@));
            }
            headers.push(h);
        }
        i += 1;
    }
    assert(seqs_of(ls@).take(ls.len() as int) =~= seqs_of(ls@));
    (tags, headers)
}

// ---------------------------------------------------------------------------
// Directory entries
// ---------------------------------------------------------------------------

/// A directory entry as read from disk: its file name, whether it is a
/// directory, for a Markdown file its text (`None` where it could not be read),
/// and for a directory its own entries, in any order.
pub struct FsEntry {
    pub name: String,
    pub is_dir: bool,
    pub content: Option<String>,
    pub children: Vec<FsEntry>,
}

/// The mathematical value of a directory entry.
#[verifier::ext_equal]
pub struct FsView {
    pub name: Seq<char>,
    pub is_dir: bool,
    pub content: Option<Seq<char>>,
    pub children: Seq<FsView>,
}

/// The values of a list of entries.
pub open spec fn entries_view(es: Seq<FsEntry>) -> Seq<FsView>
    decreases es,
{
    if es.len() == 0 {
        seq![]
    } else {
        entries_view(es.drop_last()).push(entry_view(es.last()))
    }
}

/// The value of one entry.
pub open spec fn entry_view(e: FsEntry) -> FsView
    decreases e,
{
    FsView {
        name: e.name@,
        is_dir: e.is_dir,
        content: match e.content {
            Some(c) => Some(c@),
            None => None,
        },
        children: entries_view(e.children@),
    }
}

/// The value of a list of entries holds the value of each entry at its place.
pub proof fn lemma_entries_view_index(es: Seq<FsEntry>, i: int)
    requires
        0 <= i < es.len(),
    ensures
        entries_view(es)[i] == entry_view(es[i]),
        entries_view(es).len() == es.len(),
    decreases es.len(),
{
    lemma_entries_view_len(es);
    if i < es.len() - 1 {
        lemma_entries_view_index(es.drop_last(), i);
    }
}

/// A list of entries and its value have the same length.
pub proof fn lemma_entries_view_len(es: Seq<FsEntry>)
    ensures
        entries_view(es).len() == es.len(),
    decreases es.len(),
{
    if es.len() > 0 {
        lemma_entries_view_len(es.drop_last());
    }
}

/// The characters `.md`.
pub open spec fn md_suffix() -> Seq<char> {
    seq!['.', 'm', 'd']
}

/// A file name whose extension is `md`: it ends with `.md` and something precedes
/// that dot (so `.md` alone has no extension).
pub open spec fn has_md_extension(name: Seq<char>) -> bool {
    name.len() > 3 && ends_with(name, md_suffix())
}

/// Whether a file name has the extension `md`.
pub fn is_markdown_name(name: &str) -> (b: bool)
    ensures
        b == has_md_extension(name@),
{
    let v = chars_of(name);
    let suffix: Vec<char> = vec!['.', 'm', 'd'];
    assert(suffix@ =~= md_suffix());
    v.len() > 3 && has_suffix(v.as_slice(), suffix.as_slice())
}

// ---------------------------------------------------------------------------
// Ordering by name
// ---------------------------------------------------------------------------

/// `a` comes before `b`, or equals it, in code-point order (for UTF-8 text, the
/// byte order in which paths compare).
pub open spec fn name_le(a: Seq<char>, b: Seq<char>) -> bool
    decreases a.len(),
{
    if a.len() == 0 {
        true
    } else if b.len() == 0 {
        false
    } else if (a[0] as u32) < (b[0] as u32) {
        true
    } else if (a[0] as u32) > (b[0] as u32) {
        false
    } else {
        name_le(a.drop_first(), b.drop_first())
    }
}

/// Whether `a` comes before `b`, or equals it, in code-point order.
pub fn name_le_exec(a: &[char], b: &[char]) -> (r: bool)
    ensures
        r == name_le(a@, b@),
{
    let mut i: usize = 0;
    assert(a@.subrange(0, a.len() as int) =~= a@);
    assert(b@.subrange(0, b.len() as int) =~= b@);
    while i < a.len()
        invariant
            i <= a.len(),
            i <= b.len(),
            name_le(a@, b@) == name_le(
                a@.subrange(i as int, a.len() as int),
                b@.subrange(i as int, b.len() as int),
            ),
        decreases a.len() - i,
    {
        let ghost sa = a@.subrange(i as int, a.len() as int);
        let ghost sb = b@.subrange(i as int, b.len() as int);
        if i >= b.len() {
            return false;
        }
        let x = a[i] as u32;
        let y = b[i] as u32;
        assert(sa[0] == a@[i as int] && sb[0] == b@[i as int]);
        if x < y {
            return true;
        }
        if x > y {
            return false;
        }
        assert(sa.drop_first() =~= a@.subrange(i + 1, a.len() as int));
        assert(sb.drop_first() =~= b@.subrange(i + 1, b.len() as int));
        i += 1;
    }
    assert(a@.subrange(i as int, a.len() as int).len() == 0);
    true
}

/// The position at which a stable insertion puts index `i` into `order`: after
/// the last entry whose name is not greater than that of `i`.
pub open spec fn insert_index(order: Seq<int>, names: Seq<Seq<char>>, i: int) -> Seq<int>
    decreases order.len(),
{
    if order.len() == 0 {
        seq![i]
    } else if name_le(names[order.last()], names[i]) {
        order.push(i)
    } else {
        insert_index(order.drop_last(), names, i).push(order.last())
    }
}

/// The indices `0..n` of `names`, stably sorted by name.
pub open spec fn name_order_upto(names: Seq<Seq<char>>, n: int) -> Seq<int>
    decreases n,
{
    if n <= 0 {
        seq![]
    } else {
        insert_index(name_order_upto(names, n - 1), names, n - 1)
    }
}

/// The names of a list of entries.
pub open spec fn entry_names(es: Seq<FsView>) -> Seq<Seq<char>> {
    es.map_values(|e: FsView| e.name)
}

/// The indices of `es`, stably sorted by name.
pub open spec fn name_order(es: Seq<FsView>) -> Seq<int> {
    name_order_upto(entry_names(es), es.len() as int)
}

proof fn lemma_insert_index_at(order: Seq<int>, names: Seq<Seq<char>>, i: int, k: int)
    requires
        0 <= k <= order.len(),
        k > 0 ==> name_le(names[order[k - 1]], names[i]),
        forall|j: int| k <= j < order.len() ==> !name_le(names[#[trigger] order[j]], names[i]),
    ensures
        insert_index(order, names, i) == order.take(k).push(i) + order.skip(k),
    decreases order.len(),
{
    if order.len() == 0 {
        assert(order.take(k).push(i) + order.skip(k) =~= seq![i]);
    } else if k == order.len() {
        assert(order.take(k).push(i) + order.skip(k) =~= order.push(i));
    } else {
        let last = order.len() - 1;
        assert(!name_le(names[order[last]], names[i]));
        let o2 = order.drop_last();
        assert forall|j: int| k <= j < o2.len() implies !name_le(names[#[trigger] o2[j]], names[i]) by {
            assert(o2[j] == order[j]);
        }
        lemma_insert_index_at(o2, names, i, k);
        assert(o2.take(k).push(i) + o2.skip(k) + seq![order.last()] =~= order.take(k).push(i)
            + order.skip(k));
    }
}

/// Inserts index `i` into `order` as `insert_index` does.
fn insert_in_order(order: &mut Vec<usize>, names: &Vec<Vec<char>>, i: usize)
    requires
        i < names.len(),
        forall|j: int| 0 <= j < old(order).len() ==> old(order)@[j] < names.len(),
    ensures
        final(order)@.map_values(|x: usize| x as int) == insert_index(
            old(order)@.map_values(|x: usize| x as int),
            seqs_of(names@),
            i as int,
        ),
        forall|j: int| 0 <= j < final(order).len() ==> final(order)@[j] < names.len(),
{
    let ghost o = old(order)@.map_values(|x: usize| x as int);
    let ghost ns = seqs_of(names@);
    let mut k = order.len();
    while k > 0 && !name_le_exec(names[order[k - 1]].as_slice(), names[i].as_slice())
        invariant
            k <= order.len(),
            order@ == old(order)@,
            o == order@.map_values(|x: usize| x as int),
            ns == seqs_of(names@),
            i < names.len(),
            forall|j: int| 0 <= j < order.len() ==> order@[j] < names.len(),
            forall|j: int| k <= j < o.len() ==> !name_le(ns[#[trigger] o[j]], ns[i as int]),
        decreases k,
    {
        k -= 1;
    }
    proof {
        if k > 0 {
            assert(o[k - 1] == order@[k - 1] as int);
        }
        lemma_insert_index_at(o, ns, i as int, k as int);
    }
    order.insert(k, i);
    proof {
        assert(order@.map_values(|x: usize| x as int) =~= o.take(k as int).push(i as int)
            + o.skip(k as int));
    }
}

/// The indices of `names`, stably sorted by name.
fn sorted_indices(names: &Vec<Vec<char>>) -> (order: Vec<usize>)
    ensures
        order@.map_values(|x: usize| x as int) == name_order_upto(
            seqs_of(names@),
            names.len() as int,
        ),
        forall|j: int| 0 <= j < order.len() ==> order@[j] < names.len(),
{
    let mut order: Vec<usize> = Vec::new();
    let mut i: usize = 0;
    assert(order@.map_values(|x: usize| x as int) =~= seq![]);
    while i < names.len()
        invariant
            i <= names.len(),
            order@.map_values(|x: usize| x as int) == name_order_upto(
                seqs_of(names@),
                i as int,
            ),
            forall|j: int| 0 <= j < order.len() ==> order@[j] < names.len(),
        decreases names.len() - i,
    {
        insert_in_order(&mut order, names, i);
        i += 1;
    }
    order
}

// ---------------------------------------------------------------------------
// The database tree
// ---------------------------------------------------------------------------

/// The folder node of a directory entry at `path`, with the nodes of its
/// contents.
pub open spec fn folder_view(e: FsView, path: Seq<char>, kids: Seq<NodeView>) -> NodeView {
    NodeView {
        name: e.name,
        path: path,
        node_type: NodeType::Folder,
        tags: seq![],
        children: kids,
    }
}

/// The text of a file, empty where it could not be read.
pub open spec fn text_of(e: FsView) -> Seq<char> {
    match e.content {
        Some(c) => c,
        None => seq![],
    }
}

/// The file node of a Markdown entry at `path`: its tags and its headers, which
/// carry the file's path.
pub open spec fn file_view(e: FsView, path: Seq<char>) -> NodeView {
    NodeView {
        name: e.name,
        path: path,
        node_type: NodeType::File,
        tags: md_tags(lines(text_of(e))),
        children: md_headers(lines(text_of(e)), path),
    }
}

/// The database nodes of the entries `es` of the directory `dir`: its
/// subdirectories as folders and its Markdown files as files, each at its path
/// under `dir`, in name order; other entries are left out.
pub open spec fn database(dir: Seq<char>, es: Seq<FsView>) -> Seq<NodeView>
    decreases es, es.len() + 1,
{
    nodes_in_order(dir, es, name_order(es), es.len() as int)
}

/// The nodes of the entries `es[order[0]], ..., es[order[k - 1]]` of `dir`.
pub open spec fn nodes_in_order(dir: Seq<char>, es: Seq<FsView>, order: Seq<int>, k: int) -> Seq<
    NodeView,
>
    decreases es, k,
{
    if k <= 0 || k > es.len() || k > order.len() {
        seq![]
    } else {
        let rest = nodes_in_order(dir, es, order, k - 1);
        let i = order[k - 1];
        if 0 <= i < es.len() {
            let e = es[i];
            let p = path_join(dir, e.name);
            if e.is_dir {
                rest.push(folder_view(e, p, database(p, e.children)))
            } else if has_md_extension(e.name) {
                rest.push(file_view(e, p))
            } else {
                rest
            }
        } else {
            rest
        }
    }
}

proof fn lemma_name_order_upto_len(names: Seq<Seq<char>>, n: int)
    ensures
        name_order_upto(names, n).len() == if n <= 0 { 0 } else { n },
    decreases n,
{
    if n > 0 {
        lemma_name_order_upto_len(names, n - 1);
        lemma_insert_index_len(name_order_upto(names, n - 1), names, n - 1);
    }
}

proof fn lemma_insert_index_len(order: Seq<int>, names: Seq<Seq<char>>, i: int)
    ensures
        insert_index(order, names, i).len() == order.len() + 1,
    decreases order.len(),
{
    if order.len() > 0 {
        lemma_insert_index_len(order.drop_last(), names, i);
    }
}

/// The names of a list of entries, as character vectors.
fn names_of(entries: &[FsEntry]) -> (names: Vec<Vec<char>>)
    ensures
        seqs_of(names@) == entry_names(entries_view(entries@)),
        names.len() == entries.len(),
{
    let mut names: Vec<Vec<char>> = Vec::new();
    let mut i: usize = 0;
    while i < entries.len()
        invariant
            i <= entries.len(),
            names.len() == i,
            forall|j: int| 0 <= j < i ==> #[trigger] names@[j]@ == entries@[j].name@,
        decreases entries.len() - i,
    {
        names.push(chars_of(entries[i].name.as_str()));
        i += 1;
    }
    proof {
        lemma_entries_view_len(entries@);
        assert forall|j: int| 0 <= j < names.len() implies #[trigger] seqs_of(names@)[j]
            == entry_names(entries_view(entries@))[j] by {
            lemma_entries_view_index(entries@, j);
        }
        assert(seqs_of(names@) =~= entry_names(entries_view(entries@)));
    }
    names
}

/// The database nodes of the entries of the directory `root`: subdirectories
/// become folders holding the nodes of their own entries, Markdown files become
/// files holding their tags and headers, and other entries are left out; each
/// node carries its path under `root`, and the nodes come in the order of the
/// entries' names.
pub fn load_database(root: &str, entries: &[FsEntry]) -> (r: Vec<DbNode>)
    ensures
        nodes_view(r@) == database(root@, entries_view(entries@)),
    decreases entries@,
{
    let ghost es = entries_view(entries@);
    let names = names_of(entries);
    let order = sorted_indices(&names);
    proof {
        lemma_entries_view_len(entries@);
        lemma_name_order_upto_len(seqs_of(names@), names.len() as int);
    }
    let ghost ord = name_order(es);
    assert(order@.map_values(|x: usize| x as int) == ord);
    let mut r: Vec<DbNode> = Vec::new();
    let mut k: usize = 0;
    while k < order.len()
        invariant
            k <= order.len() == entries.len(),
            es == entries_view(entries@),
            es.len() == entries.len(),
            ord == name_order(es),
            order@.map_values(|x: usize| x as int) == ord,
            forall|j: int| 0 <= j < order.len() ==> order@[j] < entries.len(),
            nodes_view(r@) == nodes_in_order(root@, es, ord, k as int),
        decreases order.len() - k,
    {
        let idx = order[k];
        let e = &entries[idx];
        proof {
            assert(ord[k as int] == idx as int);
            lemma_entries_view_index(entries@, idx as int);
        }
        let path = crate::text::join_path(root, e.name.as_str());
        if e.is_dir {
            assert(decreases_to!(entries@ => entries@[idx as int].children@));
            let kids = load_database(path.as_str(), e.children.as_slice());
            let n = DbNode {
                name: e.name.clone(),
                path: path,
                node_type: NodeType::Folder,
                tags: Vec::new(),
                children: kids,
            };
            proof {
                lemma_nodes_view_push(r@, n);
                assert(strings_view(n.tags@) =~= seq![]);
                assert(crate::engine::node_view(n) =~= folder_view(
                    es[idx as int],
                    path@,
                    database(path@, es[idx as int].children),
                ));
            }
            r.push(n);
        } else if is_markdown_name(e.name.as_str()) {
            let parsed = match &e.content {
                Some(c) => parse_md_content(c.as_str(), path.as_str()),
                None => {
                    assert(lines(seq![]) =~= seq![]);
                    (Vec::new(), Vec::new())
                },
            };
            let n = DbNode {
                name: e.name.clone(),
                path: path,
                node_type: NodeType::File,
                tags: parsed.0,
                children: parsed.1,
            };
            proof {
                lemma_nodes_view_push(r@, n);
                assert(strings_view(parsed.0@) == md_tags(lines(text_of(es[idx as int]))));
                assert(crate::engine::node_view(n) =~= file_view(es[idx as int], path@));
            }
            r.push(n);
        }
        k += 1;
    }
    r
}

/// The characters `db`.
pub open spec fn db_name() -> Seq<char> {
    seq!['d', 'b']
}

/// The workspaces among the entries `es` of the directory `dir`: the paths under
/// `dir` of its subdirectories other than `db`, in name order.
pub open spec fn workspace_paths(dir: Seq<char>, es: Seq<FsView>) -> Seq<Seq<char>> {
    workspaces_in_order(dir, es, name_order(es), es.len() as int)
}

/// The workspace paths among `es[order[0]], ..., es[order[k - 1]]`.
pub open spec fn workspaces_in_order(dir: Seq<char>, es: Seq<FsView>, order: Seq<int>, k: int) -> Seq<
    Seq<char>,
>
    decreases k,
{
    if k <= 0 || k > order.len() {
        seq![]
    } else {
        let rest = workspaces_in_order(dir, es, order, k - 1);
        let i = order[k - 1];
        if 0 <= i < es.len() && es[i].is_dir && es[i].name != db_name() {
            rest.push(path_join(dir, es[i].name))
        } else {
            rest
        }
    }
}

/// The workspaces found among the entries of the scanned directory `dir`: the
/// paths under `dir` of its subdirectories other than `db`, sorted.
pub fn list_workspaces(dir: &str, entries: &[FsEntry]) -> (r: Vec<String>)
    ensures
        strings_view(r@) == workspace_paths(dir@, entries_view(entries@)),
{
    let ghost es = entries_view(entries@);
    let names = names_of(entries);
    let order = sorted_indices(&names);
    proof {
        lemma_entries_view_len(entries@);
        lemma_name_order_upto_len(seqs_of(names@), names.len() as int);
    }
    let ghost ord = name_order(es);
    let db: Vec<char> = vec!['d', 'b'];
    assert(db@ =~= db_name());
    let mut r: Vec<String> = Vec::new();
    let mut k: usize = 0;
    while k < order.len()
        invariant
            k <= order.len() == entries.len(),
            es == entries_view(entries@),
            es.len() == entries.len(),
            ord == name_order(es),
            order@.map_values(|x: usize| x as int) == ord,
            forall|j: int| 0 <= j < order.len() ==> order@[j] < entries.len(),
            db@ == db_name(),
            names.len() == entries.len(),
            seqs_of(names@) == entry_names(es),
            strings_view(r@) == workspaces_in_order(dir@, es, ord, k as int),
        decreases order.len() - k,
    {
        let idx = order[k];
        proof {
            assert(ord[k as int] == idx as int);
            lemma_entries_view_index(entries@, idx as int);
            assert(seqs_of(names@)[idx as int] == names@[idx as int]@);
        }
        let e = &entries[idx];
        if e.is_dir && !(names[idx].len() == 2 && names[idx][0] == 'd' && names[idx][1] == 'b') {
            proof {
                if names@[idx as int]@ == db_name() {
                    assert(names@[idx as int]@[0] == 'd');
                }
            }
            let ghost before = r@;
            let p = crate::text::join_path(dir, e.name.as_str());
            r.push(p);
            assert(strings_view(r@) =~= strings_view(before).push(path_join(dir@, es[idx as int].name)));
        } else {
            proof {
                if e.is_dir {
                    assert(names@[idx as int]@ =~= db_name());
                }
            }
        }
        k += 1;
    }
    r
}

/// The directory that older versions kept the workspaces in, under the root.
pub open spec fn legacy_dir_of(root: Seq<char>) -> Seq<char> {
    crate::text::path_join(root, "db"@)
}

/// The directory that older versions kept the workspaces in, under the root.
pub fn legacy_dir(root: &str) -> (r: String)
    ensures
        r@ == legacy_dir_of(root@),
{
    crate::text::join_path(root, "db")
}

/// The directory whose subdirectories are the workspaces: the older `db`
/// directory under the root where it is a directory, else the root itself.
pub fn scan_dir(root: &str, legacy_is_dir: bool) -> (r: String)
    ensures
        r@ == if legacy_is_dir {
            legacy_dir_of(root@)
        } else {
            root@
        },
{
    if legacy_is_dir {
        legacy_dir(root)
    } else {
        root.to_owned()
    }
}

// ---------------------------------------------------------------------------
// Laws of the database
// ---------------------------------------------------------------------------

/// A file carries at most ten tags.
pub proof fn law_at_most_ten_tags(ls: Seq<Seq<char>>)
    ensures
        md_tags(ls).len() <= 10,
    decreases ls.len(),
{
    if ls.len() > 0 {
        law_at_most_ten_tags(ls.drop_last());
        let t = md_tags(ls.drop_last());
        let l = ls.last();
        if starts_with(lowercase(l), tags_marker()) && t.len() < 10 {
            lemma_add_word_tags_len(t, words_after_first(l));
        }
    }
}

proof fn lemma_name_le_total(a: Seq<char>, b: Seq<char>)
    ensures
        name_le(a, b) || name_le(b, a),
    decreases a.len(),
{
    if a.len() > 0 && b.len() > 0 && (a[0] as u32) == (b[0] as u32) {
        lemma_name_le_total(a.drop_first(), b.drop_first());
    }
}

proof fn lemma_name_le_trans(a: Seq<char>, b: Seq<char>, c: Seq<char>)
    requires
        name_le(a, b),
        name_le(b, c),
    ensures
        name_le(a, c),
    decreases a.len(),
{
    if a.len() > 0 && b.len() > 0 && c.len() > 0 && (a[0] as u32) == (b[0] as u32) && (b[0]
        as u32) == (c[0] as u32) {
        lemma_name_le_trans(a.drop_first(), b.drop_first(), c.drop_first());
    }
}

/// The indices along `order` have names in non-decreasing order.
pub open spec fn sorted_by_name(order: Seq<int>, names: Seq<Seq<char>>) -> bool {
    forall|a: int, b: int|
        0 <= a < b < order.len() ==> name_le(#[trigger] names[order[a]], #[trigger] names[order[b]])
}

proof fn lemma_insert_index_members(order: Seq<int>, names: Seq<Seq<char>>, i: int, x: int)
    requires
        insert_index(order, names, i).contains(x),
    ensures
        x == i || order.contains(x),
    decreases order.len(),
{
    if order.len() > 0 && !name_le(names[order.last()], names[i]) {
        let r = insert_index(order.drop_last(), names, i);
        if x != order.last() {
            let k = choose|k: int| 0 <= k < r.push(order.last()).len() && r.push(order.last())[k]
                == x;
            assert(r[k] == x);
            lemma_insert_index_members(order.drop_last(), names, i, x);
            if order.drop_last().contains(x) {
                let m = choose|m: int| 0 <= m < order.drop_last().len() && order.drop_last()[m] == x;
                assert(order[m] == x);
            }
        } else {
            assert(order[order.len() - 1] == x);
        }
    } else if order.len() > 0 {
        if x != i {
            let k = choose|k: int| 0 <= k < order.push(i).len() && order.push(i)[k] == x;
            assert(order[k] == x);
        }
    }
}

proof fn lemma_insert_index_sorted(order: Seq<int>, names: Seq<Seq<char>>, i: int)
    requires
        sorted_by_name(order, names),
    ensures
        sorted_by_name(insert_index(order, names, i), names),
    decreases order.len(),
{
    let r = insert_index(order, names, i);
    if order.len() == 0 {
    } else if name_le(names[order.last()], names[i]) {
        assert forall|a: int, b: int| 0 <= a < b < r.len() implies name_le(
            #[trigger] names[r[a]],
            #[trigger] names[r[b]],
        ) by {
            if b == r.len() - 1 {
                if a < order.len() - 1 {
                    assert(name_le(names[order[a]], names[order[order.len() - 1]]));
                    lemma_name_le_trans(names[order[a]], names[order.last()], names[i]);
                }
            } else {
                assert(r[a] == order[a] && r[b] == order[b]);
            }
        }
    } else {
        let o2 = order.drop_last();
        let last = order.last();
        assert(sorted_by_name(o2, names)) by {
            assert forall|a: int, b: int| 0 <= a < b < o2.len() implies name_le(
                #[trigger] names[o2[a]],
                #[trigger] names[o2[b]],
            ) by {
                assert(o2[a] == order[a] && o2[b] == order[b]);
            }
        }
        lemma_insert_index_sorted(o2, names, i);
        let r2 = insert_index(o2, names, i);
        lemma_name_le_total(names[last], names[i]);
        assert forall|a: int| 0 <= a < r2.len() implies name_le(#[trigger] names[r2[a]], names[last]) by {
            assert(r2.contains(r2[a]));
            lemma_insert_index_members(o2, names, i, r2[a]);
            if r2[a] != i {
                let m = choose|m: int| 0 <= m < o2.len() && o2[m] == r2[a];
                assert(name_le(names[order[m]], names[order[order.len() - 1]]));
            }
        }
        assert forall|a: int, b: int| 0 <= a < b < r.len() implies name_le(
            #[trigger] names[r[a]],
            #[trigger] names[r[b]],
        ) by {
            if b == r.len() - 1 {
                assert(r[a] == r2[a]);
            } else {
                assert(r[a] == r2[a] && r[b] == r2[b]);
            }
        }
    }
}

/// The stable sort of indices leaves them in name order.
pub proof fn law_name_order_sorted(names: Seq<Seq<char>>, n: int)
    ensures
        sorted_by_name(name_order_upto(names, n), names),
    decreases n,
{
    if n > 0 {
        law_name_order_sorted(names, n - 1);
        lemma_insert_index_sorted(name_order_upto(names, n - 1), names, n - 1);
    }
}

proof fn lemma_nodes_in_order_sorted(dir: Seq<char>, es: Seq<FsView>, order: Seq<int>, k: int)
    requires
        sorted_by_name(order, entry_names(es)),
    ensures
        ({
            let r = nodes_in_order(dir, es, order, k);
            &&& forall|a: int, b: int|
                0 <= a < b < r.len() ==> name_le(#[trigger] r[a].name, #[trigger] r[b].name)
            &&& forall|a: int, m: int|
                0 <= a < r.len() && k <= m < order.len() ==> name_le(
                    #[trigger] r[a].name,
                    #[trigger] entry_names(es)[order[m]],
                )
        }),
    decreases k,
{
    let names = entry_names(es);
    if !(k <= 0 || k > es.len() || k > order.len()) {
        lemma_nodes_in_order_sorted(dir, es, order, k - 1);
        let rest = nodes_in_order(dir, es, order, k - 1);
        let i = order[k - 1];
        if 0 <= i < es.len() && (es[i].is_dir || has_md_extension(es[i].name)) {
            let r = nodes_in_order(dir, es, order, k);
            assert(r.len() == rest.len() + 1);
            assert(r[rest.len() as int].name == names[i]);
            assert forall|a: int, b: int| 0 <= a < b < r.len() implies name_le(
                #[trigger] r[a].name,
                #[trigger] r[b].name,
            ) by {
                assert(r[a] == rest[a]);
                if b < rest.len() {
                    assert(r[b] == rest[b]);
                } else {
                    assert(name_le(rest[a].name, names[order[k - 1]]));
                }
            }
            assert forall|a: int, m: int| 0 <= a < r.len() && k <= m < order.len() implies name_le(
                #[trigger] r[a].name,
                #[trigger] names[order[m]],
            ) by {
                assert(name_le(names[order[k - 1]], names[order[m]]));
                if a < rest.len() {
                    assert(r[a] == rest[a]);
                }
            }
        }
    }
}

/// The nodes of a directory come in the order of their names.
pub proof fn law_database_in_name_order(dir: Seq<char>, es: Seq<FsView>)
    ensures
        forall|a: int, b: int|
            0 <= a < b < database(dir, es).len() ==> name_le(
                #[trigger] database(dir, es)[a].name,
                #[trigger] database(dir, es)[b].name,
            ),
{
    law_name_order_sorted(entry_names(es), es.len() as int);
    lemma_nodes_in_order_sorted(dir, es, name_order(es), es.len() as int);
}

/// The entries that `workspaces_in_order` takes, by their index in `es`.
pub open spec fn workspace_sources(es: Seq<FsView>, order: Seq<int>, k: int) -> Seq<int>
    decreases k,
{
    if k <= 0 || k > order.len() {
        seq![]
    } else {
        let rest = workspace_sources(es, order, k - 1);
        let i = order[k - 1];
        if 0 <= i < es.len() && es[i].is_dir && es[i].name != db_name() {
            rest.push(i)
        } else {
            rest
        }
    }
}

/// No index appears twice in `order`.
pub open spec fn no_repeats(order: Seq<int>) -> bool {
    forall|a: int, b: int| 0 <= a < b < order.len() ==> #[trigger] order[a] != #[trigger] order[b]
}

proof fn lemma_insert_index_no_repeats(order: Seq<int>, names: Seq<Seq<char>>, i: int)
    requires
        no_repeats(order),
        !order.contains(i),
    ensures
        no_repeats(insert_index(order, names, i)),
    decreases order.len(),
{
    let r = insert_index(order, names, i);
    if order.len() == 0 {
    } else if name_le(names[order.last()], names[i]) {
        assert forall|a: int, b: int| 0 <= a < b < r.len() implies #[trigger] r[a] != #[trigger] r[b] by {
            if b == r.len() - 1 {
                assert(r[a] == order[a]);
            }
        }
    } else {
        let o2 = order.drop_last();
        let last = order.last();
        assert(no_repeats(o2)) by {
            assert forall|a: int, b: int| 0 <= a < b < o2.len() implies #[trigger] o2[a] != #[trigger] o2[b] by {
                assert(o2[a] == order[a] && o2[b] == order[b]);
            }
        }
        assert(!o2.contains(i)) by {
            if o2.contains(i) {
                let m = choose|m: int| 0 <= m < o2.len() && o2[m] == i;
                assert(order[m] == i);
            }
        }
        lemma_insert_index_no_repeats(o2, names, i);
        let r2 = insert_index(o2, names, i);
        assert forall|a: int, b: int| 0 <= a < b < r.len() implies #[trigger] r[a] != #[trigger] r[b] by {
            if b == r.len() - 1 {
                assert(r[a] == r2[a]);
                assert(r2.contains(r2[a]));
                lemma_insert_index_members(o2, names, i, r2[a]);
                if r2[a] == last {
                    if r2[a] == i {
                        assert(order[order.len() - 1] == i);
                    } else {
                        let m = choose|m: int| 0 <= m < o2.len() && o2[m] == r2[a];
                        assert(order[m] == order[order.len() - 1]);
                    }
                }
            } else {
                assert(r[a] == r2[a] && r[b] == r2[b]);
            }
        }
    }
}

proof fn lemma_name_order_upto_members(names: Seq<Seq<char>>, n: int, x: int)
    requires
        name_order_upto(names, n).contains(x),
    ensures
        0 <= x < n,
    decreases n,
{
    if n > 0 {
        lemma_insert_index_members(name_order_upto(names, n - 1), names, n - 1, x);
        if x != n - 1 {
            lemma_name_order_upto_members(names, n - 1, x);
        }
    }
}

/// The stable sort takes each index once.
pub proof fn law_name_order_no_repeats(names: Seq<Seq<char>>, n: int)
    ensures
        no_repeats(name_order_upto(names, n)),
    decreases n,
{
    if n > 0 {
        law_name_order_no_repeats(names, n - 1);
        if name_order_upto(names, n - 1).contains(n - 1) {
            lemma_name_order_upto_members(names, n - 1, n - 1);
        }
        lemma_insert_index_no_repeats(name_order_upto(names, n - 1), names, n - 1);
    }
}

proof fn lemma_workspace_sources(dir: Seq<char>, es: Seq<FsView>, order: Seq<int>, k: int)
    requires
        sorted_by_name(order, entry_names(es)),
        no_repeats(order),
        k <= order.len(),
    ensures
        ({
            let ws = workspaces_in_order(dir, es, order, k);
            let src = workspace_sources(es, order, k);
            &&& ws.len() == src.len()
            &&& forall|a: int|
                0 <= a < src.len() ==> 0 <= #[trigger] src[a] < es.len() && ws[a] == path_join(
                    dir,
                    es[src[a]].name,
                ) && es[src[a]].is_dir && es[src[a]].name != db_name()
            &&& forall|a: int, b: int|
                0 <= a < b < src.len() ==> name_le(es[#[trigger] src[a]].name, es[#[trigger] src[b]].name)
                    && src[a] != src[b]
            &&& forall|a: int, m: int|
                0 <= a < src.len() && k <= m < order.len() ==> name_le(
                    es[#[trigger] src[a]].name,
                    #[trigger] entry_names(es)[order[m]],
                ) && src[a] != order[m]
        }),
    decreases k,
{
    let names = entry_names(es);
    if !(k <= 0 || k > order.len()) {
        lemma_workspace_sources(dir, es, order, k - 1);
        let i = order[k - 1];
        let rest = workspace_sources(es, order, k - 1);
        let wrest = workspaces_in_order(dir, es, order, k - 1);
        if 0 <= i < es.len() && es[i].is_dir && es[i].name != db_name() {
            let src = rest.push(i);
            assert(names[i] == es[i].name);
            assert forall|a: int| 0 <= a < src.len() implies 0 <= #[trigger] src[a] < es.len()
                && workspaces_in_order(dir, es, order, k)[a] == path_join(dir, es[src[a]].name)
                && es[src[a]].is_dir && es[src[a]].name != db_name() by {
                if a < rest.len() {
                    assert(src[a] == rest[a]);
                    assert(workspaces_in_order(dir, es, order, k)[a] == wrest[a]);
                }
            }
            assert forall|a: int, b: int| 0 <= a < b < src.len() implies name_le(
                es[#[trigger] src[a]].name,
                es[#[trigger] src[b]].name,
            ) && src[a] != src[b] by {
                assert(src[a] == rest[a]);
                if b < rest.len() {
                    assert(src[b] == rest[b]);
                } else {
                    assert(name_le(es[rest[a]].name, names[order[k - 1]]));
                    assert(rest[a] != order[k - 1]);
                }
            }
            assert forall|a: int, m: int| 0 <= a < src.len() && k <= m < order.len() implies name_le(
                es[#[trigger] src[a]].name,
                #[trigger] names[order[m]],
            ) && src[a] != order[m] by {
                assert(name_le(names[order[k - 1]], names[order[m]]));
                if a < rest.len() {
                    assert(src[a] == rest[a]);
                } else {
                    assert(order[k - 1] != order[m]);
                }
            }
        }
    }
}

/// The names of the entries differ from each other, as in one directory.
pub open spec fn distinct_names(es: Seq<FsView>) -> bool {
    forall|i: int, j: int| 0 <= i < j < es.len() ==> #[trigger] es[i].name != #[trigger] es[j].name
}

/// Each workspace is the path, under the scanned directory `dir`, of a distinct
/// directory other than `db` among the entries, and the workspaces come in the
/// order of those directories' names: strictly ascending where the names differ,
/// as the names in one directory do.
pub proof fn law_workspaces_in_name_order(dir: Seq<char>, es: Seq<FsView>)
    ensures
        ({
            let ws = workspace_paths(dir, es);
            let src = workspace_sources(es, name_order(es), es.len() as int);
            &&& ws.len() == src.len()
            &&& forall|a: int|
                0 <= a < src.len() ==> 0 <= #[trigger] src[a] < es.len() && ws[a] == path_join(
                    dir,
                    es[src[a]].name,
                ) && es[src[a]].is_dir && es[src[a]].name != db_name()
            &&& forall|a: int, b: int|
                0 <= a < b < src.len() ==> name_le(es[#[trigger] src[a]].name, es[#[trigger] src[b]].name)
                    && src[a] != src[b]
            &&& distinct_names(es) ==> forall|a: int, b: int|
                0 <= a < b < src.len() ==> es[#[trigger] src[a]].name != es[#[trigger] src[b]].name
        }),
{
    law_name_order_sorted(entry_names(es), es.len() as int);
    law_name_order_no_repeats(entry_names(es), es.len() as int);
    lemma_name_order_upto_len(entry_names(es), es.len() as int);
    lemma_workspace_sources(dir, es, name_order(es), es.len() as int);
    let src = workspace_sources(es, name_order(es), es.len() as int);
    if distinct_names(es) {
        assert forall|a: int, b: int| 0 <= a < b < src.len() implies es[#[trigger] src[a]].name
            != es[#[trigger] src[b]].name by {
            if src[a] < src[b] {
                assert(es[src[a]].name != es[src[b]].name);
            } else {
                assert(es[src[b]].name != es[src[a]].name);
            }
        }
    }
}

/// Every node of `ns` is a header that carries the path `p` and has no children.
pub open spec fn headers_at(ns: Seq<NodeView>, p: Seq<char>) -> bool {
    forall|i: int|
        0 <= i < ns.len() ==> (#[trigger] ns[i]).path == p && ns[i].node_type is MarkdownHeader
            && ns[i].children.len() == 0
}

/// Every node of `ns` sits where its path says: a folder or a file is the entry
/// of its name in `dir`, a folder's children sit in the folder, and a file's
/// children are headers that carry the file's path.
pub open spec fn placed_under(dir: Seq<char>, ns: Seq<NodeView>) -> bool
    decreases ns,
{
    if ns.len() == 0 {
        true
    } else {
        let n = ns.last();
        &&& placed_under(dir, ns.drop_last())
        &&& n.path == path_join(dir, n.name)
        &&& match n.node_type {
            NodeType::Folder => placed_under(n.path, n.children),
            NodeType::File => headers_at(n.children, n.path),
            NodeType::MarkdownHeader { .. } => false,
        }
    }
}

proof fn lemma_md_headers_at(ls: Seq<Seq<char>>, p: Seq<char>)
    ensures
        headers_at(md_headers(ls, p), p),
    decreases ls.len(),
{
    if ls.len() > 0 {
        lemma_md_headers_at(ls.drop_last(), p);
    }
}

proof fn lemma_placed_push(dir: Seq<char>, ns: Seq<NodeView>, n: NodeView)
    requires
        placed_under(dir, ns),
        n.path == path_join(dir, n.name),
        match n.node_type {
            NodeType::Folder => placed_under(n.path, n.children),
            NodeType::File => headers_at(n.children, n.path),
            NodeType::MarkdownHeader { .. } => false,
        },
    ensures
        placed_under(dir, ns.push(n)),
{
    assert(ns.push(n).drop_last() =~= ns);
}

proof fn lemma_nodes_in_order_placed(dir: Seq<char>, es: Seq<FsView>, order: Seq<int>, k: int)
    ensures
        placed_under(dir, nodes_in_order(dir, es, order, k)),
    decreases es, k,
{
    if !(k <= 0 || k > es.len() || k > order.len()) {
        lemma_nodes_in_order_placed(dir, es, order, k - 1);
        let rest = nodes_in_order(dir, es, order, k - 1);
        let i = order[k - 1];
        if 0 <= i < es.len() {
            let e = es[i];
            let p = path_join(dir, e.name);
            if e.is_dir {
                assert(decreases_to!(es => es[i].children));
                law_database_placed(p, e.children);
                lemma_placed_push(dir, rest, folder_view(e, p, database(p, e.children)));
            } else if has_md_extension(e.name) {
                lemma_md_headers_at(lines(text_of(e)), p);
                lemma_placed_push(dir, rest, file_view(e, p));
            }
        }
    }
}

/// The database of a directory puts every node where its path says: each folder
/// and file at the path of its entry under its parent directory (the root for the
/// top level), each header at the path of its file.
pub proof fn law_database_placed(dir: Seq<char>, es: Seq<FsView>)
    ensures
        placed_under(dir, database(dir, es)),
    decreases es, es.len() + 1,
{
    lemma_nodes_in_order_placed(dir, es, name_order(es), es.len() as int);
}

/// No entry name, at any depth, starts with `/` (as no file name does).
pub open spec fn relative_names(es: Seq<FsView>) -> bool
    decreases es,
{
    if es.len() == 0 {
        true
    } else {
        let e = es.last();
        &&& relative_names(es.drop_last())
        &&& !(e.name.len() > 0 && e.name[0] == '/')
        &&& relative_names(e.children)
    }
}

/// Every node of `ns`, at every depth, has a path that starts with `root`.
pub open spec fn paths_within(ns: Seq<NodeView>, root: Seq<char>) -> bool
    decreases ns,
{
    if ns.len() == 0 {
        true
    } else {
        let n = ns.last();
        &&& paths_within(ns.drop_last(), root)
        &&& starts_with(n.path, root)
        &&& paths_within(n.children, root)
    }
}

proof fn lemma_relative_names_index(es: Seq<FsView>, i: int)
    requires
        relative_names(es),
        0 <= i < es.len(),
    ensures
        !(es[i].name.len() > 0 && es[i].name[0] == '/'),
        relative_names(es[i].children),
    decreases es.len(),
{
    if i < es.len() - 1 {
        assert(es.drop_last()[i] == es[i]);
        lemma_relative_names_index(es.drop_last(), i);
    }
}

proof fn lemma_starts_with_trans(a: Seq<char>, b: Seq<char>, c: Seq<char>)
    requires
        starts_with(a, b),
        starts_with(b, c),
    ensures
        starts_with(a, c),
{
    assert(a.subrange(0, c.len() as int) =~= b.subrange(0, c.len() as int));
}

proof fn lemma_join_starts_with(dir: Seq<char>, name: Seq<char>)
    requires
        !(name.len() > 0 && name[0] == '/'),
    ensures
        starts_with(path_join(dir, name), dir),
{
    let j = path_join(dir, name);
    if dir.len() == 0 || dir.last() == '/' {
        assert(j.subrange(0, dir.len() as int) =~= dir);
    } else {
        assert(j.subrange(0, dir.len() as int) =~= dir);
    }
}

proof fn lemma_paths_within_push(ns: Seq<NodeView>, n: NodeView, root: Seq<char>)
    requires
        paths_within(ns, root),
        starts_with(n.path, root),
        paths_within(n.children, root),
    ensures
        paths_within(ns.push(n), root),
{
    assert(ns.push(n).drop_last() =~= ns);
}

proof fn lemma_headers_within(ls: Seq<Seq<char>>, p: Seq<char>, root: Seq<char>)
    requires
        starts_with(p, root),
    ensures
        paths_within(md_headers(ls, p), root),
    decreases ls.len(),
{
    if ls.len() > 0 {
        lemma_headers_within(ls.drop_last(), p, root);
        let h = md_headers(ls.drop_last(), p);
        let l = ls.last();
        if l.len() > 0 && l[0] == '#' {
            lemma_paths_within_push(h, header_view(l, p), root);
        }
    }
}

proof fn lemma_nodes_in_order_within(
    dir: Seq<char>,
    root: Seq<char>,
    es: Seq<FsView>,
    order: Seq<int>,
    k: int,
)
    requires
        starts_with(dir, root),
        relative_names(es),
    ensures
        paths_within(nodes_in_order(dir, es, order, k), root),
    decreases es, k,
{
    if !(k <= 0 || k > es.len() || k > order.len()) {
        lemma_nodes_in_order_within(dir, root, es, order, k - 1);
        let rest = nodes_in_order(dir, es, order, k - 1);
        let i = order[k - 1];
        if 0 <= i < es.len() {
            let e = es[i];
            let p = path_join(dir, e.name);
            lemma_relative_names_index(es, i);
            lemma_join_starts_with(dir, e.name);
            lemma_starts_with_trans(p, dir, root);
            if e.is_dir {
                assert(decreases_to!(es => es[i].children));
                lemma_database_within(p, root, e.children);
                lemma_paths_within_push(rest, folder_view(e, p, database(p, e.children)), root);
            } else if has_md_extension(e.name) {
                lemma_headers_within(lines(text_of(e)), p, root);
                lemma_paths_within_push(rest, file_view(e, p), root);
            }
        }
    }
}

proof fn lemma_database_within(dir: Seq<char>, root: Seq<char>, es: Seq<FsView>)
    requires
        starts_with(dir, root),
        relative_names(es),
    ensures
        paths_within(database(dir, es), root),
    decreases es, es.len() + 1,
{
    lemma_nodes_in_order_within(dir, root, es, name_order(es), es.len() as int);
}

/// The database of a root directory stays inside it: where no entry name starts
/// with `/`, every node at every depth has a path that starts with the root.
pub proof fn law_database_within_root(root: Seq<char>, es: Seq<FsView>)
    requires
        relative_names(es),
    ensures
        paths_within(database(root, es), root),
{
    assert(root.subrange(0, root.len() as int) =~= root);
    lemma_database_within(root, root, es);
}

/// An entry that the database shows: a directory, or a Markdown file.
pub open spec fn shown_entry(e: FsView) -> bool {
    e.is_dir || has_md_extension(e.name)
}

/// Node `n` stands for entry `e` of directory `dir`: it has the entry's name,
/// its path under `dir`, and is a folder for a directory and a file otherwise.
pub open spec fn node_of_entry(n: NodeView, dir: Seq<char>, e: FsView) -> bool {
    &&& n.name == e.name
    &&& n.path == path_join(dir, e.name)
    &&& n.node_type == if e.is_dir {
        NodeType::Folder
    } else {
        NodeType::File
    }
}

proof fn lemma_insert_index_keeps(order: Seq<int>, names: Seq<Seq<char>>, i: int, x: int)
    requires
        x == i || order.contains(x),
    ensures
        insert_index(order, names, i).contains(x),
    decreases order.len(),
{
    let r = insert_index(order, names, i);
    if order.len() == 0 {
        assert(r[0] == i);
    } else if name_le(names[order.last()], names[i]) {
        if x == i {
            assert(r[order.len() as int] == i);
        } else {
            let m = choose|m: int| 0 <= m < order.len() && order[m] == x;
            assert(r[m] == x);
        }
    } else {
        let o2 = order.drop_last();
        if x == order.last() {
            assert(r[r.len() - 1] == x);
        } else {
            if x != i {
                let m = choose|m: int| 0 <= m < order.len() && order[m] == x;
                assert(o2[m] == x);
            }
            lemma_insert_index_keeps(o2, names, i, x);
            let r2 = insert_index(o2, names, i);
            let m = choose|m: int| 0 <= m < r2.len() && r2[m] == x;
            assert(r[m] == x);
        }
    }
}

/// The stable sort takes every index.
pub proof fn law_name_order_complete(names: Seq<Seq<char>>, n: int, x: int)
    requires
        0 <= x < n,
    ensures
        name_order_upto(names, n).contains(x),
    decreases n,
{
    if x < n - 1 {
        law_name_order_complete(names, n - 1, x);
    }
    lemma_insert_index_keeps(name_order_upto(names, n - 1), names, n - 1, x);
}

proof fn lemma_nodes_in_order_complete(dir: Seq<char>, es: Seq<FsView>, order: Seq<int>, k: int)
    requires
        0 <= k <= es.len(),
        k <= order.len(),
    ensures
        forall|m: int|
            #![trigger order[m]]
            0 <= m < k && 0 <= order[m] < es.len() && shown_entry(es[order[m]]) ==> exists|j: int|
                0 <= j < nodes_in_order(dir, es, order, k).len() && #[trigger] node_of_entry(
                    nodes_in_order(dir, es, order, k)[j],
                    dir,
                    es[order[m]],
                ),
    decreases k,
{
    if k > 0 {
        lemma_nodes_in_order_complete(dir, es, order, k - 1);
        let rest = nodes_in_order(dir, es, order, k - 1);
        let r = nodes_in_order(dir, es, order, k);
        let i = order[k - 1];
        assert forall|m: int|
            #![trigger order[m]]
            0 <= m < k && 0 <= order[m] < es.len() && shown_entry(es[order[m]]) implies exists|j: int|
                0 <= j < r.len() && #[trigger] node_of_entry(r[j], dir, es[order[m]]) by {
            if m < k - 1 {
                let j = choose|j: int| 0 <= j < rest.len() && #[trigger] node_of_entry(rest[j], dir, es[order[m]]);
                assert(r[j] == rest[j]);
                assert(node_of_entry(r[j], dir, es[order[m]]));
            } else {
                assert(r[rest.len() as int] == r.last());
                assert(node_of_entry(r[rest.len() as int], dir, es[i]));
            }
        }
    }
}

/// The database leaves out no directory and no Markdown file: each such entry
/// of `dir`, empty folders included, has a node with its name, its path under
/// `dir`, and the type folder for a directory, file for a file.
pub proof fn law_database_complete(dir: Seq<char>, es: Seq<FsView>)
    ensures
        forall|i: int|
            #![trigger es[i]]
            0 <= i < es.len() && shown_entry(es[i]) ==> exists|j: int|
                0 <= j < database(dir, es).len() && #[trigger] node_of_entry(
                    database(dir, es)[j],
                    dir,
                    es[i],
                ),
{
    let order = name_order(es);
    lemma_name_order_upto_len(entry_names(es), es.len() as int);
    lemma_nodes_in_order_complete(dir, es, order, es.len() as int);
    assert forall|i: int|
        #![trigger es[i]]
        0 <= i < es.len() && shown_entry(es[i]) implies exists|j: int|
            0 <= j < database(dir, es).len() && #[trigger] node_of_entry(
                database(dir, es)[j],
                dir,
                es[i],
            ) by {
        law_name_order_complete(entry_names(es), es.len() as int, i);
        let m = choose|m: int| 0 <= m < order.len() && order[m] == i;
        assert(0 <= order[m] < es.len());
        let r = nodes_in_order(dir, es, order, es.len() as int);
        assert(r == database(dir, es));
        let j = choose|j: int| 0 <= j < r.len() && #[trigger] node_of_entry(r[j], dir, es[order[m]]);
        assert(node_of_entry(database(dir, es)[j], dir, es[i]));
    }
}

} // verus!
