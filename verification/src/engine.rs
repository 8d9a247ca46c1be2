//! The note database: its tree of folders, files and Markdown headers, and the
//! searches over it.
use vstd::prelude::*;
use crate::text::{contains, lowercase, lower_chars, chars_of, has_substring};

verus! {

/// What a node of the database stands for.
#[derive(Clone, Copy, Debug, PartialEq, Eq, Structural)]
pub enum NodeType {
    Folder,
    File,
    MarkdownHeader { level: usize },
}

/// A node of the database tree: a folder, a Markdown file, or a header inside one.
#[derive(Debug)]
pub struct DbNode {
    pub name: String,
    pub path: String,
    pub node_type: NodeType,
    pub tags: Vec<String>,
    pub children: Vec<DbNode>,
}

/// The mathematical value of a node: its strings as character sequences, its
/// children as a sequence of such values.
#[verifier::ext_equal]
pub struct NodeView {
    pub name: Seq<char>,
    pub path: Seq<char>,
    pub node_type: NodeType,
    pub tags: Seq<Seq<char>>,
    pub children: Seq<NodeView>,
}

/// The character sequences of a list of strings.
pub open spec fn strings_view(v: Seq<String>) -> Seq<Seq<char>> {
    v.map_values(|s: String| s@)
}

/// The values of a list of nodes.
pub open spec fn nodes_view(nodes: Seq<DbNode>) -> Seq<NodeView>
    decreases nodes,
{
    if nodes.len() == 0 {
        seq![]
    } else {
        nodes_view(nodes.drop_last()).push(node_view(nodes.last()))
    }
}

/// The value of one node.
pub open spec fn node_view(n: DbNode) -> NodeView
    decreases n,
{
    NodeView {
        name: n.name@,
        path: n.path@,
        node_type: n.node_type,
        tags: strings_view(n.tags@),
        children: nodes_view(n.children@),
    }
}

impl View for DbNode {
    type V = NodeView;

    open spec fn view(&self) -> NodeView {
        node_view(*self)
    }
}

/// A list of nodes and its value have the same length.
pub proof fn lemma_nodes_view_len(nodes: Seq<DbNode>)
    ensures
        nodes_view(nodes).len() == nodes.len(),
    decreases nodes.len(),
{
    if nodes.len() > 0 {
        lemma_nodes_view_len(nodes.drop_last());
    }
}

/// The value of a list of nodes holds the value of each node at its place.
pub proof fn lemma_nodes_view_index(nodes: Seq<DbNode>, i: int)
    requires
        0 <= i < nodes.len(),
    ensures
        nodes_view(nodes)[i] == node_view(nodes[i]),
        nodes_view(nodes).len() == nodes.len(),
    decreases nodes.len(),
{
    lemma_nodes_view_len(nodes);
    if i < nodes.len() - 1 {
        lemma_nodes_view_index(nodes.drop_last(), i);
    }
}

/// `nodes_view` of a list grown by one node.
pub proof fn lemma_nodes_view_push(nodes: Seq<DbNode>, n: DbNode)
    ensures
        nodes_view(nodes.push(n)) == nodes_view(nodes).push(node_view(n)),
{
    assert(nodes.push(n).drop_last() =~= nodes);
}

/// A copy of a list of strings.
pub fn copy_strings(v: &Vec<String>) -> (r: Vec<String>)
    ensures
        strings_view(r@) == strings_view(v@),
{
    let mut r: Vec<String> = Vec::new();
    let mut i: usize = 0;
    while i < v.len()
        invariant
            i <= v.len(),
            r.len() == i,
            forall|j: int| 0 <= j < i ==> #[trigger] r@[j]@ == v@[j]@,
        decreases v.len() - i,
    {
        let c = v[i].clone();
        r.push(c);
        i += 1;
    }
    assert(strings_view(r@) =~= strings_view(v@));
    r
}

/// A deep copy of a node.
pub fn copy_node(n: &DbNode) -> (r: DbNode)
    ensures
        r@ == n@,
    decreases n,
{
    DbNode {
        name: n.name.clone(),
        path: n.path.clone(),
        node_type: n.node_type,
        tags: copy_strings(&n.tags),
        children: copy_nodes(&n.children),
    }
}

/// A deep copy of a list of nodes.
pub fn copy_nodes(nodes: &Vec<DbNode>) -> (r: Vec<DbNode>)
    ensures
        nodes_view(r@) == nodes_view(nodes@),
    decreases nodes,
{
    let mut r: Vec<DbNode> = Vec::new();
    let mut i: usize = 0;
    while i < nodes.len()
        invariant
            i <= nodes.len(),
            nodes_view(r@) == nodes_view(nodes@.take(i as int)),
        decreases nodes.len() - i,
    {
        assert(decreases_to!(nodes => nodes@[i as int]));
        let c = copy_node(&nodes[i]);
        proof {
            lemma_nodes_view_push(r@, c);
            assert(nodes@.take(i + 1).drop_last() =~= nodes@.take(i as int));
        }
        r.push(c);
        i += 1;
    }
    assert(nodes@.take(nodes.len() as int) =~= nodes@);
    r
}

// ---------------------------------------------------------------------------
// Searching
// ---------------------------------------------------------------------------

/// Which part of a node a search looks at.
#[derive(Clone, Copy, Debug, PartialEq, Eq, Structural)]
pub enum SearchField {
    /// The node's name.
    Name,
    /// The node's tags.
    Tags,
}

/// The node itself, lower-cased in the searched part, holds `q`: for names, the
/// lower-cased name contains `q`; for tags, some lower-cased tag contains `q`.
pub open spec fn node_matches(n: NodeView, field: SearchField, q: Seq<char>) -> bool {
    match field {
        SearchField::Name => contains(lowercase(n.name), q),
        SearchField::Tags => exists|i: int|
            0 <= i < n.tags.len() && #[trigger] contains(lowercase(n.tags[i]), q),
    }
}

/// `n` with its children replaced by `c`.
pub open spec fn with_children(n: NodeView, c: Seq<NodeView>) -> NodeView {
    NodeView { children: c, ..n }
}

/// The nodes that match, or that have a descendant that matches, in their order,
/// each with its children pruned the same way.
pub open spec fn prune(nodes: Seq<NodeView>, field: SearchField, q: Seq<char>) -> Seq<NodeView>
    decreases nodes,
{
    if nodes.len() == 0 {
        seq![]
    } else {
        let rest = prune(nodes.drop_last(), field, q);
        let n = nodes.last();
        let kids = prune(n.children, field, q);
        if node_matches(n, field, q) || kids.len() > 0 {
            rest.push(with_children(n, kids))
        } else {
            rest
        }
    }
}

/// What a search for `query` leaves of `nodes`: all of them for an empty query,
/// else the nodes pruned against the lower-cased query.
pub open spec fn search_result(nodes: Seq<NodeView>, field: SearchField, query: Seq<char>) -> Seq<
    NodeView,
> {
    if query.len() == 0 {
        nodes
    } else {
        prune(nodes, field, lowercase(query))
    }
}

/// What a search leaves of `nodes` for a query whose lower-cased form is `lq`:
/// all of them when `lq` is empty, else the nodes pruned against `lq`. Since
/// lower-casing keeps empty text empty and non-empty text non-empty, this is
/// `search_result` seen through the lower-cased query.
pub open spec fn search_lowered(nodes: Seq<NodeView>, field: SearchField, lq: Seq<char>) -> Seq<
    NodeView,
> {
    if lq.len() == 0 {
        nodes
    } else {
        prune(nodes, field, lq)
    }
}

/// Whether node `n` matches `q` (already lower-cased) in `field`.
pub fn matches_node(n: &DbNode, field: SearchField, q: &[char]) -> (b: bool)
    ensures
        b == node_matches(n@, field, q@),
{
    match field {
        SearchField::Name => {
            let name = lower_chars(chars_of(n.name.as_str()).as_slice());
            has_substring(name.as_slice(), q)
        },
        SearchField::Tags => {
            let mut i: usize = 0;
            while i < n.tags.len()
                invariant
                    i <= n.tags.len(),
                    field == SearchField::Tags,
                    n@.tags == strings_view(n.tags@),
                    forall|j: int|
                        0 <= j < i ==> !#[trigger] contains(lowercase(n@.tags[j]), q@),
                decreases n.tags.len() - i,
            {
                let t = lower_chars(chars_of(n.tags[i].as_str()).as_slice());
                if has_substring(t.as_slice(), q) {
                    assert(n@.tags[i as int] == n.tags@[i as int]@);
                    assert(n@.tags.len() == n.tags.len());
                    assert(contains(lowercase(n@.tags[i as int]), q@));
                    return true;
                }
                assert(n@.tags[i as int] == n.tags@[i as int]@);
                i += 1;
            }
            false
        },
    }
}

/// The nodes of `nodes` that match `q` (already lower-cased) in `field`, or have a
/// descendant that does, each with its children pruned the same way.
pub fn prune_nodes(nodes: &[DbNode], field: SearchField, q: &[char]) -> (r: Vec<DbNode>)
    ensures
        nodes_view(r@) == prune(nodes_view(nodes@), field, q@),
    decreases nodes@,
{
    let mut r: Vec<DbNode> = Vec::new();
    let mut i: usize = 0;
    while i < nodes.len()
        invariant
            i <= nodes.len(),
            nodes_view(r@) == prune(nodes_view(nodes@.take(i as int)), field, q@),
        decreases nodes.len() - i,
    {
        let node = &nodes[i];
        assert(decreases_to!(nodes@ => nodes@[i as int].children@));
        let kids = prune_nodes(node.children.as_slice(), field, q);
        let m = matches_node(node, field, q);
        proof {
            assert(nodes@.take(i + 1) =~= nodes@.take(i as int).push(nodes@[i as int]));
            lemma_nodes_view_push(nodes@.take(i as int), nodes@[i as int]);
            assert(nodes_view(nodes@.take(i + 1)).drop_last() =~= nodes_view(
                nodes@.take(i as int),
            ));
            lemma_nodes_view_len(kids@);
        }
        if m || kids.len() > 0 {
            let c = DbNode {
                name: node.name.clone(),
                path: node.path.clone(),
                node_type: node.node_type,
                tags: copy_strings(&node.tags),
                children: kids,
            };
            proof {
                lemma_nodes_view_push(r@, c);
                assert(node_view(c) =~= with_children(node_view(*node), nodes_view(kids@)));
            }
            r.push(c);
        }
        i += 1;
    }
    assert(nodes@.take(nodes.len() as int) =~= nodes@);
    r
}

/// Searches the tree by name: with an empty query, a copy of `nodes`; else the
/// nodes whose lower-cased name contains the lower-cased query, or that have such
/// a descendant, in their order, each with its children searched the same way.
/// The result depends on the query only through its lower-cased form, so
/// queries that differ only in case give the same result.
pub fn search_by_text(nodes: &[DbNode], query: &str) -> (r: Vec<DbNode>)
    ensures
        nodes_view(r@) == search_result(nodes_view(nodes@), SearchField::Name, query@),
        nodes_view(r@) == search_lowered(nodes_view(nodes@), SearchField::Name, lowercase(query@)),
{
    search_in(nodes, SearchField::Name, query)
}

/// Searches the tree by tags: with an empty query, a copy of `nodes`; else the
/// nodes with a tag whose lower-cased form contains the lower-cased query, or that
/// have such a descendant, in their order, each with its children searched the
/// same way. As for names, only the lower-cased query counts.
pub fn search_by_tags(nodes: &[DbNode], query: &str) -> (r: Vec<DbNode>)
    ensures
        nodes_view(r@) == search_result(nodes_view(nodes@), SearchField::Tags, query@),
        nodes_view(r@) == search_lowered(nodes_view(nodes@), SearchField::Tags, lowercase(query@)),
{
    search_in(nodes, SearchField::Tags, query)
}

/// The search shared by names and tags.
fn search_in(nodes: &[DbNode], field: SearchField, query: &str) -> (r: Vec<DbNode>)
    ensures
        nodes_view(r@) == search_result(nodes_view(nodes@), field, query@),
        nodes_view(r@) == search_lowered(nodes_view(nodes@), field, lowercase(query@)),
{
    let qchars = chars_of(query);
    let q = lower_chars(qchars.as_slice());
    if qchars.len() == 0 {
        let mut r: Vec<DbNode> = Vec::new();
        let mut i: usize = 0;
        while i < nodes.len()
            invariant
                i <= nodes.len(),
                nodes_view(r@) == nodes_view(nodes@.take(i as int)),
            decreases nodes.len() - i,
        {
            let c = copy_node(&nodes[i]);
            proof {
                lemma_nodes_view_push(r@, c);
                assert(nodes@.take(i + 1) =~= nodes@.take(i as int).push(nodes@[i as int]));
                lemma_nodes_view_push(nodes@.take(i as int), nodes@[i as int]);
            }
            r.push(c);
            i += 1;
        }
        assert(nodes@.take(nodes.len() as int) =~= nodes@);
        return r;
    }
    prune_nodes(nodes, field, q.as_slice())
}

// ---------------------------------------------------------------------------
// Laws of searching
// ---------------------------------------------------------------------------

/// Every node, at every depth, matches or has children that remain.
pub open spec fn leads_to_match(nodes: Seq<NodeView>, field: SearchField, q: Seq<char>) -> bool
    decreases nodes,
{
    if nodes.len() == 0 {
        true
    } else {
        let n = nodes.last();
        &&& leads_to_match(nodes.drop_last(), field, q)
        &&& node_matches(n, field, q) || n.children.len() > 0
        &&& leads_to_match(n.children, field, q)
    }
}

/// A search with an empty query leaves every node as it is.
pub proof fn law_empty_query_keeps_all(nodes: Seq<NodeView>, field: SearchField)
    ensures
        search_result(nodes, field, seq![]) == nodes,
{
}

/// Pruning never lengthens a list.
pub proof fn law_prune_not_longer(nodes: Seq<NodeView>, field: SearchField, q: Seq<char>)
    ensures
        prune(nodes, field, q).len() <= nodes.len(),
    decreases nodes.len(),
{
    if nodes.len() > 0 {
        law_prune_not_longer(nodes.drop_last(), field, q);
    }
}

/// What a search leaves, at every depth, matches the query or leads to a node
/// that does.
pub proof fn law_search_leads_to_matches(nodes: Seq<NodeView>, field: SearchField, q: Seq<char>)
    ensures
        leads_to_match(prune(nodes, field, q), field, q),
    decreases nodes,
{
    if nodes.len() > 0 {
        let rest = prune(nodes.drop_last(), field, q);
        let n = nodes.last();
        let kids = prune(n.children, field, q);
        law_search_leads_to_matches(nodes.drop_last(), field, q);
        law_search_leads_to_matches(n.children, field, q);
        if node_matches(n, field, q) || kids.len() > 0 {
            let r = rest.push(with_children(n, kids));
            assert(r.drop_last() =~= rest);
            assert(node_matches(with_children(n, kids), field, q) == node_matches(n, field, q));
        }
    }
}

/// Searching again with the same query changes nothing.
pub proof fn law_search_idempotent(nodes: Seq<NodeView>, field: SearchField, query: Seq<char>)
    ensures
        search_result(search_result(nodes, field, query), field, query) == search_result(
            nodes,
            field,
            query,
        ),
{
    if query.len() > 0 {
        lemma_prune_idempotent(nodes, field, lowercase(query));
    }
}

proof fn lemma_prune_idempotent(nodes: Seq<NodeView>, field: SearchField, q: Seq<char>)
    ensures
        prune(prune(nodes, field, q), field, q) == prune(nodes, field, q),
    decreases nodes,
{
    if nodes.len() > 0 {
        let rest = prune(nodes.drop_last(), field, q);
        let n = nodes.last();
        let kids = prune(n.children, field, q);
        lemma_prune_idempotent(nodes.drop_last(), field, q);
        lemma_prune_idempotent(n.children, field, q);
        if node_matches(n, field, q) || kids.len() > 0 {
            let m = with_children(n, kids);
            let r = rest.push(m);
            assert(r.drop_last() =~= rest);
            assert(node_matches(m, field, q) == node_matches(n, field, q));
            assert(prune(r, field, q) == prune(rest, field, q).push(
                with_children(m, prune(kids, field, q)),
            ));
            assert(with_children(m, kids) =~= m);
        }
    }
}

/// Node `x` stands somewhere in the forest `nodes`, at any depth.
pub open spec fn occurs_in(x: NodeView, nodes: Seq<NodeView>) -> bool
    decreases nodes,
{
    if nodes.len() == 0 {
        false
    } else {
        let n = nodes.last();
        ||| n == x
        ||| occurs_in(x, n.children)
        ||| occurs_in(x, nodes.drop_last())
    }
}

proof fn lemma_occurs_in_push(x: NodeView, nodes: Seq<NodeView>, y: NodeView)
    requires
        occurs_in(x, nodes),
    ensures
        occurs_in(x, nodes.push(y)),
{
    assert(nodes.push(y).drop_last() =~= nodes);
}

/// Every node that matches the query itself remains, at whatever depth it
/// stands, with its children searched.
pub proof fn law_matching_nodes_remain(
    nodes: Seq<NodeView>,
    field: SearchField,
    q: Seq<char>,
    x: NodeView,
)
    requires
        occurs_in(x, nodes),
        node_matches(x, field, q),
    ensures
        occurs_in(with_children(x, prune(x.children, field, q)), prune(nodes, field, q)),
    decreases nodes,
{
    let w = with_children(x, prune(x.children, field, q));
    let rest = prune(nodes.drop_last(), field, q);
    let n = nodes.last();
    let kids = prune(n.children, field, q);
    let r = prune(nodes, field, q);
    if n == x {
        assert(r.last() == w);
    } else if occurs_in(x, n.children) {
        law_matching_nodes_remain(n.children, field, q, x);
        assert(kids.len() > 0);
        assert(r.last() == with_children(n, kids));
    } else {
        law_matching_nodes_remain(nodes.drop_last(), field, q, x);
        if node_matches(n, field, q) || kids.len() > 0 {
            lemma_occurs_in_push(w, rest, with_children(n, kids));
        }
    }
}

/// The two nodes agree in everything but their children.
pub open spec fn same_fields(x: NodeView, y: NodeView) -> bool {
    x.name == y.name && x.path == y.path && x.node_type == y.node_type && x.tags == y.tags
}

/// `a` is what is left of the forest `b` after some of its nodes were dropped
/// with everything below them: the nodes of `a` are nodes of `b`, in their order,
/// with their own fields, and the children of each are in turn what is left of
/// the children of its counterpart.
pub open spec fn sub_forest(a: Seq<NodeView>, b: Seq<NodeView>) -> bool
    decreases b,
{
    if b.len() == 0 {
        a.len() == 0
    } else {
        let y = b.last();
        ||| sub_forest(a, b.drop_last())
        ||| (a.len() > 0 && same_fields(a.last(), y) && sub_forest(a.last().children, y.children)
            && sub_forest(a.drop_last(), b.drop_last()))
    }
}

/// A forest is what is left of itself.
pub proof fn lemma_sub_forest_refl(b: Seq<NodeView>)
    ensures
        sub_forest(b, b),
    decreases b,
{
    if b.len() > 0 {
        lemma_sub_forest_refl(b.drop_last());
        lemma_sub_forest_refl(b.last().children);
    }
}

/// What is left of a forest is no longer than it.
pub proof fn lemma_sub_forest_len(a: Seq<NodeView>, b: Seq<NodeView>)
    requires
        sub_forest(a, b),
    ensures
        a.len() <= b.len(),
    decreases b,
{
    if b.len() > 0 {
        if sub_forest(a, b.drop_last()) {
            lemma_sub_forest_len(a, b.drop_last());
        } else {
            lemma_sub_forest_len(a.drop_last(), b.drop_last());
        }
    }
}

/// Pruning leaves a sub-forest of what it pruned.
pub proof fn lemma_prune_sub_forest(b: Seq<NodeView>, field: SearchField, q: Seq<char>)
    ensures
        sub_forest(prune(b, field, q), b),
    decreases b,
{
    if b.len() > 0 {
        let n = b.last();
        let rest = prune(b.drop_last(), field, q);
        let kids = prune(n.children, field, q);
        lemma_prune_sub_forest(b.drop_last(), field, q);
        lemma_prune_sub_forest(n.children, field, q);
        if node_matches(n, field, q) || kids.len() > 0 {
            let a = rest.push(with_children(n, kids));
            assert(a.drop_last() =~= rest);
        }
    }
}

/// A longer query keeps less: when the lower-cased query `lq2` contains the
/// lower-cased query `lq1`, the search for `lq2` leaves a sub-forest of what the
/// search for `lq1` leaves, and so no more nodes.
pub proof fn law_longer_query_sub_forest(
    nodes: Seq<NodeView>,
    field: SearchField,
    lq1: Seq<char>,
    lq2: Seq<char>,
)
    requires
        contains(lq2, lq1),
    ensures
        sub_forest(search_lowered(nodes, field, lq2), search_lowered(nodes, field, lq1)),
        search_lowered(nodes, field, lq2).len() <= search_lowered(nodes, field, lq1).len(),
{
    if lq1.len() == 0 {
        if lq2.len() == 0 {
            lemma_sub_forest_refl(nodes);
        } else {
            lemma_prune_sub_forest(nodes, field, lq2);
        }
    } else {
        let p1 = prune(nodes, field, lq1);
        law_narrowing(nodes, field, lq1, lq2);
        lemma_prune_sub_forest(p1, field, lq2);
    }
    lemma_sub_forest_len(search_lowered(nodes, field, lq2), search_lowered(nodes, field, lq1));
}

/// The two forests have the same shape, node types and tags; names and paths may
/// differ.
pub open spec fn same_shape(a: Seq<NodeView>, b: Seq<NodeView>) -> bool
    decreases a,
{
    if a.len() == 0 {
        b.len() == 0
    } else {
        &&& b.len() > 0
        &&& a.last().node_type == b.last().node_type
        &&& a.last().tags == b.last().tags
        &&& same_shape(a.last().children, b.last().children)
        &&& same_shape(a.drop_last(), b.drop_last())
    }
}

/// `ra` is what is left of `a` and `rb` what is left of `b`, with the same
/// positions kept in both: the two sub-forests are taken alike.
pub open spec fn kept_alike(
    ra: Seq<NodeView>,
    a: Seq<NodeView>,
    rb: Seq<NodeView>,
    b: Seq<NodeView>,
) -> bool
    decreases a,
{
    if a.len() == 0 {
        ra.len() == 0 && rb.len() == 0 && b.len() == 0
    } else {
        &&& b.len() > 0
        &&& {
            ||| kept_alike(ra, a.drop_last(), rb, b.drop_last())
            ||| (ra.len() > 0 && rb.len() > 0 && same_fields(ra.last(), a.last()) && same_fields(
                rb.last(),
                b.last(),
            ) && kept_alike(
                ra.last().children,
                a.last().children,
                rb.last().children,
                b.last().children,
            ) && kept_alike(ra.drop_last(), a.drop_last(), rb.drop_last(), b.drop_last()))
        }
    }
}

proof fn lemma_kept_alike_refl(a: Seq<NodeView>, b: Seq<NodeView>)
    requires
        same_shape(a, b),
    ensures
        kept_alike(a, a, b, b),
    decreases a,
{
    if a.len() > 0 {
        lemma_kept_alike_refl(a.drop_last(), b.drop_last());
        lemma_kept_alike_refl(a.last().children, b.last().children);
    }
}

proof fn lemma_prune_tags_alike(a: Seq<NodeView>, b: Seq<NodeView>, q: Seq<char>)
    requires
        same_shape(a, b),
    ensures
        same_shape(prune(a, SearchField::Tags, q), prune(b, SearchField::Tags, q)),
        kept_alike(prune(a, SearchField::Tags, q), a, prune(b, SearchField::Tags, q), b),
    decreases a,
{
    if a.len() > 0 {
        let f = SearchField::Tags;
        let na = a.last();
        let nb = b.last();
        let ka = prune(na.children, f, q);
        let kb = prune(nb.children, f, q);
        let resta = prune(a.drop_last(), f, q);
        let restb = prune(b.drop_last(), f, q);
        lemma_prune_tags_alike(a.drop_last(), b.drop_last(), q);
        lemma_prune_tags_alike(na.children, nb.children, q);
        assert(node_matches(na, f, q) == node_matches(nb, f, q));
        if ka.len() == 0 && kb.len() > 0 {
            assert(same_shape(ka, kb));
        }
        if kb.len() == 0 && ka.len() > 0 {
            assert(same_shape(ka, kb));
        }
        if node_matches(na, f, q) || ka.len() > 0 {
            let ra = resta.push(with_children(na, ka));
            let rb = restb.push(with_children(nb, kb));
            assert(ra.drop_last() =~= resta);
            assert(rb.drop_last() =~= restb);
        }
    }
}

/// Only tags decide a tag search: in two forests of the same shape, node types
/// and tags (their names and paths may differ), a tag search keeps the nodes at
/// the same positions, and what it leaves has again the same shape.
pub proof fn law_tag_search_reads_only_tags(
    a: Seq<NodeView>,
    b: Seq<NodeView>,
    lq: Seq<char>,
)
    requires
        same_shape(a, b),
    ensures
        same_shape(
            search_lowered(a, SearchField::Tags, lq),
            search_lowered(b, SearchField::Tags, lq),
        ),
        kept_alike(
            search_lowered(a, SearchField::Tags, lq),
            a,
            search_lowered(b, SearchField::Tags, lq),
            b,
        ),
{
    if lq.len() == 0 {
        lemma_kept_alike_refl(a, b);
    } else {
        lemma_prune_tags_alike(a, b, lq);
    }
}

/// Narrowing the query only narrows the results: when `q2` contains `q1`,
/// searching the results for `q1` with `q2` gives the results for `q2`.
pub proof fn law_narrowing(nodes: Seq<NodeView>, field: SearchField, q1: Seq<char>, q2: Seq<char>)
    requires
        contains(q2, q1),
    ensures
        prune(prune(nodes, field, q1), field, q2) == prune(nodes, field, q2),
    decreases nodes,
{
    if nodes.len() > 0 {
        let rest1 = prune(nodes.drop_last(), field, q1);
        let n = nodes.last();
        let kids1 = prune(n.children, field, q1);
        let kids2 = prune(n.children, field, q2);
        law_narrowing(nodes.drop_last(), field, q1, q2);
        law_narrowing(n.children, field, q1, q2);
        lemma_matches_narrow(n, field, q1, q2);
        if node_matches(n, field, q1) || kids1.len() > 0 {
            let m = with_children(n, kids1);
            let r = rest1.push(m);
            assert(r.drop_last() =~= rest1);
            assert(node_matches(m, field, q2) == node_matches(n, field, q2));
            assert(with_children(m, prune(kids1, field, q2)) =~= with_children(n, kids2));
        } else {
            assert(!node_matches(n, field, q2));
            law_prune_not_longer(kids1, field, q2);
            assert(kids2.len() == 0);
        }
    }
}

/// A contiguous piece of a contiguous piece is a contiguous piece.
proof fn lemma_contains_trans(s: Seq<char>, q2: Seq<char>, q1: Seq<char>)
    requires
        contains(s, q2),
        contains(q2, q1),
    ensures
        contains(s, q1),
{
    let i = choose|i: int| 0 <= i && i + q2.len() <= s.len() && #[trigger] s.subrange(i, i + q2.len()) == q2;
    let j = choose|j: int| 0 <= j && j + q1.len() <= q2.len() && #[trigger] q2.subrange(j, j + q1.len()) == q1;
    assert(s.subrange(i + j, i + j + q1.len()) =~= q1) by {
        assert forall|k: int| 0 <= k < q1.len() implies s.subrange(i + j, i + j + q1.len())[k] == q1[k] by {
            assert(s.subrange(i, i + q2.len())[j + k] == q2[j + k]);
            assert(q2.subrange(j, j + q1.len())[k] == q1[k]);
        }
    }
}

proof fn lemma_matches_narrow(n: NodeView, field: SearchField, q1: Seq<char>, q2: Seq<char>)
    requires
        contains(q2, q1),
    ensures
        node_matches(n, field, q2) ==> node_matches(n, field, q1),
{
    if node_matches(n, field, q2) {
        match field {
            SearchField::Name => {
                lemma_contains_trans(lowercase(n.name), q2, q1);
            },
            SearchField::Tags => {
                let i = choose|i: int| 0 <= i < n.tags.len() && #[trigger] contains(lowercase(n.tags[i]), q2);
                lemma_contains_trans(lowercase(n.tags[i]), q2, q1);
            },
        }
    }
}

impl Clone for DbNode {
    fn clone(&self) -> (r: Self)
        ensures
            r@ == self@,
    {
        copy_node(self)
    }
}

} // verus!
