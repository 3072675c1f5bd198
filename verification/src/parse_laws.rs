//! What every diagram read from the DSL satisfies.

use vstd::prelude::*;
use crate::dsl::{
    Halt, NodeSpecView, ParseState, chain_from, cluster_body_spec, cluster_header_spec, cluster_spec, is_cluster_header,
    edge_chain_spec, ensure_node_spec, has_node_id, initial_state, layout_setting_spec, line_spec,
    lines_spec, lemma_line_advances, node_key, node_spec_of, parse_dsl_spec, source_insert, to_id_of,
    use_spec, bracket_label_of, first_free_suffix, new_node_id, suffixed,
};
use crate::model::{DiagramView, LayoutView, NodeView, source_index_from};
use crate::number::is_float_literal;
use crate::text::{
    is_ascii_alnum, join,
    add_all, add_unique, index_from, is_provider_name, lemma_index_from, lemma_index_from_first, split_by,
    trim, lines_of, decimal, lemma_decimal_injective, distinct_ids, lemma_add_all_distinct,
    lemma_add_unique_distinct,
};

verus! {

/// The reference pieces (provider, icon, label) of a node.
pub open spec fn spec_of_node(n: NodeView) -> NodeSpecView {
    NodeSpecView { label: n.label, provider: n.provider, icon: n.icon }
}

/// Every one of `ids` is the id of one of `nodes`.
pub open spec fn all_node_ids(nodes: Seq<NodeView>, ids: Seq<Seq<char>>) -> bool {
    forall|k: int| 0 <= k < ids.len() ==> has_node_id(nodes, #[trigger] ids[k])
}

/// An optional layout value that is absent or reads as a number.
pub open spec fn number_or_absent(o: Option<Seq<char>>) -> bool {
    match o {
        Some(t) => is_float_literal(t),
        None => true,
    }
}

/// Every layout value that is set reads as a number.
pub open spec fn layout_values_ok(l: Option<LayoutView>) -> bool {
    match l {
        None => true,
        Some(v) => number_or_absent(v.icon_size) && number_or_absent(v.node_width) && number_or_absent(
            v.node_height,
        ) && number_or_absent(v.h_spacing) && number_or_absent(v.v_spacing),
    }
}

/// Provider names that are valid and each named once.
pub open spec fn sources_ok(sources: Seq<(Seq<char>, Option<Seq<char>>)>) -> bool {
    &&& forall|i: int| 0 <= i < sources.len() ==> is_provider_name((#[trigger] sources[i]).0)
    &&& forall|a: int, b: int| 0 <= a < b < sources.len() ==> sources[a].0 != sources[b].0
}

/// What holds of the state after every line that was read.
pub open spec fn state_inv(st: ParseState) -> bool {
    &&& st.keys.len() == st.nodes.len()
    &&& forall|i: int| 0 <= i < st.nodes.len() ==> #[trigger] st.keys[i] == node_key(spec_of_node(st.nodes[i]))
    &&& forall|a: int, b: int| 0 <= a < b < st.keys.len() ==> st.keys[a] != st.keys[b]
    &&& forall|i: int| 0 <= i < st.nodes.len() ==> (#[trigger] st.nodes[i]).id.len() > 0
    &&& distinct_node_ids(st.nodes)
    &&& forall|i: int|
        0 <= i < st.edges.len() ==> has_node_id(st.nodes, (#[trigger] st.edges[i]).from) && has_node_id(
            st.nodes,
            st.edges[i].to,
        )
    &&& forall|c: int| 0 <= c < st.clusters.len() ==> all_node_ids(st.nodes, (#[trigger] st.clusters[c]).children)
    &&& forall|c: int| 0 <= c < st.clusters.len() ==> distinct_ids((#[trigger] st.clusters[c]).children)
    &&& sources_ok(st.sources)
    &&& st.direction == "TB"@ || st.direction == "LR"@
    &&& layout_values_ok(st.layout)
}

/// `st2` holds the nodes of `st` at the same places, and perhaps more.
pub open spec fn grows(st: ParseState, st2: ParseState) -> bool {
    st.nodes.len() <= st2.nodes.len() && forall|i: int| 0 <= i < st.nodes.len() ==> st2.nodes[i] == st.nodes[i]
}

/// Only nodes and edges have changed.
pub open spec fn same_settings(st: ParseState, st2: ParseState) -> bool {
    &&& st2.title == st.title
    &&& st2.direction == st.direction
    &&& st2.theme == st.theme
    &&& st2.sources == st.sources
    &&& st2.layout == st.layout
}

/// Where reading stops, the state is still well formed, keeps every node it
/// had, and no setting (title, direction, theme, providers, layout) has
/// changed.
pub open spec fn halts_well(st: ParseState, h: Halt) -> bool {
    state_inv(h.state) && grows(st, h.state) && same_settings(st, h.state)
}

proof fn lemma_grows_id(st: ParseState, st2: ParseState, x: Seq<char>)
    requires
        grows(st, st2),
        has_node_id(st.nodes, x),
    ensures
        has_node_id(st2.nodes, x),
{
    let i = choose|i: int| 0 <= i < st.nodes.len() && #[trigger] st.nodes[i].id == x;
    assert(st2.nodes[i].id == x);
}

proof fn lemma_grows_ids(st: ParseState, st2: ParseState, ids: Seq<Seq<char>>)
    requires
        grows(st, st2),
        all_node_ids(st.nodes, ids),
    ensures
        all_node_ids(st2.nodes, ids),
{
    assert forall|k: int| 0 <= k < ids.len() implies has_node_id(st2.nodes, #[trigger] ids[k]) by {
        lemma_grows_id(st, st2, ids[k]);
    }
}

/// Edges and clusters of `st` still refer to nodes of `st2`.
proof fn lemma_grows_refs(st: ParseState, st2: ParseState)
    requires
        grows(st, st2),
        forall|i: int|
            0 <= i < st.edges.len() ==> has_node_id(st.nodes, (#[trigger] st.edges[i]).from) && has_node_id(
                st.nodes,
                st.edges[i].to,
            ),
        forall|c: int| 0 <= c < st.clusters.len() ==> all_node_ids(st.nodes, (#[trigger] st.clusters[c]).children),
    ensures
        forall|i: int|
            0 <= i < st.edges.len() ==> has_node_id(st2.nodes, (#[trigger] st.edges[i]).from) && has_node_id(
                st2.nodes,
                st.edges[i].to,
            ),
        forall|c: int| 0 <= c < st.clusters.len() ==> all_node_ids(st2.nodes, (#[trigger] st.clusters[c]).children),
{
    assert forall|i: int| 0 <= i < st.edges.len() implies has_node_id(st2.nodes, (#[trigger] st.edges[i]).from)
        && has_node_id(st2.nodes, st.edges[i].to) by {
        lemma_grows_id(st, st2, st.edges[i].from);
        lemma_grows_id(st, st2, st.edges[i].to);
    }
    assert forall|c: int| 0 <= c < st.clusters.len() implies all_node_ids(st2.nodes, (#[trigger] st.clusters[c]).children) by {
        lemma_grows_ids(st, st2, st.clusters[c].children);
    }
}

proof fn lemma_suffixed_injective(base: Seq<char>, j: nat, k: nat)
    requires
        suffixed(base, j) == suffixed(base, k),
    ensures
        j == k,
{
    reveal_strlit("_");
    assert(decimal(j) =~= suffixed(base, j).skip(base.len() + 1 as int));
    assert(decimal(k) =~= suffixed(base, k).skip(base.len() + 1 as int));
    lemma_decimal_injective(j, k);
}

/// Of the `ids.len() + 1` ids `base_2`, ..., `base_{n+2}`, one is not among
/// `ids`.
proof fn lemma_free_suffix_exists(ids: Seq<Seq<char>>, base: Seq<char>)
    ensures
        exists|k: nat| 2 <= k <= ids.len() + 2 && !ids.contains(#[trigger] suffixed(base, k)),
    decreases ids.len(),
{
    let top = (ids.len() + 2) as nat;
    if ids.contains(suffixed(base, top)) {
        let i = choose|i: int| 0 <= i < ids.len() && ids[i] == suffixed(base, top);
        let rest = ids.remove(i);
        lemma_free_suffix_exists(rest, base);
        let k = choose|k: nat| 2 <= k <= rest.len() + 2 && !rest.contains(#[trigger] suffixed(base, k));
        if suffixed(base, k) == suffixed(base, top) {
            lemma_suffixed_injective(base, k, top);
        }
        if ids.contains(suffixed(base, k)) {
            let j = choose|j: int| 0 <= j < ids.len() && ids[j] == suffixed(base, k);
            if j < i {
                assert(rest[j] == ids[j]);
            } else {
                assert(j != i);
                assert(rest[j - 1] == ids[j]);
            }
        }
        assert(!ids.contains(suffixed(base, k)));
    } else {
        assert(!ids.contains(suffixed(base, top)));
    }
}

proof fn lemma_node_id_in_ids(nodes: Seq<NodeView>, x: Seq<char>)
    ensures
        has_node_id(nodes, x) <==> nodes.map_values(|n: NodeView| n.id).contains(x),
{
    let ids = nodes.map_values(|n: NodeView| n.id);
    if has_node_id(nodes, x) {
        let i = choose|i: int| 0 <= i < nodes.len() && #[trigger] nodes[i].id == x;
        assert(ids[i] == x);
    }
    if ids.contains(x) {
        let i = choose|i: int| 0 <= i < ids.len() && ids[i] == x;
        assert(nodes[i].id == x);
    }
}

/// The search for a free suffix from `k` on ends at a free one, when all the
/// suffixes from 2 up to `k` are taken.
proof fn lemma_first_free(nodes: Seq<NodeView>, base: Seq<char>, k: nat)
    requires
        2 <= k <= nodes.len() + 2,
        forall|j: nat| 2 <= j < k ==> has_node_id(nodes, #[trigger] suffixed(base, j)),
    ensures
        !has_node_id(nodes, suffixed(base, first_free_suffix(nodes, base, k))),
    decreases nodes.len() + 2 - k,
{
    if has_node_id(nodes, suffixed(base, k)) {
        if k < nodes.len() + 2 {
            lemma_first_free(nodes, base, k + 1);
        } else {
            let ids = nodes.map_values(|n: NodeView| n.id);
            lemma_free_suffix_exists(ids, base);
            let f = choose|f: nat| 2 <= f <= ids.len() + 2 && !ids.contains(#[trigger] suffixed(base, f));
            lemma_node_id_in_ids(nodes, suffixed(base, f));
            assert(has_node_id(nodes, suffixed(base, f)));
        }
    }
}

/// The id given to a new node is not the id of any node yet, and is not
/// empty when the label's id is not.
pub proof fn lemma_new_node_id_fresh(nodes: Seq<NodeView>, id: Seq<char>, provider: Option<Seq<char>>)
    ensures
        !has_node_id(nodes, new_node_id(nodes, id, provider)),
        id.len() > 0 ==> new_node_id(nodes, id, provider).len() > 0,
{
    let wanted = if has_node_id(nodes, id) {
        match provider {
            Some(p) => p + "_"@ + id,
            None => id,
        }
    } else {
        id
    };
    if has_node_id(nodes, wanted) {
        lemma_first_free(nodes, wanted, 2);
    }
}

/// Finding or adding a node keeps the state well formed, and the id it gives
/// is the id of a node.
pub proof fn lemma_ensure_node(st: ParseState, raw: Seq<char>, line: nat)
    requires
        state_inv(st),
    ensures
        ensure_node_spec(st, raw, line) matches Ok((st2, id)) ==> state_inv(st2) && grows(st, st2)
            && has_node_id(st2.nodes, id) && same_settings(st, st2) && st2.edges == st.edges
            && st2.clusters == st.clusters,
        ensure_node_spec(st, raw, line) matches Err(h) ==> h.state == st && halts_well(st, h),
{
    let spec = node_spec_of(raw);
    let id = to_id_of(spec.label);
    if id.len() > 0 {
        let key = node_key(spec);
        lemma_index_from(st.keys, key, 0);
        match index_from(st.keys, key, 0) {
            Some(k) => {
                assert(st.nodes[k].id == st.nodes[k].id);
            },
            None => {
                if let Ok((st2, actual)) = ensure_node_spec(st, raw, line) {
                    let n = st.nodes.len() as int;
                    assert(st2.nodes[n].id == actual);
                    assert(spec_of_node(st2.nodes[n]) == spec);
                    assert(grows(st, st2));
                    lemma_grows_refs(st, st2);
                    assert forall|i: int| 0 <= i < st2.nodes.len() implies #[trigger] st2.keys[i] == node_key(
                        spec_of_node(st2.nodes[i]),
                    ) by {
                        if i < n {
                            assert(st2.keys[i] == st.keys[i]);
                        }
                    }
                    lemma_new_node_id_fresh(st.nodes, id, spec.provider);
                    assert forall|i: int| 0 <= i < st2.nodes.len() implies (#[trigger] st2.nodes[i]).id.len() > 0 by {
                        if i < n {
                            assert(st2.nodes[i] == st.nodes[i]);
                        }
                    }
                    assert forall|a: int, b: int| 0 <= a < b < st2.nodes.len() implies (#[trigger] st2.nodes[a]).id
                        != (#[trigger] st2.nodes[b]).id by {
                        assert(st2.nodes[a] == st.nodes[a]);
                        if b == n {
                            if st.nodes[a].id == actual {
                                assert(has_node_id(st.nodes, actual));
                            }
                        } else {
                            assert(st2.nodes[b] == st.nodes[b]);
                        }
                    }
                    assert forall|a: int, b: int| 0 <= a < b < st2.keys.len() implies st2.keys[a] != st2.keys[b] by {
                        if b == n {
                            assert(st2.keys[a] == st.keys[a]);
                        } else {
                            assert(st2.keys[a] == st.keys[a] && st2.keys[b] == st.keys[b]);
                        }
                    }
                }
            },
        }
    }
}

/// Referring again to a node that has just been found or added, by any
/// reference with the same provider, icon and label, finds it again and
/// changes nothing.
pub proof fn lemma_node_reference_stable(st: ParseState, raw: Seq<char>, line: nat, other: Seq<char>, again: nat)
    requires
        state_inv(st),
        ensure_node_spec(st, raw, line) is Ok,
        node_spec_of(other) == node_spec_of(raw),
    ensures
        ({
            let (st2, id) = ensure_node_spec(st, raw, line)->Ok_0;
            ensure_node_spec(st2, other, again) == Ok::<(ParseState, Seq<char>), Halt>((st2, id))
        }),
{
    let spec = node_spec_of(raw);
    let key = node_key(spec);
    let (st2, id) = ensure_node_spec(st, raw, line)->Ok_0;
    lemma_index_from(st.keys, key, 0);
    match index_from(st.keys, key, 0) {
        Some(k) => {},
        None => {
            let n = st.nodes.len() as int;
            assert(st2.keys[n] == key);
            lemma_index_from_first(st2.keys, key, 0, n);
        },
    }
}

proof fn lemma_add_unique_ids(nodes: Seq<NodeView>, ids: Seq<Seq<char>>, x: Seq<char>)
    requires
        all_node_ids(nodes, ids),
        has_node_id(nodes, x),
    ensures
        all_node_ids(nodes, add_unique(ids, x)),
{
    if !ids.contains(x) {
        assert forall|k: int| 0 <= k < ids.push(x).len() implies has_node_id(nodes, #[trigger] ids.push(x)[k]) by {
            if k < ids.len() {
                assert(ids.push(x)[k] == ids[k]);
            }
        }
    }
}

proof fn lemma_add_all_ids(nodes: Seq<NodeView>, ids: Seq<Seq<char>>, more: Seq<Seq<char>>)
    requires
        all_node_ids(nodes, ids),
        all_node_ids(nodes, more),
    ensures
        all_node_ids(nodes, add_all(ids, more)),
    decreases more.len(),
{
    if more.len() > 0 {
        assert forall|k: int| 0 <= k < more.drop_last().len() implies has_node_id(nodes, #[trigger] more.drop_last()[k]) by {
            assert(more.drop_last()[k] == more[k]);
        }
        lemma_add_all_ids(nodes, ids, more.drop_last());
        assert(has_node_id(nodes, more[more.len() - 1]));
        lemma_add_unique_ids(nodes, add_all(ids, more.drop_last()), more.last());
    }
}

/// Reading the rest of an edge chain keeps the state well formed; the ids
/// it collects are ids of nodes.
pub proof fn lemma_chain_from(
    st: ParseState,
    parts: Seq<Seq<char>>,
    j: int,
    line: nat,
    refs: Seq<Seq<char>>,
)
    requires
        state_inv(st),
        all_node_ids(st.nodes, refs),
    ensures
        chain_from(st, parts, j, line, refs) matches Ok((st2, refs2)) ==> state_inv(st2) && grows(st, st2)
            && all_node_ids(st2.nodes, refs2) && same_settings(st, st2) && st2.clusters == st.clusters,
        chain_from(st, parts, j, line, refs) matches Err(h) ==> halts_well(st, h),
    decreases parts.len() - j,
{
    if 0 <= j && j + 1 < parts.len() {
        lemma_ensure_node(st, trim(parts[j]), line);
        if let Ok((st1, from_id)) = ensure_node_spec(st, trim(parts[j]), line) {
            lemma_grows_ids(st, st1, refs);
            lemma_add_unique_ids(st1.nodes, refs, from_id);
            let refs1 = add_unique(refs, from_id);
            let to_part = trim(parts[j + 1]);
            let (to_raw, label) = if j + 2 == parts.len() {
                bracket_label_of(to_part)
            } else {
                (to_part, None)
            };
            lemma_ensure_node(st1, to_raw, line);
            if let Ok((st2, to_id)) = ensure_node_spec(st1, to_raw, line) {
                lemma_grows_ids(st1, st2, refs1);
                lemma_grows_id(st1, st2, from_id);
                lemma_add_unique_ids(st2.nodes, refs1, to_id);
                let edge = crate::model::EdgeView { from: from_id, to: to_id, label };
                let st3 = ParseState { edges: st2.edges.push(edge), ..st2 };
                assert forall|i: int| 0 <= i < st3.edges.len() implies has_node_id(st3.nodes, (#[trigger] st3.edges[i]).from)
                    && has_node_id(st3.nodes, st3.edges[i].to) by {
                    if i < st2.edges.len() {
                        assert(st3.edges[i] == st2.edges[i]);
                    }
                }
                assert(state_inv(st3));
                lemma_chain_from(st3, parts, j + 1, line, add_unique(refs1, to_id));
            }
        }
    }
}

/// Reading an edge chain keeps the state well formed; the ids it gives are
/// ids of nodes.
pub proof fn lemma_edge_chain(st: ParseState, t: Seq<char>, line: nat)
    requires
        state_inv(st),
    ensures
        edge_chain_spec(st, t, line) matches Ok((st2, ids)) ==> state_inv(st2) && grows(st, st2)
            && all_node_ids(st2.nodes, ids) && same_settings(st, st2) && st2.clusters == st.clusters,
        edge_chain_spec(st, t, line) matches Err(h) ==> halts_well(st, h),
{
    lemma_chain_from(st, split_by(t, ">>"@), 0, line, seq![]);
}


/// What an edge chain from `parts[j]` on adds, in state `st`: one edge per
/// hop, each hop starting where the one before ended, a label on the last hop
/// only, and the first hop leaving from the node of `parts[j]`.
pub open spec fn chain_shape(st: ParseState, parts: Seq<Seq<char>>, j: int, line: nat, st2: ParseState) -> bool {
    let n = st.edges.len();
    &&& st2.edges.len() == n + parts.len() - 1 - j
    &&& st2.edges.take(n as int) == st.edges
    &&& forall|k: int|
        n <= k < st2.edges.len() - 1 ==> (#[trigger] st2.edges[k]).to == st2.edges[k + 1].from
            && st2.edges[k].label is None
    &&& st2.edges[st2.edges.len() - 1].label == bracket_label_of(trim(parts[parts.len() - 1])).1
    &&& st2.edges[n as int].from == ensure_node_spec(st, trim(parts[j]), line)->Ok_0.1
}

/// The edges of a chain `A >> B >> C [label]`: one per hop, each hop starting
/// where the one before ended, the label on the last hop only.
pub proof fn lemma_chain_from_shape(st: ParseState, parts: Seq<Seq<char>>, j: int, line: nat, refs: Seq<Seq<char>>)
    requires
        state_inv(st),
        0 <= j,
        j + 1 < parts.len(),
    ensures
        chain_from(st, parts, j, line, refs) matches Ok((st2, _r)) ==> chain_shape(st, parts, j, line, st2),
    decreases parts.len() - j,
{
    lemma_ensure_node(st, trim(parts[j]), line);
    if let Ok((st1, from_id)) = ensure_node_spec(st, trim(parts[j]), line) {
        let refs1 = add_unique(refs, from_id);
        let to_part = trim(parts[j + 1]);
        let (to_raw, label) = if j + 2 == parts.len() {
            bracket_label_of(to_part)
        } else {
            (to_part, None)
        };
        lemma_ensure_node(st1, to_raw, line);
        if let Ok((st2, to_id)) = ensure_node_spec(st1, to_raw, line) {
            let edge = crate::model::EdgeView { from: from_id, to: to_id, label };
            let st3 = ParseState { edges: st2.edges.push(edge), ..st2 };
            lemma_push_edge(st2, edge);
            let refs3 = add_unique(refs1, to_id);
            if j + 2 == parts.len() {
                let n = st.edges.len();
                assert(st3.edges.take(n as int) =~= st.edges);
                assert(chain_from(st3, parts, j + 1, line, refs3) == Ok::<(ParseState, Seq<Seq<char>>), Halt>((st3, refs3)));
                assert(st3.edges.len() == n + parts.len() - 1 - j);
                assert(st3.edges[st3.edges.len() - 1].label == bracket_label_of(trim(parts[parts.len() - 1])).1);
                assert(st3.edges[n as int].from == ensure_node_spec(st, trim(parts[j]), line)->Ok_0.1);
                assert(chain_shape(st, parts, j, line, st3));
            } else {
                lemma_chain_from_shape(st3, parts, j + 1, line, refs3);
                lemma_node_reference_stable(st1, to_raw, line, to_raw, line);
                assert(ensure_node_spec(st3, to_raw, line)->Ok_0.1 == to_id);
                if let Ok((st4, _r)) = chain_from(st3, parts, j + 1, line, refs3) {
                    let n = st.edges.len();
                    assert(st4.edges.take(n as int) =~= st4.edges.take((n + 1) as int).take(n as int));
                    assert(st4.edges[n as int] == st3.edges[n as int]);
                    assert forall|k: int|
                        n <= k < st4.edges.len() - 1 implies (#[trigger] st4.edges[k]).to == st4.edges[k + 1].from
                            && st4.edges[k].label is None by {
                        if k == n {
                            assert(st4.edges[k] == edge);
                        }
                    }
                    assert(st3.edges.take(n as int) =~= st.edges);
                    assert(st4.edges.len() == n + parts.len() - 1 - j);
                    assert(st4.edges.take(n as int) == st.edges);
                    assert(st4.edges[n as int].from == ensure_node_spec(st, trim(parts[j]), line)->Ok_0.1);
                    assert(chain_shape(st, parts, j, line, st4));
                }
            }
        }
    }
}

/// Adding an edge between two nodes keeps the state well formed.
proof fn lemma_push_edge(st: ParseState, edge: crate::model::EdgeView)
    requires
        state_inv(st),
        has_node_id(st.nodes, edge.from),
        has_node_id(st.nodes, edge.to),
    ensures
        state_inv(ParseState { edges: st.edges.push(edge), ..st }),
{
    let st3 = ParseState { edges: st.edges.push(edge), ..st };
    assert forall|i: int| 0 <= i < st3.edges.len() implies has_node_id(st3.nodes, (#[trigger] st3.edges[i]).from)
        && has_node_id(st3.nodes, st3.edges[i].to) by {
        if i < st.edges.len() {
            assert(st3.edges[i] == st.edges[i]);
        }
    }
}

/// The edges of an edge chain line: one per hop, each hop starting where the
/// one before ended, the label on the last hop only.
pub proof fn lemma_edge_chain_shape(st: ParseState, t: Seq<char>, line: nat)
    requires
        state_inv(st),
    ensures
        edge_chain_spec(st, t, line) matches Ok((st2, _ids)) ==> chain_shape(st, split_by(t, ">>"@), 0, line, st2),
{
    let parts = split_by(t, ">>"@);
    if parts.len() >= 2 {
        assert(all_node_ids(st.nodes, seq![]));
        lemma_chain_from_shape(st, parts, 0, line, seq![]);
    }
}

proof fn lemma_source_index(entries: Seq<(Seq<char>, Option<Seq<char>>)>, key: Seq<char>, k: int)
    requires
        0 <= k,
    ensures
        source_index_from(entries, key, k) matches Some(i) ==> k <= i < entries.len() && entries[i].0 == key
            && forall|j: int| k <= j < i ==> entries[j].0 != key,
        source_index_from(entries, key, k) is None ==> forall|j: int| k <= j < entries.len() ==> entries[j].0 != key,
    decreases entries.len() - k,
{
    if k < entries.len() && entries[k].0 != key {
        lemma_source_index(entries, key, k + 1);
    }
}

/// Recording a valid provider keeps the provider list valid and without repeats.
proof fn lemma_source_insert_ok(entries: Seq<(Seq<char>, Option<Seq<char>>)>, key: Seq<char>, value: Option<Seq<char>>)
    requires
        sources_ok(entries),
        is_provider_name(key),
    ensures
        sources_ok(source_insert(entries, key, value)),
{
    lemma_source_index(entries, key, 0);
    let out = source_insert(entries, key, value);
    match source_index_from(entries, key, 0) {
        Some(i) => {
            assert forall|a: int| 0 <= a < out.len() implies #[trigger] out[a].0 == entries[a].0 by {}
        },
        None => {
            assert forall|a: int| 0 <= a < entries.len() implies #[trigger] out[a] == entries[a] by {}
        },
    }
}

/// The source recorded for a provider is the one given last, and the other
/// providers keep theirs.
pub proof fn lemma_source_insert_lookup(
    entries: Seq<(Seq<char>, Option<Seq<char>>)>,
    key: Seq<char>,
    value: Option<Seq<char>>,
    other: Seq<char>,
)
    requires
        sources_ok(entries),
    ensures
        crate::model::source_lookup(source_insert(entries, key, value), key) == Some(value),
        other != key ==> crate::model::source_lookup(source_insert(entries, key, value), other)
            == crate::model::source_lookup(entries, other),
        source_insert(entries, key, value).len() == entries.len() + (if crate::model::source_lookup(
            entries,
            key,
        ) is Some {
            0int
        } else {
            1int
        }),
{
    let out = source_insert(entries, key, value);
    lemma_source_index(entries, key, 0);
    lemma_source_index(entries, other, 0);
    lemma_source_index(out, key, 0);
    lemma_source_index(out, other, 0);
    match source_index_from(entries, key, 0) {
        Some(i) => {
            assert(out[i].0 == key);
            match source_index_from(out, key, 0) {
                Some(j) => {
                    assert(j == i) by {
                        if j < i {
                            assert(out[j] == entries[j]);
                        }
                    }
                },
                None => {},
            }
            if other != key {
                match source_index_from(entries, other, 0) {
                    Some(m) => {
                        match source_index_from(out, other, 0) {
                            Some(q) => {
                                assert(q == m) by {
                                    if q < m {
                                        assert(out[q] == entries[q]);
                                    } else if q > m {
                                        assert(out[m] == entries[m]);
                                    }
                                }
                            },
                            None => {
                                assert(out[m] == entries[m]);
                            },
                        }
                    },
                    None => {
                        match source_index_from(out, other, 0) {
                            Some(q) => {
                                assert(out[q] == entries[q]);
                            },
                            None => {},
                        }
                    },
                }
            }
        },
        None => {
            let n = entries.len() as int;
            assert(out[n].0 == key);
            match source_index_from(out, key, 0) {
                Some(j) => {
                    assert(j == n) by {
                        if j < n {
                            assert(out[j] == entries[j]);
                        }
                    }
                },
                None => {},
            }
            if other != key {
                match source_index_from(entries, other, 0) {
                    Some(m) => {
                        match source_index_from(out, other, 0) {
                            Some(q) => {
                                assert(q == m) by {
                                    if q < m {
                                        assert(out[q] == entries[q]);
                                    } else if q > m {
                                        assert(out[m] == entries[m]);
                                    }
                                }
                            },
                            None => {
                                assert(out[m] == entries[m]);
                            },
                        }
                    },
                    None => {
                        match source_index_from(out, other, 0) {
                            Some(q) => {
                                if q < n {
                                    assert(out[q] == entries[q]);
                                }
                            },
                            None => {},
                        }
                    },
                }
            }
        },
    }
}

/// A `use` line keeps the state well formed.
pub proof fn lemma_use(st: ParseState, t: Seq<char>, line: nat)
    requires
        state_inv(st),
    ensures
        use_spec(st, t, line) matches Ok(st2) ==> state_inv(st2) && st2.nodes == st.nodes && st2.keys
            == st.keys,
        use_spec(st, t, line) matches Err(h) ==> h.state == st && halts_well(st, h),
{
    let rest = if t.len() > 4 {
        trim(t.skip(4))
    } else {
        seq![]
    };
    let from_kw = " from "@;
    match crate::text::find(rest, from_kw) {
        Some(i) => {
            let p = trim(rest.take(i));
            let s = trim(rest.skip(i + from_kw.len()));
            if s.len() > 0 && is_provider_name(p) {
                lemma_source_insert_ok(st.sources, p, Some(s));
            }
        },
        None => {
            if is_provider_name(rest) {
                lemma_source_insert_ok(st.sources, rest, None);
            }
        },
    }
}

/// A layout setting keeps the state well formed.
pub proof fn lemma_layout_setting(st: ParseState, name: Seq<char>, v: Seq<char>, line: nat)
    requires
        state_inv(st),
    ensures
        layout_setting_spec(st, name, v, line) matches Ok(st2) ==> state_inv(st2) && st2.nodes == st.nodes
            && st2.keys == st.keys,
{
}


/// Reading the lines of a cluster block keeps the state well formed; the
/// children it collects are ids of nodes.
pub proof fn lemma_cluster_body(st: ParseState, lines: Seq<Seq<char>>, pos: int, children: Seq<Seq<char>>)
    requires
        state_inv(st),
        all_node_ids(st.nodes, children),
        distinct_ids(children),
    ensures
        cluster_body_spec(st, lines, pos, children) matches Ok((st2, _next, ch, _closed)) ==> state_inv(st2)
            && grows(st, st2) && all_node_ids(st2.nodes, ch) && distinct_ids(ch) && same_settings(st, st2),
        cluster_body_spec(st, lines, pos, children) matches Err(h) ==> halts_well(st, h),
    decreases lines.len() - pos, 1int,
{
    if 0 <= pos < lines.len() {
        let inner = trim(lines[pos]);
        let line = (pos + 1) as nat;
        if inner == "}"@ {
        } else if crate::dsl::is_blank_or_comment(inner) {
            lemma_cluster_body(st, lines, pos + 1, children);
        } else if is_cluster_header(inner) {
            lemma_cluster(st, lines, pos, inner);
            if let Ok((st2, next)) = cluster_spec(st, lines, pos, inner) {
                if pos < next <= lines.len() {
                    let c = st2.clusters.len() - 1;
                    assert(all_node_ids(st2.nodes, st2.clusters[c].children));
                    lemma_grows_ids(st, st2, children);
                    lemma_add_all_ids(st2.nodes, children, st2.clusters.last().children);
                    lemma_add_all_distinct(children, st2.clusters.last().children);
                    lemma_cluster_body(st2, lines, next, add_all(children, st2.clusters.last().children));
                } else {
                    lemma_grows_ids(st, st2, children);
                }
            }
        } else if crate::text::contains(inner, ">>"@) {
            lemma_edge_chain(st, inner, line);
            if let Ok((st2, ids)) = edge_chain_spec(st, inner, line) {
                lemma_grows_ids(st, st2, children);
                lemma_add_all_ids(st2.nodes, children, ids);
                lemma_add_all_distinct(children, ids);
                lemma_cluster_body(st2, lines, pos + 1, add_all(children, ids));
            }
        } else {
            lemma_ensure_node(st, inner, line);
            if let Ok((st2, id)) = ensure_node_spec(st, inner, line) {
                lemma_grows_ids(st, st2, children);
                lemma_add_unique_ids(st2.nodes, children, id);
                lemma_add_unique_distinct(children, id);
                lemma_cluster_body(st2, lines, pos + 1, add_unique(children, id));
            }
        }
    }
}

/// A cluster block keeps the state well formed and adds a cluster.
pub proof fn lemma_cluster(st: ParseState, lines: Seq<Seq<char>>, pos: int, t: Seq<char>)
    requires
        state_inv(st),
        0 <= pos < lines.len(),
    ensures
        cluster_spec(st, lines, pos, t) matches Ok((st2, _next)) ==> state_inv(st2) && grows(st, st2)
            && same_settings(st, st2) && st2.clusters.len() > 0,
        cluster_spec(st, lines, pos, t) matches Err(h) ==> halts_well(st, h),
    decreases lines.len() - pos, 0int,
{
    let line = (pos + 1) as nat;
    let wb = trim(t.drop_last());
    if let Ok((provider, cluster_type, label)) = cluster_header_spec(wb, line) {
        if label.len() > 0 {
            assert(all_node_ids(st.nodes, seq![]));
            assert(distinct_ids(seq![]));
            lemma_cluster_body(st, lines, pos + 1, seq![]);
            if let Ok((st2, next, children, closed)) = cluster_body_spec(st, lines, pos + 1, seq![]) {
                if closed {
                    let cluster = crate::model::ClusterView {
                        id: to_id_of(label),
                        label,
                        children,
                        provider,
                        cluster_type,
                        icon_svg: None,
                    };
                    let st3 = ParseState { clusters: st2.clusters.push(cluster), ..st2 };
                    assert forall|c: int| 0 <= c < st3.clusters.len() implies all_node_ids(
                        st3.nodes,
                        (#[trigger] st3.clusters[c]).children,
                    ) by {
                        if c < st2.clusters.len() {
                            assert(st3.clusters[c] == st2.clusters[c]);
                        }
                    }
                    assert forall|c: int| 0 <= c < st3.clusters.len() implies distinct_ids(
                        (#[trigger] st3.clusters[c]).children,
                    ) by {
                        if c < st2.clusters.len() {
                            assert(st3.clusters[c] == st2.clusters[c]);
                        }
                    }
                }
            }
        }
    }
}

/// Reading a line keeps the state well formed; a line that cannot be read
/// leaves the settings as they were and keeps every node.
pub proof fn lemma_line(st: ParseState, lines: Seq<Seq<char>>, pos: int)
    requires
        state_inv(st),
        0 <= pos < lines.len(),
    ensures
        line_spec(st, lines, pos) matches Ok((st2, _next)) ==> state_inv(st2),
        line_spec(st, lines, pos) matches Err(h) ==> halts_well(st, h),
{
    let line = (pos + 1) as nat;
    let t = trim(lines[pos]);
    lemma_use(st, t, line);
    lemma_cluster(st, lines, pos, t);
    lemma_edge_chain(st, t, line);
    lemma_ensure_node(st, t, line);
    if let Some(rest) = crate::text::strip_prefix_ignore_case(t, "icon_size:"@) {
        lemma_layout_setting(st, "icon_size"@, trim(rest), line);
    }
    if let Some(rest) = crate::text::strip_prefix_ignore_case(t, "node_width:"@) {
        lemma_layout_setting(st, "node_width"@, trim(rest), line);
    }
    if let Some(rest) = crate::text::strip_prefix_ignore_case(t, "spacing:"@) {
        lemma_layout_setting(st, "spacing"@, trim(rest), line);
    }
}

/// Reading the remaining lines keeps the state well formed, up to the end or
/// up to the line where reading stops.
pub proof fn lemma_lines(st: ParseState, lines: Seq<Seq<char>>, pos: int)
    requires
        state_inv(st),
    ensures
        lines_spec(st, lines, pos) matches Ok(st2) ==> state_inv(st2),
        lines_spec(st, lines, pos) matches Err(h) ==> state_inv(h.state),
    decreases lines.len() - pos,
{
    if 0 <= pos < lines.len() {
        lemma_line(st, lines, pos);
        lemma_line_advances(st, lines, pos);
        if let Ok((st2, next)) = line_spec(st, lines, pos) {
            lemma_lines(st2, lines, next);
        }
    }
}


/// What every diagram read from the DSL satisfies.
pub open spec fn diagram_well_formed(d: DiagramView) -> bool {
    &&& d.version == "1.0.0"@
    &&& d.nodes.len() > 0
    &&& forall|i: int| 0 <= i < d.nodes.len() ==> (#[trigger] d.nodes[i]).id.len() > 0
    &&& distinct_node_ids(d.nodes)
    &&& forall|a: int, b: int|
        0 <= a < b < d.nodes.len() ==> spec_of_node(#[trigger] d.nodes[a]) != spec_of_node(#[trigger] d.nodes[b])
    &&& forall|i: int|
        0 <= i < d.edges.len() ==> has_node_id(d.nodes, (#[trigger] d.edges[i]).from) && has_node_id(
            d.nodes,
            d.edges[i].to,
        )
    &&& forall|c: int| 0 <= c < d.clusters.len() ==> all_node_ids(d.nodes, (#[trigger] d.clusters[c]).children)
    &&& forall|c: int| 0 <= c < d.clusters.len() ==> distinct_ids((#[trigger] d.clusters[c]).children)
    &&& sources_ok(d.metadata.provider_sources)
    &&& d.metadata.direction == "TB"@ || d.metadata.direction == "LR"@
    &&& layout_values_ok(d.metadata.layout)
}

/// Every diagram read from the DSL is well formed: it has version `1.0.0`
/// and at least one node; every node has a non-empty id of its own; no two
/// nodes share provider, icon and label; every edge and every cluster child
/// refers to a node, and no cluster lists a child twice; each provider is a
/// valid name named once; the direction is `TB` or `LR`; and every layout
/// value reads as a number.
pub proof fn lemma_parsed_diagram_well_formed(input: Seq<char>)
    ensures
        parse_dsl_spec(input) matches Ok(d) ==> diagram_well_formed(d),
{
    let lines = lines_of(input);
    let st0 = initial_state();
    assert(state_inv(st0));
    lemma_lines(st0, lines, 0);
    if let Ok(st) = lines_spec(st0, lines, 0) {
        if st.nodes.len() > 0 {
            assert forall|a: int, b: int| 0 <= a < b < st.nodes.len() implies spec_of_node(
                #[trigger] st.nodes[a],
            ) != spec_of_node(#[trigger] st.nodes[b]) by {
                assert(st.keys[a] == node_key(spec_of_node(st.nodes[a])));
                assert(st.keys[b] == node_key(spec_of_node(st.nodes[b])));
            }
        }
    }
}

/// No two nodes share an id.
pub open spec fn distinct_node_ids(nodes: Seq<NodeView>) -> bool {
    forall|a: int, b: int| 0 <= a < b < nodes.len() ==> (#[trigger] nodes[a]).id != (#[trigger] nodes[b]).id
}

proof fn lemma_repeated_id(nodes: Seq<NodeView>, k: int)
    requires
        0 <= k,
        forall|a: int, b: int| 0 <= a < b < k && b < nodes.len() ==> (#[trigger] nodes[a]).id != (
        #[trigger] nodes[b]).id,
    ensures
        crate::validate::repeated_id_from(nodes, k) is None <==> distinct_node_ids(nodes),
    decreases nodes.len() - k,
{
    if k < nodes.len() {
        if exists|j: int| 0 <= j < k && #[trigger] nodes[j].id == nodes[k].id {
            let j = choose|j: int| 0 <= j < k && #[trigger] nodes[j].id == nodes[k].id;
            assert(!distinct_node_ids(nodes)) by {
                assert(nodes[j].id == nodes[k].id);
            }
        } else {
            lemma_repeated_id(nodes, k + 1);
        }
    }
}

/// Every diagram read from the DSL passes the schema checks.
pub proof fn lemma_parsed_diagram_valid(input: Seq<char>)
    ensures
        parse_dsl_spec(input) matches Ok(d) ==> crate::validate::validate_spec(d) is Ok,
{
    lemma_parsed_diagram_well_formed(input);
    if let Ok(d) = parse_dsl_spec(input) {
        lemma_repeated_id(d.nodes, 0);
    }
}


/// The shape of an id: ASCII letters and digits in runs joined by single
/// underscores, with no underscore at either end.
pub open spec fn is_id_shape(s: Seq<char>) -> bool {
    &&& forall|i: int| 0 <= i < s.len() ==> is_ascii_alnum(#[trigger] s[i]) || s[i] == '_'
    &&& s.len() > 0 ==> s[0] != '_' && s[s.len() - 1] != '_'
    &&& forall|i: int| 0 <= i < s.len() - 1 && #[trigger] s[i] == '_' ==> s[i + 1] != '_'
}

/// A run of an id: non-empty, ASCII letters and digits only.
pub open spec fn is_id_run(p: Seq<char>) -> bool {
    p.len() > 0 && forall|i: int| 0 <= i < p.len() ==> is_ascii_alnum(#[trigger] p[i])
}

proof fn lemma_split_parts(s: Seq<char>)
    requires
        forall|i: int| 0 <= i < s.len() ==> is_ascii_alnum(#[trigger] s[i]) || s[i] == '_',
    ensures
        forall|k: int, i: int|
            0 <= k < split_by(s, seq!['_']).len() && 0 <= i < split_by(s, seq!['_'])[k].len()
                ==> is_ascii_alnum(#[trigger] split_by(s, seq!['_'])[k][i]),
    decreases s.len(),
{
    let sep = seq!['_'];
    crate::text::lemma_find_from(s, sep, 0);
    match crate::text::find(s, sep) {
        Some(i) => {
            let rest = s.skip(i + 1);
            assert forall|j: int| 0 <= j < rest.len() implies is_ascii_alnum(#[trigger] rest[j]) || rest[j] == '_' by {
                assert(rest[j] == s[i + 1 + j]);
            }
            lemma_split_parts(rest);
            let parts = split_by(s, sep);
            assert(parts == seq![s.take(i)] + split_by(rest, sep));
            assert forall|k: int, m: int| 0 <= k < parts.len() && 0 <= m < parts[k].len() implies is_ascii_alnum(
                #[trigger] parts[k][m],
            ) by {
                if k == 0 {
                    assert(parts[0] == s.take(i));
                    assert(s.take(i)[m] == s[m]);
                    if s[m] == '_' {
                        assert(s.subrange(m, m + 1) =~= sep);
                        assert(crate::text::occurs_at(s, sep, m));
                    }
                } else {
                    assert(parts[k] == split_by(rest, sep)[k - 1]);
                }
            }
        },
        None => {
            assert forall|m: int| 0 <= m < s.len() implies is_ascii_alnum(#[trigger] s[m]) by {
                if s[m] == '_' {
                    assert(s.subrange(m, m + 1) =~= sep);
                    assert(crate::text::occurs_at(s, sep, m));
                }
            }
            assert(split_by(s, sep) == seq![s]);
        },
    }
}

proof fn lemma_join_runs(parts: Seq<Seq<char>>)
    requires
        forall|k: int| 0 <= k < parts.len() ==> is_id_run(#[trigger] parts[k]),
    ensures
        is_id_shape(join(parts, seq!['_'])),
        parts.len() > 0 ==> join(parts, seq!['_']).len() > 0,
    decreases parts.len(),
{
    if parts.len() == 1 {
        assert(is_id_run(parts[0]));
    } else if parts.len() > 1 {
        let d = parts.drop_last();
        assert forall|k: int| 0 <= k < d.len() implies is_id_run(#[trigger] d[k]) by {
            assert(d[k] == parts[k]);
        }
        lemma_join_runs(d);
        let a = join(d, seq!['_']);
        let last = parts.last();
        assert(is_id_run(parts[parts.len() - 1]));
        let j = join(parts, seq!['_']);
        assert(j == a + seq!['_'] + last);
        assert forall|i: int| 0 <= i < j.len() implies is_ascii_alnum(#[trigger] j[i]) || j[i] == '_' by {
            if i < a.len() {
                assert(j[i] == a[i]);
            } else if i > a.len() {
                assert(j[i] == last[i - a.len() - 1]);
            }
        }
        assert(j[0] == a[0]);
        assert(j[j.len() - 1] == last[last.len() - 1]);
        assert(!is_ascii_alnum('_'));
        assert forall|i: int| 0 <= i < j.len() - 1 && #[trigger] j[i] == '_' implies j[i + 1] != '_' by {
            if i < a.len() - 1 {
                assert(j[i] == a[i] && j[i + 1] == a[i + 1]);
            } else if i == a.len() - 1 {
                assert(j[i] == a[a.len() - 1]);
            } else if i == a.len() {
                assert(j[i + 1] == last[0]);
            } else {
                assert(j[i] == last[i - a.len() - 1]);
                assert(is_ascii_alnum(last[i - a.len() - 1]));
            }
        }
    }
}

/// Every id made from a label has the shape of an id: ASCII letters and
/// digits in runs joined by single underscores (`"Web  Server!"` gives
/// `"web_server"`).
pub proof fn lemma_to_id_shape(label: Seq<char>)
    ensures
        is_id_shape(to_id_of(label)),
{
    lemma_id_of_lowered_shape(crate::text::lowercase_of(trim(label)));
}

/// Every id made from lower-cased text has the shape of an id.
pub proof fn lemma_id_of_lowered_shape(lowered: Seq<char>)
    ensures
        is_id_shape(crate::dsl::id_of_lowered(lowered)),
{
    let mapped = lowered.map_values(|c: char| crate::dsl::id_char(c));
    assert forall|i: int| 0 <= i < mapped.len() implies is_ascii_alnum(#[trigger] mapped[i]) || mapped[i] == '_' by {}
    lemma_split_parts(mapped);
    let parts = split_by(mapped, seq!['_']);
    let runs = crate::text::nonempty_parts(parts);
    crate::text::lemma_nonempty_parts(parts);
    assert forall|k: int| 0 <= k < runs.len() implies is_id_run(#[trigger] runs[k]) by {
        assert(parts.contains(runs[k]));
        let m = choose|m: int| 0 <= m < parts.len() && parts[m] == runs[k];
        assert forall|i: int| 0 <= i < runs[k].len() implies is_ascii_alnum(#[trigger] runs[k][i]) by {
            assert(runs[k][i] == parts[m][i]);
        }
    }
    lemma_join_runs(runs);
}

proof fn lemma_join_front(a: Seq<char>, rest: Seq<Seq<char>>, sep: Seq<char>)
    requires
        rest.len() > 0,
    ensures
        join(seq![a] + rest, sep) == a + sep + join(rest, sep),
    decreases rest.len(),
{
    let whole = seq![a] + rest;
    assert(whole.len() == rest.len() + 1);
    if rest.len() == 1 {
        assert(whole.drop_last() =~= seq![a]);
        assert(whole.last() == rest[0]);
        assert(join(seq![a], sep) == a);
        assert(join(rest, sep) == rest[0]);
        assert(join(whole, sep) == join(whole.drop_last(), sep) + sep + whole.last());
    } else {
        lemma_join_front(a, rest.drop_last(), sep);
        assert(whole.drop_last() =~= seq![a] + rest.drop_last());
        assert(whole.last() == rest.last());
        assert(join(whole, sep) == join(whole.drop_last(), sep) + sep + whole.last());
        assert(join(rest, sep) == join(rest.drop_last(), sep) + sep + rest.last());
        assert(join(whole, sep) =~= a + sep + join(rest, sep));
    }
}

proof fn lemma_id_shape_split(s: Seq<char>)
    requires
        is_id_shape(s),
        s.len() > 0,
    ensures
        forall|k: int| 0 <= k < split_by(s, seq!['_']).len() ==> (#[trigger] split_by(s, seq!['_'])[k]).len() > 0,
        join(split_by(s, seq!['_']), seq!['_']) == s,
    decreases s.len(),
{
    let sep = seq!['_'];
    crate::text::lemma_find_from(s, sep, 0);
    match crate::text::find(s, sep) {
        Some(i) => {
            assert(s.subrange(i, i + 1) == sep);
            assert(s.subrange(i, i + 1)[0] == s[i]);
            assert(s[i] == '_');
            assert(i > 0);
            assert(i < s.len() - 1);
            let rest = s.skip(i + 1);
            assert forall|j: int| 0 <= j < rest.len() implies is_ascii_alnum(#[trigger] rest[j]) || rest[j] == '_' by {
                assert(rest[j] == s[i + 1 + j]);
            }
            assert(rest[0] == s[i + 1]);
            assert(rest[rest.len() - 1] == s[s.len() - 1]);
            assert forall|j: int| 0 <= j < rest.len() - 1 && #[trigger] rest[j] == '_' implies rest[j + 1] != '_' by {
                assert(rest[j] == s[i + 1 + j]);
                assert(rest[j + 1] == s[i + 2 + j]);
            }
            lemma_id_shape_split(rest);
            let tail = split_by(rest, sep);
            let parts = split_by(s, sep);
            assert(parts == seq![s.take(i)] + tail);
            lemma_split_nonempty(rest);
            lemma_join_front(s.take(i), tail, sep);
            assert(s.take(i) + sep + rest =~= s);
            assert forall|k: int| 0 <= k < parts.len() implies (#[trigger] parts[k]).len() > 0 by {
                if k > 0 {
                    assert(parts[k] == tail[k - 1]);
                }
            }
        },
        None => {
            assert(split_by(s, sep) == seq![s]);
        },
    }
}

proof fn lemma_split_nonempty(s: Seq<char>)
    ensures
        split_by(s, seq!['_']).len() > 0,
{
    let sep = seq!['_'];
    crate::text::lemma_find_from(s, sep, 0);
}

proof fn lemma_nonempty_parts_keep(parts: Seq<Seq<char>>)
    requires
        forall|k: int| 0 <= k < parts.len() ==> (#[trigger] parts[k]).len() > 0,
    ensures
        crate::text::nonempty_parts(parts) == parts,
    decreases parts.len(),
{
    reveal(Seq::filter);
    if parts.len() > 0 {
        let d = parts.drop_last();
        assert forall|k: int| 0 <= k < d.len() implies (#[trigger] d[k]).len() > 0 by {
            assert(d[k] == parts[k]);
        }
        lemma_nonempty_parts_keep(d);
        assert(parts.last().len() > 0);
        assert(d.push(parts.last()) =~= parts);
    }
}

/// Making an id of an id gives it back: an id is a fixed point of the id
/// step that follows lower-casing.
pub proof fn lemma_id_of_lowered_idempotent(lowered: Seq<char>)
    ensures
        crate::dsl::id_of_lowered(crate::dsl::id_of_lowered(lowered)) == crate::dsl::id_of_lowered(lowered),
{
    let r = crate::dsl::id_of_lowered(lowered);
    lemma_id_of_lowered_shape(lowered);
    let mapped = r.map_values(|c: char| crate::dsl::id_char(c));
    assert(mapped =~= r);
    let sep = seq!['_'];
    if r.len() == 0 {
        crate::text::lemma_find_from(r, sep, 0);
        assert(split_by(r, sep) == seq![r]);
        reveal(Seq::filter);
        assert(seq![r].drop_last() =~= Seq::<Seq<char>>::empty());
        assert(crate::text::nonempty_parts(Seq::<Seq<char>>::empty()) =~= Seq::<Seq<char>>::empty());
        assert(crate::text::nonempty_parts(seq![r]) =~= Seq::<Seq<char>>::empty());
    } else {
        lemma_id_shape_split(r);
        lemma_nonempty_parts_keep(split_by(r, sep));
    }
}

/// The pieces of a node reference: a provider comes with an icon and the
/// reverse; a provider is a valid provider name that the reference starts
/// with, followed by `:`, and its label is not empty; the icon is the
/// lower-cased text after the `:`, up to the first space or all of it; and
/// without a provider the label is the whole reference (before any `[`).
pub proof fn lemma_node_spec_shape(raw: Seq<char>)
    ensures
        ({
            let t = crate::dsl::before_bracket(trim(raw));
            let sp = node_spec_of(raw);
            &&& (sp.provider is Some) == (sp.icon is Some)
            &&& sp.provider is None ==> sp.label == t
            &&& sp.provider matches Some(p) ==> {
                let a = t.skip(p.len() + 1 as int);
                &&& is_provider_name(p)
                &&& crate::text::starts_with(t, p + ":"@)
                &&& sp.label.len() > 0
                &&& (sp.icon == Some(crate::text::lowercase_of(a)) || (crate::text::find(a, seq![' ']) matches Some(
                    k,
                ) && sp.icon == Some(crate::text::lowercase_of(a.take(k)))))
            }
        }),
{
    reveal_strlit(":");
    let t = crate::dsl::before_bracket(trim(raw));
    crate::text::lemma_find_from(t, seq![':'], 0);
    if let Some(c) = crate::text::find(t, seq![':']) {
        let prefix = t.take(c);
        if is_provider_name(prefix) {
            assert(t.subrange(c, c + 1)[0] == t[c]);
            assert(t.take(prefix.len() + 1 as int) =~= prefix + ":"@);
            assert(t.skip(prefix.len() + 1 as int) =~= t.skip(c + 1));
        }
    }
}

/// No `|` in `s`.
pub open spec fn no_bar(s: Seq<char>) -> bool {
    forall|i: int| 0 <= i < s.len() ==> s[i] != '|'
}

/// The pieces of a reference as `parse_node_spec` gives them: a provider is
/// a valid provider name, comes with an icon and the reverse, and the icon
/// holds no `|`.
pub open spec fn reference_shape(sp: NodeSpecView) -> bool {
    &&& (sp.provider is Some) == (sp.icon is Some)
    &&& sp.provider matches Some(p) ==> is_provider_name(p)
    &&& sp.icon matches Some(i) ==> no_bar(i)
}

proof fn lemma_split_at_bar(x1: Seq<char>, r1: Seq<char>, x2: Seq<char>, r2: Seq<char>)
    requires
        no_bar(x1),
        no_bar(x2),
        x1 + "|"@ + r1 == x2 + "|"@ + r2,
    ensures
        x1 == x2,
        r1 == r2,
{
    reveal_strlit("|");
    let w1 = x1 + "|"@ + r1;
    let w2 = x2 + "|"@ + r2;
    if x1.len() < x2.len() {
        assert(w1[x1.len() as int] == '|');
        assert(w2[x1.len() as int] == x2[x1.len() as int]);
    } else if x2.len() < x1.len() {
        assert(w2[x2.len() as int] == '|');
        assert(w1[x2.len() as int] == x1[x2.len() as int]);
    } else {
        assert(x1 =~= w1.take(x1.len() as int));
        assert(x2 =~= w2.take(x2.len() as int));
        assert(r1 =~= w1.skip(x1.len() + 1 as int));
        assert(r2 =~= w2.skip(x2.len() + 1 as int));
    }
}

/// The identity key of a node tells its provider, icon and label apart: two
/// references with the same key have the same provider, the same icon and
/// the same label.
pub proof fn lemma_node_key_injective(a: NodeSpecView, b: NodeSpecView)
    requires
        reference_shape(a),
        reference_shape(b),
        node_key(a) == node_key(b),
    ensures
        a == b,
{
    let pa = crate::dsl::or_empty(a.provider);
    let pb = crate::dsl::or_empty(b.provider);
    let ia = crate::dsl::or_empty(a.icon);
    let ib = crate::dsl::or_empty(b.icon);
    assert(no_bar(pa)) by {
        if let Some(p) = a.provider {
            assert forall|i: int| 0 <= i < p.len() implies p[i] != '|' by {
                assert(crate::text::is_provider_char(p[i]));
            }
        }
    }
    assert(no_bar(pb)) by {
        if let Some(p) = b.provider {
            assert forall|i: int| 0 <= i < p.len() implies p[i] != '|' by {
                assert(crate::text::is_provider_char(p[i]));
            }
        }
    }
    assert(node_key(a) =~= pa + "|"@ + (ia + "|"@ + a.label));
    assert(node_key(b) =~= pb + "|"@ + (ib + "|"@ + b.label));
    lemma_split_at_bar(pa, ia + "|"@ + a.label, pb, ib + "|"@ + b.label);
    lemma_split_at_bar(ia, a.label, ib, b.label);
    assert(a.provider == b.provider);
    assert(a.icon == b.icon);
}

/// Two references that differ in provider, icon or label never resolve to
/// the same node: once the first is found or added, the second gives another
/// id (`P:I A` and `P:I B` are two nodes).
pub proof fn lemma_distinct_references(st: ParseState, raw1: Seq<char>, line1: nat, raw2: Seq<char>, line2: nat)
    requires
        state_inv(st),
        ensure_node_spec(st, raw1, line1) is Ok,
        node_spec_of(raw1) != node_spec_of(raw2),
        node_spec_of(raw1).icon matches Some(i) ==> no_bar(i),
        node_spec_of(raw2).icon matches Some(i) ==> no_bar(i),
    ensures
        ({
            let (st2, id1) = ensure_node_spec(st, raw1, line1)->Ok_0;
            ensure_node_spec(st2, raw2, line2) matches Ok((_st3, id2)) ==> id2 != id1
        }),
{
    let sp1 = node_spec_of(raw1);
    let sp2 = node_spec_of(raw2);
    lemma_node_spec_shape(raw1);
    lemma_node_spec_shape(raw2);
    assert(reference_shape(sp1));
    assert(reference_shape(sp2));
    if node_key(sp1) == node_key(sp2) {
        lemma_node_key_injective(sp1, sp2);
    }
    let key1 = node_key(sp1);
    let key2 = node_key(sp2);
    lemma_ensure_node(st, raw1, line1);
    let (st2, id1) = ensure_node_spec(st, raw1, line1)->Ok_0;
    lemma_index_from(st.keys, key1, 0);
    // where the node of the first reference stands
    let k1: int = match index_from(st.keys, key1, 0) {
        Some(k) => k,
        None => st.nodes.len() as int,
    };
    assert(st2.keys[k1] == key1 && st2.nodes[k1].id == id1 && 0 <= k1 < st2.nodes.len());
    lemma_index_from(st2.keys, key2, 0);
    if let Ok((st3, id2)) = ensure_node_spec(st2, raw2, line2) {
        match index_from(st2.keys, key2, 0) {
            Some(k2) => {
                assert(st2.keys[k2] == key2);
                assert(k2 != k1);
                assert(id2 == st2.nodes[k2].id);
                if k2 < k1 {
                    assert(distinct_node_ids(st2.nodes));
                    assert(st2.nodes[k2].id != st2.nodes[k1].id);
                } else {
                    assert(st2.nodes[k1].id != st2.nodes[k2].id);
                }
            },
            None => {
                let id = to_id_of(sp2.label);
                lemma_new_node_id_fresh(st2.nodes, id, sp2.provider);
                assert(id2 == new_node_id(st2.nodes, id, sp2.provider));
                assert(has_node_id(st2.nodes, id1));
            },
        }
    }
}

} // verus!
