//! The Archflow DSL.
//!
//! ```text
//! diagram       = line*
//! line          = comment | use_stmt | metadata | cluster_block | edge_chain | node_decl
//! comment       = ('#' | '//') TEXT
//! use_stmt      = 'use' PROVIDER ('from' SOURCE)?
//! metadata      = 'title' ':' TEXT
//!               | 'direction' ':' ('TB' | 'LR')
//!               | 'theme' ':' IDENT
//!               | ('icon_size' | 'node_width' | 'spacing') ':' NUMBER
//! cluster_block = 'cluster' (':' PROVIDER ':' IDENT)? LABEL '{' line* '}'
//! edge_chain    = node_ref ('>>' node_ref)+ ('[' TEXT ']')?
//! node_ref      = (PROVIDER ':' IDENT SPACE)? LABEL
//! node_decl     = node_ref
//! PROVIDER      = [a-z0-9-]+
//! ```
//!
//! The keywords `title:`, `direction:`, `theme:`, `icon_size:`, `node_width:`
//! and `spacing:` are matched without regard to case.  A node is identified by
//! its provider, icon and label; its id is derived from its label, and made
//! unique when another node already has it (see `new_node_id`).  A cluster
//! block may hold cluster blocks; the nodes of a nested block belong to the
//! enclosing cluster too.

use vstd::prelude::*;
use crate::error::{ArchflowError, ErrorView};
use crate::model::{
    ClusterDef, ClusterView, DiagramIR, DiagramView, EdgeDef, EdgeView, LayoutConfig, LayoutView,
    Metadata, MetadataView, NodeDef, NodeView, ProviderSource, ProviderSources, source_index_from,
    views,
};
use crate::number::{chars_are_float_literal, is_float_literal};
use crate::text::{
    append_chars, append_str, chars_are_provider_name, chars_contains, chars_contains_char, chars_eq,
    chars_find_char, chars_lines, chars_nonempty_parts, chars_join, chars_rfind_char, chars_split,
    chars_starts_with, chars_starts_with_ignore_case, chars_strip_prefix_ignore_case, chars_to_lowercase, chars_to_string,
    chars_to_uppercase, contains, find, is_ascii_alnum, is_provider_name, join, lines_of,
    lowercase_of, nonempty_parts, rfind, rows, split_by, starts_with, str_chars, strip_prefix_ignore_case,
    sub_chars, trim, trim_bounds, trim_chars, trim_range, uppercase_of, index_from, add_unique,
    add_all, add_unique_id, add_all_ids, decimal, decimal_chars,
};

verus! {

// ════════════════════════════ specification ════════════════════════════

/// A line that could not be parsed: its number (from 1) and what is wrong.
pub struct SyntaxError {
    pub line: nat,
    pub message: Seq<char>,
}

/// What has been read of a diagram so far.
pub struct ParseState {
    pub title: Option<Seq<char>>,
    pub direction: Seq<char>,
    pub theme: Seq<char>,
    pub sources: Seq<(Seq<char>, Option<Seq<char>>)>,
    pub layout: Option<LayoutView>,
    pub nodes: Seq<NodeView>,
    /// `keys[i]` is the identity (`provider|icon|label`) of `nodes[i]`.
    pub keys: Seq<Seq<char>>,
    pub clusters: Seq<ClusterView>,
    pub edges: Seq<EdgeView>,
}

/// The state before the first line.
pub open spec fn initial_state() -> ParseState {
    ParseState {
        title: None,
        direction: "TB"@,
        theme: "default"@,
        sources: seq![],
        layout: None,
        nodes: seq![],
        keys: seq![],
        clusters: seq![],
        edges: seq![],
    }
}

/// A parse error on line `line` with the message `message`.
pub open spec fn syntax_error(line: nat, message: Seq<char>) -> SyntaxError {
    SyntaxError { line, message }
}

/// Where reading stopped: the state reached when the error was met, and the
/// error.
pub struct Halt {
    pub state: ParseState,
    pub error: SyntaxError,
}

/// Reading stops in state `st` with the error `message` on line `line`.
pub open spec fn halt(st: ParseState, line: nat, message: Seq<char>) -> Halt {
    Halt { state: st, error: syntax_error(line, message) }
}

/// `'` + `s` + `'`.
pub open spec fn quoted(s: Seq<char>) -> Seq<char> {
    "'"@ + s + "'"@
}

/// The pieces of a node reference.
pub struct NodeSpecView {
    pub label: Seq<char>,
    pub provider: Option<Seq<char>>,
    pub icon: Option<Seq<char>>,
}

/// `s` up to its first `[`, or all of it.
pub open spec fn before_bracket(s: Seq<char>) -> Seq<char> {
    match find(s, seq!['[']) {
        Some(b) => trim(s.take(b)),
        None => s,
    }
}

/// Reads `provider:icon Label`, `provider:Icon` or `Label`; anything from a
/// `[` on is left out.
pub open spec fn node_spec_of(raw: Seq<char>) -> NodeSpecView {
    let t = before_bracket(trim(raw));
    let plain = NodeSpecView { label: t, provider: None, icon: None };
    match find(t, seq![':']) {
        Some(c) => {
            let prefix = t.take(c);
            let after = t.skip(c + 1);
            if !is_provider_name(prefix) {
                plain
            } else {
                let spaced = match find(after, seq![' ']) {
                    Some(sp) => {
                        let icon_part = after.take(sp);
                        let label = trim(after.skip(sp + 1));
                        if icon_part.len() > 0 && label.len() > 0 {
                            Some(
                                NodeSpecView {
                                    label,
                                    provider: Some(prefix),
                                    icon: Some(lowercase_of(icon_part)),
                                },
                            )
                        } else {
                            None
                        }
                    },
                    None => None,
                };
                match spaced {
                    Some(v) => v,
                    None => if after.len() > 0 {
                        NodeSpecView {
                            label: after,
                            provider: Some(prefix),
                            icon: Some(lowercase_of(after)),
                        }
                    } else {
                        plain
                    },
                }
            }
        },
        None => plain,
    }
}

/// Splits `Node [label]` into the node part and the non-empty label between
/// the last `[` and the last `]`.
pub open spec fn bracket_label_of(part: Seq<char>) -> (Seq<char>, Option<Seq<char>>) {
    let t = trim(part);
    match (rfind(t, '['), rfind(t, ']')) {
        (Some(open), Some(close)) => if close > open {
            let label = trim(t.subrange(open + 1, close));
            if label.len() > 0 {
                (trim(t.take(open)), Some(label))
            } else {
                (t, None)
            }
        } else {
            (t, None)
        },
        _ => (t, None),
    }
}

/// `c` if it is an ASCII letter or digit, `_` otherwise.
pub open spec fn id_char(c: char) -> char {
    if is_ascii_alnum(c) {
        c
    } else {
        '_'
    }
}

/// The id of a label: the label trimmed and lower-cased, every character
/// that is not an ASCII letter or digit read as `_`, and the runs between
/// underscores joined by single underscores (`"Web Server"` gives `"web_server"`).
pub open spec fn to_id_of(label: Seq<char>) -> Seq<char> {
    id_of_lowered(lowercase_of(trim(label)))
}

/// The id made from a label that is already trimmed and lower-cased: every
/// character that is not an ASCII letter or digit read as `_`, and the runs
/// between underscores joined by single underscores.
pub open spec fn id_of_lowered(lowered: Seq<char>) -> Seq<char> {
    let mapped = lowered.map_values(|c: char| id_char(c));
    join(nonempty_parts(split_by(mapped, seq!['_'])), seq!['_'])
}

/// `s`, or nothing.
pub open spec fn or_empty(s: Option<Seq<char>>) -> Seq<char> {
    match s {
        Some(v) => v,
        None => seq![],
    }
}

/// The identity of a node: `provider|icon|label`.
pub open spec fn node_key(spec: NodeSpecView) -> Seq<char> {
    or_empty(spec.provider) + "|"@ + or_empty(spec.icon) + "|"@ + spec.label
}

/// Some node already has the id `id`.
pub open spec fn has_node_id(nodes: Seq<NodeView>, id: Seq<char>) -> bool {
    exists|i: int| 0 <= i < nodes.len() && #[trigger] nodes[i].id == id
}

/// `base` followed by `_` and the decimal digits of `k`.
pub open spec fn suffixed(base: Seq<char>, k: nat) -> Seq<char> {
    base + "_"@ + decimal(k)
}

/// The first number from `k` on whose suffix makes `base` an id that no
/// node has, looking no further than `nodes.len() + 2` (among that many
/// candidates one is always free).
pub open spec fn first_free_suffix(nodes: Seq<NodeView>, base: Seq<char>, k: nat) -> nat
    decreases nodes.len() + 2 - k,
{
    if k >= nodes.len() + 2 || !has_node_id(nodes, suffixed(base, k)) {
        k
    } else {
        first_free_suffix(nodes, base, k + 1)
    }
}

/// The id that a new node takes: the id of its label when no node has it;
/// else, for a node with a provider, the provider's name, `_` and that id;
/// and when that is taken too, the first of `_2`, `_3`, ... after it that
/// makes an id no node has.
pub open spec fn new_node_id(nodes: Seq<NodeView>, id: Seq<char>, provider: Option<Seq<char>>) -> Seq<char> {
    let wanted = if has_node_id(nodes, id) {
        match provider {
            Some(p) => p + "_"@ + id,
            None => id,
        }
    } else {
        id
    };
    if has_node_id(nodes, wanted) {
        suffixed(wanted, first_free_suffix(nodes, wanted, 2))
    } else {
        wanted
    }
}

/// Finds or adds the node that `raw` refers to, and gives its id.
pub open spec fn ensure_node_spec(st: ParseState, raw: Seq<char>, line: nat) -> Result<
    (ParseState, Seq<char>),
    Halt,
> {
    let spec = node_spec_of(raw);
    let id = to_id_of(spec.label);
    if id.len() == 0 {
        Err(halt(st, line, "Empty node label in: "@ + quoted(raw)))
    } else {
        let key = node_key(spec);
        match index_from(st.keys, key, 0) {
            Some(k) => Ok((st, st.nodes[k].id)),
            None => {
                let actual = new_node_id(st.nodes, id, spec.provider);
                let node = NodeView {
                    id: actual,
                    label: spec.label,
                    provider: spec.provider,
                    icon: spec.icon,
                    icon_svg: None,
                };
                Ok((ParseState { nodes: st.nodes.push(node), keys: st.keys.push(key), ..st }, actual))
            },
        }
    }
}

/// The edges of a chain from `parts[j]` on; `refs` collects the ids met.
pub open spec fn chain_from(
    st: ParseState,
    parts: Seq<Seq<char>>,
    j: int,
    line: nat,
    refs: Seq<Seq<char>>,
) -> Result<(ParseState, Seq<Seq<char>>), Halt>
    decreases parts.len() - j,
{
    if j < 0 || j + 1 >= parts.len() {
        Ok((st, refs))
    } else {
        match ensure_node_spec(st, trim(parts[j]), line) {
            Err(e) => Err(e),
            Ok((st1, from_id)) => {
                let refs1 = add_unique(refs, from_id);
                let to_part = trim(parts[j + 1]);
                let (to_raw, label) = if j + 2 == parts.len() {
                    bracket_label_of(to_part)
                } else {
                    (to_part, None)
                };
                match ensure_node_spec(st1, to_raw, line) {
                    Err(e) => Err(e),
                    Ok((st2, to_id)) => {
                        let edge = EdgeView { from: from_id, to: to_id, label };
                        chain_from(
                            ParseState { edges: st2.edges.push(edge), ..st2 },
                            parts,
                            j + 1,
                            line,
                            add_unique(refs1, to_id),
                        )
                    },
                }
            },
        }
    }
}

/// An edge chain `A >> B >> C [label]`: its edges, and the ids of its nodes in
/// the order they are first met.
pub open spec fn edge_chain_spec(st: ParseState, t: Seq<char>, line: nat) -> Result<
    (ParseState, Seq<Seq<char>>),
    Halt,
> {
    let parts = split_by(t, ">>"@);
    if parts.len() < 2 {
        Err(halt(st, line, "Edge chain requires at least two nodes"@))
    } else {
        chain_from(st, parts, 0, line, seq![])
    }
}

/// `entries` with `key` mapped to `value`: the entry of `key` replaced, or a
/// new entry at the end.
pub open spec fn source_insert(
    entries: Seq<(Seq<char>, Option<Seq<char>>)>,
    key: Seq<char>,
    value: Option<Seq<char>>,
) -> Seq<(Seq<char>, Option<Seq<char>>)> {
    match source_index_from(entries, key, 0) {
        Some(i) => entries.update(i, (key, value)),
        None => entries.push((key, value)),
    }
}

/// `use PROVIDER` or `use PROVIDER from SOURCE`.
pub open spec fn use_spec(st: ParseState, t: Seq<char>, line: nat) -> Result<ParseState, Halt> {
    let rest = if t.len() > 4 {
        trim(t.skip(4))
    } else {
        seq![]
    };
    let from_kw = " from "@;
    let parsed: Result<(Seq<char>, Option<Seq<char>>), SyntaxError> = match find(rest, from_kw) {
        Some(i) => {
            let p = trim(rest.take(i));
            let s = trim(rest.skip(i + from_kw.len()));
            if s.len() == 0 {
                Err(syntax_error(line, "'use ... from' requires a source"@))
            } else {
                Ok((p, Some(s)))
            }
        },
        None => Ok((rest, None)),
    };
    match parsed {
        Err(e) => Err(Halt { state: st, error: e }),
        Ok((provider, source)) => if !is_provider_name(provider) {
            Err(halt(st, line, "Invalid provider name: "@ + quoted(provider)))
        } else {
            Ok(ParseState { sources: source_insert(st.sources, provider, source), ..st })
        },
    }
}

/// The provider, cluster type and label of a cluster header (without its `{`).
pub open spec fn cluster_header_spec(wb: Seq<char>, line: nat) -> Result<
    (Option<Seq<char>>, Option<Seq<char>>, Seq<char>),
    SyntaxError,
> {
    let kw = "cluster:"@;
    if starts_with(wb, kw) {
        let rest = wb.skip(kw.len() as int);
        let expected = syntax_error(line, "Expected cluster:provider:type Label {"@);
        match find(rest, seq![':']) {
            None => Err(expected),
            Some(c) => {
                let prov = rest.take(c);
                let after = rest.skip(c + 1);
                match find(after, seq![' ']) {
                    None => Err(expected),
                    Some(sp) => {
                        let ctype = after.take(sp);
                        let label = trim(after.skip(sp + 1));
                        if !is_provider_name(prov) {
                            Err(syntax_error(line, "Invalid provider name in cluster: "@ + quoted(prov)))
                        } else if !is_provider_name(ctype) {
                            Err(syntax_error(line, "Invalid cluster type: "@ + quoted(ctype)))
                        } else {
                            Ok((Some(prov), Some(ctype), label))
                        }
                    },
                }
            },
        }
    } else {
        Ok((None, None, trim(without_prefix(wb, "cluster"@))))
    }
}

/// `s` without its prefix `p`, when it has that prefix.
pub open spec fn without_prefix(s: Seq<char>, p: Seq<char>) -> Seq<char> {
    if starts_with(s, p) {
        s.skip(p.len() as int)
    } else {
        s
    }
}

/// A line that is empty or a comment.
pub open spec fn is_blank_or_comment(t: Seq<char>) -> bool {
    t.len() == 0 || starts_with(t, "#"@) || starts_with(t, "//"@)
}

/// A line that opens a cluster block: `cluster ... {`.
pub open spec fn is_cluster_header(t: Seq<char>) -> bool {
    starts_with(t, "cluster"@) && t.len() > 0 && t.last() == '{'
}

/// The lines of a cluster block from `lines[pos]` up to its `}`: the state,
/// the index after the block, the children, and whether the `}` was found.
///
/// A block may hold blocks: a nested block is read as a cluster of its own,
/// and its nodes are children of the enclosing cluster too.
pub open spec fn cluster_body_spec(
    st: ParseState,
    lines: Seq<Seq<char>>,
    pos: int,
    children: Seq<Seq<char>>,
) -> Result<(ParseState, int, Seq<Seq<char>>, bool), Halt>
    decreases lines.len() - pos, 1int,
{
    if pos < 0 || pos >= lines.len() {
        Ok((st, pos, children, false))
    } else {
        let inner = trim(lines[pos]);
        let line = (pos + 1) as nat;
        if inner == "}"@ {
            Ok((st, pos + 1, children, true))
        } else if is_blank_or_comment(inner) {
            cluster_body_spec(st, lines, pos + 1, children)
        } else if is_cluster_header(inner) {
            match cluster_spec(st, lines, pos, inner) {
                Err(e) => Err(e),
                // a block always ends past its header line
                Ok((st2, next)) => if pos < next <= lines.len() {
                    cluster_body_spec(st2, lines, next, add_all(children, st2.clusters.last().children))
                } else {
                    Ok((st2, next, children, false))
                },
            }
        } else if contains(inner, ">>"@) {
            match edge_chain_spec(st, inner, line) {
                Err(e) => Err(e),
                Ok((st2, ids)) => cluster_body_spec(st2, lines, pos + 1, add_all(children, ids)),
            }
        } else {
            match ensure_node_spec(st, inner, line) {
                Err(e) => Err(e),
                Ok((st2, id)) => cluster_body_spec(st2, lines, pos + 1, add_unique(children, id)),
            }
        }
    }
}

/// A cluster block whose header `t` is on line `pos` (counted from 0).
pub open spec fn cluster_spec(st: ParseState, lines: Seq<Seq<char>>, pos: int, t: Seq<char>) -> Result<
    (ParseState, int),
    Halt,
>
    decreases lines.len() - pos, 0int when 0 <= pos < lines.len()
{
    let line = (pos + 1) as nat;
    let wb = trim(t.drop_last());
    match cluster_header_spec(wb, line) {
        Err(e) => Err(Halt { state: st, error: e }),
        Ok((provider, cluster_type, label)) => if label.len() == 0 {
            Err(halt(st, line, "Cluster must have a label"@))
        } else {
            match cluster_body_spec(st, lines, pos + 1, seq![]) {
                Err(e) => Err(e),
                Ok((st2, next, children, closed)) => if !closed {
                    Err(halt(st2, line, "Unclosed cluster block: "@ + quoted(label)))
                } else {
                    let cluster = ClusterView {
                        id: to_id_of(label),
                        label,
                        children,
                        provider,
                        cluster_type,
                        icon_svg: None,
                    };
                    Ok((ParseState { clusters: st2.clusters.push(cluster), ..st2 }, next))
                },
            }
        },
    }
}

/// Layout settings with nothing set.
pub open spec fn empty_layout() -> LayoutView {
    LayoutView { icon_size: None, node_width: None, node_height: None, h_spacing: None, v_spacing: None }
}

/// The layout settings so far, or none set.
pub open spec fn layout_or_empty(l: Option<LayoutView>) -> LayoutView {
    match l {
        Some(v) => v,
        None => empty_layout(),
    }
}

/// A numeric layout setting `name:` whose text is `v`.
pub open spec fn layout_setting_spec(st: ParseState, name: Seq<char>, v: Seq<char>, line: nat) -> Result<
    ParseState,
    Halt,
> {
    if !is_float_literal(v) {
        Err(halt(st, line, "Invalid "@ + name + ": "@ + quoted(v)))
    } else {
        let cur = layout_or_empty(st.layout);
        let next = if name == "icon_size"@ {
            LayoutView { icon_size: Some(v), ..cur }
        } else if name == "node_width"@ {
            LayoutView { node_width: Some(v), ..cur }
        } else {
            LayoutView { h_spacing: Some(v), v_spacing: Some(v), ..cur }
        };
        Ok(ParseState { layout: Some(next), ..st })
    }
}

/// Reads line `pos` (counted from 0); gives the state and the index of the
/// next line to read.
pub open spec fn line_spec(st: ParseState, lines: Seq<Seq<char>>, pos: int) -> Result<
    (ParseState, int),
    Halt,
> {
    let line = (pos + 1) as nat;
    let t = trim(lines[pos]);
    let next = pos + 1;
    if is_blank_or_comment(t) {
        Ok((st, next))
    } else if starts_with(t, "use "@) || t == "use"@ {
        match use_spec(st, t, line) {
            Err(e) => Err(e),
            Ok(s2) => Ok((s2, next)),
        }
    } else if let Some(rest) = strip_prefix_ignore_case(t, "title:"@) {
        Ok((ParseState { title: Some(trim(rest)), ..st }, next))
    } else if let Some(rest) = strip_prefix_ignore_case(t, "direction:"@) {
        let dir = uppercase_of(trim(rest));
        if dir != "TB"@ && dir != "LR"@ {
            Err(
                halt(
                    st,
                    line,
                    "Invalid direction "@ + quoted(trim(rest)) + ". Must be TB or LR"@,
                ),
            )
        } else {
            Ok((ParseState { direction: dir, ..st }, next))
        }
    } else if let Some(rest) = strip_prefix_ignore_case(t, "theme:"@) {
        Ok((ParseState { theme: trim(rest), ..st }, next))
    } else if let Some(rest) = strip_prefix_ignore_case(t, "icon_size:"@) {
        match layout_setting_spec(st, "icon_size"@, trim(rest), line) {
            Err(e) => Err(e),
            Ok(s2) => Ok((s2, next)),
        }
    } else if let Some(rest) = strip_prefix_ignore_case(t, "node_width:"@) {
        match layout_setting_spec(st, "node_width"@, trim(rest), line) {
            Err(e) => Err(e),
            Ok(s2) => Ok((s2, next)),
        }
    } else if let Some(rest) = strip_prefix_ignore_case(t, "spacing:"@) {
        match layout_setting_spec(st, "spacing"@, trim(rest), line) {
            Err(e) => Err(e),
            Ok(s2) => Ok((s2, next)),
        }
    } else if is_cluster_header(t) {
        cluster_spec(st, lines, pos, t)
    } else if contains(t, ">>"@) {
        match edge_chain_spec(st, t, line) {
            Err(e) => Err(e),
            Ok((s2, _ids)) => Ok((s2, next)),
        }
    } else if !contains(t, seq!['{']) && !contains(t, seq!['}']) {
        match ensure_node_spec(st, t, line) {
            Err(e) => Err(e),
            Ok((s2, _id)) => Ok((s2, next)),
        }
    } else if t == "}"@ {
        Ok((st, next))
    } else {
        Err(halt(st, line, "Unexpected syntax: "@ + quoted(t)))
    }
}

/// The body of a cluster ends at or after where it starts and within the text.
pub proof fn lemma_cluster_body_advances(
    st: ParseState,
    lines: Seq<Seq<char>>,
    pos: int,
    children: Seq<Seq<char>>,
)
    requires
        0 <= pos <= lines.len(),
    ensures
        cluster_body_spec(st, lines, pos, children) matches Ok((_, next, _, _)) ==> pos <= next
            <= lines.len(),
    decreases lines.len() - pos, 1int,
{
    if pos < lines.len() {
        let inner = trim(lines[pos]);
        let line = (pos + 1) as nat;
        if inner == "}"@ {
        } else if is_blank_or_comment(inner) {
            lemma_cluster_body_advances(st, lines, pos + 1, children);
        } else if is_cluster_header(inner) {
            lemma_cluster_advances(st, lines, pos, inner);
            match cluster_spec(st, lines, pos, inner) {
                Err(e) => {},
                Ok((st2, next)) => {
                    lemma_cluster_body_advances(
                        st2,
                        lines,
                        next,
                        add_all(children, st2.clusters.last().children),
                    );
                },
            }
        } else if contains(inner, ">>"@) {
            match edge_chain_spec(st, inner, line) {
                Err(e) => {},
                Ok((st2, ids)) => lemma_cluster_body_advances(st2, lines, pos + 1, add_all(children, ids)),
            }
        } else {
            match ensure_node_spec(st, inner, line) {
                Err(e) => {},
                Ok((st2, id)) => lemma_cluster_body_advances(st2, lines, pos + 1, add_unique(children, id)),
            }
        }
    }
}

/// A cluster block ends past its header line and within the text.
pub proof fn lemma_cluster_advances(st: ParseState, lines: Seq<Seq<char>>, pos: int, t: Seq<char>)
    requires
        0 <= pos < lines.len(),
    ensures
        cluster_spec(st, lines, pos, t) matches Ok((_, next)) ==> pos < next <= lines.len(),
    decreases lines.len() - pos, 0int,
{
    lemma_cluster_body_advances(st, lines, pos + 1, seq![]);
}

/// Reading a line moves past it and stays within the text.
pub proof fn lemma_line_advances(st: ParseState, lines: Seq<Seq<char>>, pos: int)
    requires
        0 <= pos < lines.len(),
    ensures
        line_spec(st, lines, pos) matches Ok((_, next)) ==> pos < next <= lines.len(),
{
    lemma_cluster_advances(st, lines, pos, trim(lines[pos]));
}

/// Reads the lines from `lines[pos]` on.
pub open spec fn lines_spec(st: ParseState, lines: Seq<Seq<char>>, pos: int) -> Result<
    ParseState,
    Halt,
>
    decreases lines.len() - pos,
{
    if pos < 0 || pos >= lines.len() {
        Ok(st)
    } else {
        match line_spec(st, lines, pos) {
            Err(e) => Err(e),
            Ok((s2, next)) => {
                proof {
                    lemma_line_advances(st, lines, pos);
                }
                lines_spec(s2, lines, next)
            },
        }
    }
}

/// The diagram that a DSL text describes, or the error of its first bad line.
pub open spec fn parse_dsl_spec(input: Seq<char>) -> Result<DiagramView, ErrorView> {
    let lines = lines_of(input);
    match lines_spec(initial_state(), lines, 0) {
        Err(h) => Err(ErrorView::ParseError { line: h.error.line, message: h.error.message }),
        Ok(st) => if st.nodes.len() == 0 {
            Err(
                ErrorView::ParseError {
                    line: lines.len(),
                    message: "Diagram must have at least one node"@,
                },
            )
        } else {
            Ok(
                DiagramView {
                    version: "1.0.0"@,
                    metadata: MetadataView {
                        title: st.title,
                        direction: st.direction,
                        theme: st.theme,
                        provider_sources: st.sources,
                        layout: st.layout,
                    },
                    nodes: st.nodes,
                    clusters: st.clusters,
                    edges: st.edges,
                },
            )
        },
    }
}


// ════════════════════════════ implementation ════════════════════════════

/// The characters of an optional vector.
pub open spec fn opt_chars(o: Option<Vec<char>>) -> Option<Seq<char>> {
    match o {
        Some(v) => Some(v@),
        None => None,
    }
}

fn opt_string(o: &Option<Vec<char>>) -> (r: Option<String>)
    ensures
        r.deep_view() == opt_chars(*o),
{
    match o {
        Some(v) => Some(chars_to_string(v)),
        None => None,
    }
}

/// `prefix` + `'v'`.
fn quoted_message(prefix: &str, v: &Vec<char>) -> (m: Vec<char>)
    ensures
        m@ == prefix@ + quoted(v@),
{
    let mut m = str_chars(prefix);
    append_str(&mut m, "'");
    append_chars(&mut m, v);
    append_str(&mut m, "'");
    assert(m@ =~= prefix@ + quoted(v@));
    m
}

/// The pieces of a node reference, as characters.
struct NodeSpecChars {
    label: Vec<char>,
    provider: Option<Vec<char>>,
    icon: Option<Vec<char>>,
}

impl View for NodeSpecChars {
    type V = NodeSpecView;

    closed spec fn view(&self) -> NodeSpecView {
        NodeSpecView { label: self.label@, provider: opt_chars(self.provider), icon: opt_chars(self.icon) }
    }
}

fn node_spec_chars(raw: &Vec<char>) -> (r: NodeSpecChars)
    ensures
        r@ == node_spec_of(raw@),
{
    let t0 = trim_chars(raw);
    let t = match chars_find_char(&t0, '[') {
        Some(b) => {
            let x = sub_chars(&t0, 0, b);
            trim_chars(&x)
        },
        None => t0,
    };
    assert(t@ == before_bracket(trim(raw@)));
    if let Some(c) = chars_find_char(&t, ':') {
        assert(c < t.len());
        let prefix = sub_chars(&t, 0, c);
        if chars_are_provider_name(&prefix) {
            let after = sub_chars(&t, c + 1, t.len());
            if let Some(sp) = chars_find_char(&after, ' ') {
                let icon_part = sub_chars(&after, 0, sp);
                let rest = sub_chars(&after, sp + 1, after.len());
                let label = trim_chars(&rest);
                if icon_part.len() > 0 && label.len() > 0 {
                    let icon = chars_to_lowercase(&icon_part);
                    return NodeSpecChars { label, provider: Some(prefix), icon: Some(icon) };
                }
            }
            if after.len() > 0 {
                let icon = chars_to_lowercase(&after);
                return NodeSpecChars { label: after, provider: Some(prefix), icon: Some(icon) };
            }
        }
    }
    NodeSpecChars { label: t, provider: None, icon: None }
}

/// The bounds of the node part and of the label of `Node [label]`.
fn bracket_label_ranges(p: &Vec<char>) -> (r: ((usize, usize), Option<(usize, usize)>))
    ensures
        r.0.0 <= r.0.1 <= p.len(),
        r.1 matches Some(l) ==> l.0 <= l.1 <= p.len(),
        bracket_label_of(p@) == (
            p@.subrange(r.0.0 as int, r.0.1 as int),
            match r.1 {
                Some(l) => Some(p@.subrange(l.0 as int, l.1 as int)),
                None => None,
            },
        ),
{
    let (a, b) = trim_bounds(p);
    let t = sub_chars(p, a, b);
    assert(t@ == trim(p@));
    let open = chars_rfind_char(&t, '[');
    let close = chars_rfind_char(&t, ']');
    match (open, close) {
        (Some(o), Some(c)) => {
            if c > o {
                let (la, lb) = trim_range(&t, o + 1, c);
                if lb > la {
                    let (na, nb) = trim_range(&t, 0, o);
                    assert(p@.subrange(a + na, a + nb) =~= t@.subrange(na as int, nb as int));
                    assert(p@.subrange(a + la, a + lb) =~= t@.subrange(la as int, lb as int));
                    assert(t@.subrange(0, o as int) =~= t@.take(o as int));
                    return ((a + na, a + nb), Some((a + la, a + lb)));
                }
            }
        },
        _ => {},
    }
    ((a, b), None)
}

fn bracket_label_chars(p: &Vec<char>) -> (r: (Vec<char>, Option<Vec<char>>))
    ensures
        bracket_label_of(p@) == (r.0@, opt_chars(r.1)),
{
    let (node, label) = bracket_label_ranges(p);
    let n = sub_chars(p, node.0, node.1);
    match label {
        Some(l) => (n, Some(sub_chars(p, l.0, l.1))),
        None => (n, None),
    }
}

fn to_id_chars(label: &Vec<char>) -> (r: Vec<char>)
    ensures
        r@ == to_id_of(label@),
{
    let t = trim_chars(label);
    let lower = chars_to_lowercase(&t);
    id_chars_of_lowered(&lower)
}

fn id_chars_of_lowered(lower: &Vec<char>) -> (r: Vec<char>)
    ensures
        r@ == id_of_lowered(lower@),
{
    let mut mapped: Vec<char> = Vec::new();
    let mut i: usize = 0;
    while i < lower.len()
        invariant
            0 <= i <= lower.len(),
            mapped@ == lower@.take(i as int).map_values(|c: char| id_char(c)),
        decreases lower.len() - i,
    {
        let c = lower[i];
        let m = if ('a' <= c && c <= 'z') || ('A' <= c && c <= 'Z') || ('0' <= c && c <= '9') {
            c
        } else {
            '_'
        };
        mapped.push(m);
        i = i + 1;
        assert(mapped@ =~= lower@.take(i as int).map_values(|c: char| id_char(c)));
    }
    assert(lower@.take(lower.len() as int) =~= lower@);
    let sep = vec!['_'];
    assert(sep@ =~= seq!['_']);
    let parts = chars_split(&mapped, &sep);
    let words = chars_nonempty_parts(&parts);
    chars_join(&words, &sep)
}

/// The pieces of a node reference: its label, and its provider and icon when
/// it is written `provider:icon Label` or `provider:Icon`.
#[derive(Debug, Clone)]
pub struct NodeSpec {
    pub label: String,
    pub provider: Option<String>,
    pub icon: Option<String>,
}

impl View for NodeSpec {
    type V = NodeSpecView;

    open spec fn view(&self) -> NodeSpecView {
        NodeSpecView {
            label: self.label@,
            provider: self.provider.deep_view(),
            icon: self.icon.deep_view(),
        }
    }
}

/// Reads a node reference: `provider:icon Label`, `provider:Icon` or `Label`.
/// The provider must be a valid provider name; the icon is lower-cased.
pub fn parse_node_spec(raw: &str) -> (r: NodeSpec)
    ensures
        r@ == node_spec_of(raw@),
{
    let c = node_spec_chars(&str_chars(raw));
    NodeSpec {
        label: chars_to_string(&c.label),
        provider: opt_string(&c.provider),
        icon: opt_string(&c.icon),
    }
}

/// Splits an edge label off its node: `"Node B [some label]"` gives
/// `("Node B", Some("some label"))`.
pub fn extract_bracket_label(part: &str) -> (r: (&str, Option<&str>))
    ensures
        bracket_label_of(part@) == (r.0@, match r.1 {
            Some(l) => Some(l@),
            None => None,
        }),
{
    let p = str_chars(part);
    let (node, label) = bracket_label_ranges(&p);
    let n = part.substring_char(node.0, node.1);
    match label {
        Some(l) => (n, Some(part.substring_char(l.0, l.1))),
        None => (n, None),
    }
}

/// The id made from a label that is already trimmed and lower-cased (what
/// `to_id` does after `str::to_lowercase`): `"web server!"` gives
/// `"web_server"`.
pub fn id_from_lowercase(lowered: &str) -> (r: String)
    ensures
        r@ == id_of_lowered(lowered@),
{
    let id = id_chars_of_lowered(&str_chars(lowered));
    chars_to_string(&id)
}

/// The id of a label: `"Web Server"` gives `"web_server"`.
pub fn to_id(label: &str) -> (r: String)
    ensures
        r@ == to_id_of(label@),
{
    let id = to_id_chars(&str_chars(label));
    chars_to_string(&id)
}

/// Whether `s` is a provider name: non-empty, lowercase ASCII letters,
/// digits and hyphens only.
pub fn is_valid_provider(s: &str) -> (r: bool)
    ensures
        r == is_provider_name(s@),
{
    chars_are_provider_name(&str_chars(s))
}

/// `s` without the prefix `prefix`, compared without ASCII case:
/// `"Title: foo"` with `"title:"` gives `" foo"`.
pub fn strip_prefix_ci<'b>(s: &'b str, prefix: &str) -> (r: Option<&'b str>)
    ensures
        match strip_prefix_ignore_case(s@, prefix@) {
            Some(rest) => r matches Some(x) && x@ == rest,
            None => r is None,
        },
{
    let sv = str_chars(s);
    let pv = str_chars(prefix);
    if chars_starts_with_ignore_case(&sv, &pv) {
        Some(s.substring_char(pv.len(), sv.len()))
    } else {
        None
    }
}


/// A line that could not be parsed.
struct LineError {
    line: usize,
    message: Vec<char>,
}

impl View for LineError {
    type V = SyntaxError;

    closed spec fn view(&self) -> SyntaxError {
        SyntaxError { line: self.line as nat, message: self.message@ }
    }
}

fn line_error(line: usize, message: Vec<char>) -> (e: LineError)
    ensures
        e@ == syntax_error(line as nat, message@),
{
    LineError { line, message }
}

/// Where `key` is named in `entries`.
fn source_position(entries: &Vec<ProviderSource>, key: &String) -> (r: Option<usize>)
    ensures
        r matches Some(i) ==> source_index_from(views(entries@), key@, 0) == Some(i as int) && i
            < entries.len(),
        r is None ==> source_index_from(views(entries@), key@, 0) is None,
{
    let mut i: usize = 0;
    while i < entries.len()
        invariant
            0 <= i <= entries.len(),
            source_index_from(views(entries@), key@, 0) == source_index_from(
                views(entries@),
                key@,
                i as int,
            ),
        decreases entries.len() - i,
    {
        assert(views(entries@)[i as int] == entries@[i as int]@);
        if entries[i].provider == *key {
            return Some(i);
        }
        i = i + 1;
    }
    None
}

/// What has been read so far.
struct Parser {
    title: Option<String>,
    direction: String,
    theme: String,
    sources: Vec<ProviderSource>,
    layout: Option<LayoutConfig>,
    nodes: Vec<NodeDef>,
    keys: Vec<Vec<char>>,
    clusters: Vec<ClusterDef>,
    edges: Vec<EdgeDef>,
}

impl View for Parser {
    type V = ParseState;

    closed spec fn view(&self) -> ParseState {
        ParseState {
            title: self.title.deep_view(),
            direction: self.direction@,
            theme: self.theme@,
            sources: views(self.sources@),
            layout: match self.layout {
                Some(l) => Some(l@),
                None => None,
            },
            nodes: views(self.nodes@),
            keys: rows(self.keys@),
            clusters: views(self.clusters@),
            edges: views(self.edges@),
        }
    }
}

/// Each node has its identity key.
pub open spec fn well_formed(st: ParseState) -> bool {
    st.keys.len() == st.nodes.len()
}

impl Parser {
    fn new() -> (p: Parser)
        ensures
            p@ == initial_state(),
            well_formed(p@),
    {
        let p = Parser {
            title: None,
            direction: chars_to_string(&str_chars("TB")),
            theme: chars_to_string(&str_chars("default")),
            sources: Vec::new(),
            layout: None,
            nodes: Vec::new(),
            keys: Vec::new(),
            clusters: Vec::new(),
            edges: Vec::new(),
        };
        assert(p@.sources =~= seq![]);
        assert(p@.nodes =~= seq![]);
        assert(p@.keys =~= seq![]);
        assert(p@.clusters =~= seq![]);
        assert(p@.edges =~= seq![]);
        p
    }

    #[verifier::loop_isolation(false)]
    fn ensure_node(&mut self, raw: &Vec<char>, line: usize) -> (r: Result<String, LineError>)
        requires
            well_formed(old(self)@),
        ensures
            match ensure_node_spec(old(self)@, raw@, line as nat) {
                Ok((st, id)) => r matches Ok(v) && v@ == id && final(self)@ == st && well_formed(st),
                Err(h) => r matches Err(x) && x@ == h.error && final(self)@ == h.state,
            },
    {
        let spec = node_spec_chars(raw);
        let id = to_id_chars(&spec.label);
        if id.len() == 0 {
            return Err(line_error(line, quoted_message("Empty node label in: ", raw)));
        }
        let mut key: Vec<char> = Vec::new();
        match &spec.provider {
            Some(p) => append_chars(&mut key, p),
            None => {},
        }
        append_str(&mut key, "|");
        match &spec.icon {
            Some(i) => append_chars(&mut key, i),
            None => {},
        }
        append_str(&mut key, "|");
        append_chars(&mut key, &spec.label);
        assert(key@ =~= node_key(spec@));
        let mut k: usize = 0;
        while k < self.keys.len()
            invariant
                0 <= k <= self.keys.len(),
                self.keys.len() == self.nodes.len(),
                index_from(rows(self.keys@), key@, 0) == index_from(rows(self.keys@), key@, k as int),
            decreases self.keys.len() - k,
        {
            assert(rows(self.keys@)[k as int] == self.keys@[k as int]@);
            if chars_eq(&self.keys[k], &key) {
                assert(views(self.nodes@)[k as int] == self.nodes@[k as int]@);
                return Ok(self.nodes[k].id.clone());
            }
            k = k + 1;
        }
        let id_string = chars_to_string(&id);
        let wanted: String = if id_taken(&self.nodes, &id_string) {
            match &spec.provider {
                Some(p) => {
                    let mut a = p.clone();
                    append_str(&mut a, "_");
                    append_chars(&mut a, &id);
                    chars_to_string(&a)
                },
                None => id_string,
            }
        } else {
            id_string
        };
        let actual: String = if id_taken(&self.nodes, &wanted) {
            first_free_id(&self.nodes, &wanted)
        } else {
            wanted
        };
        let node = NodeDef {
            id: actual.clone(),
            label: chars_to_string(&spec.label),
            provider: opt_string(&spec.provider),
            icon: opt_string(&spec.icon),
            icon_svg: None,
        };
        let ghost old_nodes = views(self.nodes@);
        let ghost old_keys = rows(self.keys@);
        self.nodes.push(node);
        self.keys.push(key);
        assert(views(self.nodes@) =~= old_nodes.push(node@));
        assert(rows(self.keys@) =~= old_keys.push(key@));
        Ok(actual)
    }

    fn edge_chain(&mut self, t: &Vec<char>, line: usize) -> (r: Result<Vec<String>, LineError>)
        requires
            well_formed(old(self)@),
        ensures
            match edge_chain_spec(old(self)@, t@, line as nat) {
                Ok((st, ids)) => r matches Ok(v) && v.deep_view() == ids && final(self)@ == st
                    && well_formed(st),
                Err(h) => r matches Err(x) && x@ == h.error && final(self)@ == h.state,
            },
    {
        let sep = str_chars(">>");
        proof {
            reveal_strlit(">>");
        }
        let parts = chars_split(t, &sep);
        if parts.len() < 2 {
            return Err(line_error(line, str_chars("Edge chain requires at least two nodes")));
        }
        let ghost ps = rows(parts@);
        let mut refs: Vec<String> = Vec::new();
        let mut j: usize = 0;
        assert(refs.deep_view() =~= seq![]);
        while j + 1 < parts.len()
            invariant
                ps == rows(parts@),
                ps.len() >= 2,
                j + 1 <= parts.len(),
                well_formed(self@),
                edge_chain_spec(old(self)@, t@, line as nat) == chain_from(
                    self@,
                    ps,
                    j as int,
                    line as nat,
                    refs.deep_view(),
                ),
            decreases parts.len() - j,
        {
            let from_raw = trim_chars(&parts[j]);
            let from_id = match self.ensure_node(&from_raw, line) {
                Ok(v) => v,
                Err(e) => return Err(e),
            };
            add_unique_id(&mut refs, &from_id);
            let to_part = trim_chars(&parts[j + 1]);
            let (to_raw, label) = if j + 2 == parts.len() {
                bracket_label_chars(&to_part)
            } else {
                (to_part, None)
            };
            let to_id = match self.ensure_node(&to_raw, line) {
                Ok(v) => v,
                Err(e) => return Err(e),
            };
            add_unique_id(&mut refs, &to_id);
            let edge = EdgeDef { from: from_id, to: to_id, label: opt_string(&label) };
            let ghost old_edges = views(self.edges@);
            self.edges.push(edge);
            assert(views(self.edges@) =~= old_edges.push(edge@));
            j = j + 1;
        }
        Ok(refs)
    }

    fn use_stmt(&mut self, t: &Vec<char>, line: usize) -> (r: Result<(), LineError>)
        requires
            well_formed(old(self)@),
        ensures
            match use_spec(old(self)@, t@, line as nat) {
                Ok(st) => r is Ok && final(self)@ == st && well_formed(st),
                Err(h) => r matches Err(x) && x@ == h.error && final(self)@ == h.state,
            },
    {
        let rest = if t.len() > 4 {
            let x = sub_chars(t, 4, t.len());
            trim_chars(&x)
        } else {
            Vec::new()
        };
        assert(rest@ =~= (if t@.len() > 4 {
            trim(t@.skip(4))
        } else {
            seq![]
        }));
        let from_kw = str_chars(" from ");
        let (provider, source) = match crate::text::chars_find_from(&rest, &from_kw, 0) {
            Some(i) => {
                let p0 = sub_chars(&rest, 0, i);
                let p = trim_chars(&p0);
                let s0 = sub_chars(&rest, i + from_kw.len(), rest.len());
                let src = trim_chars(&s0);
                if src.len() == 0 {
                    return Err(line_error(line, str_chars("'use ... from' requires a source")));
                }
                (p, Some(src))
            },
            None => (rest, None),
        };
        if !chars_are_provider_name(&provider) {
            return Err(line_error(line, quoted_message("Invalid provider name: ", &provider)));
        }
        let key = chars_to_string(&provider);
        let value = opt_string(&source);
        let found = source_position(&self.sources, &key);
        let ghost old_sources = views(self.sources@);
        let entry = ProviderSource { provider: key, source: value };
        match found {
            Some(i) => self.sources.set(i, entry),
            None => self.sources.push(entry),
        }
        assert(views(self.sources@) =~= source_insert(old_sources, provider@, opt_chars(source)));
        Ok(())
    }

    fn layout_setting(&mut self, name: &str, v: &Vec<char>, line: usize) -> (r: Result<(), LineError>)
        requires
            well_formed(old(self)@),
        ensures
            match layout_setting_spec(old(self)@, name@, v@, line as nat) {
                Ok(st) => r is Ok && final(self)@ == st && well_formed(st),
                Err(h) => r matches Err(x) && x@ == h.error && final(self)@ == h.state,
            },
    {
        if !chars_are_float_literal(v) {
            let mut m = str_chars("Invalid ");
            append_str(&mut m, name);
            let tail = quoted_message(": ", v);
            append_chars(&mut m, &tail);
            assert(m@ =~= "Invalid "@ + name@ + ": "@ + quoted(v@));
            return Err(line_error(line, m));
        }
        let mut cur = match self.layout.take() {
            Some(l) => l,
            None => LayoutConfig {
                icon_size: None,
                node_width: None,
                node_height: None,
                h_spacing: None,
                v_spacing: None,
            },
        };
        let text = chars_to_string(v);
        let name_chars = str_chars(name);
        if chars_eq(&name_chars, &str_chars("icon_size")) {
            cur.icon_size = Some(text);
        } else if chars_eq(&name_chars, &str_chars("node_width")) {
            cur.node_width = Some(text);
        } else {
            cur.h_spacing = Some(text.clone());
            cur.v_spacing = Some(text);
        }
        self.layout = Some(cur);
        Ok(())
    }

    fn cluster_body(&mut self, lines: &Vec<Vec<char>>, start: usize) -> (r: Result<
        (usize, Vec<String>, bool),
        LineError,
    >)
        requires
            well_formed(old(self)@),
            start <= lines.len(),
        ensures
            match cluster_body_spec(old(self)@, rows(lines@), start as int, seq![]) {
                Ok((st, next, children, closed)) => r matches Ok(x) && x.0 == next && x.1.deep_view()
                    == children && x.2 == closed && final(self)@ == st && well_formed(st),
                Err(h) => r matches Err(x) && x@ == h.error && final(self)@ == h.state,
            },
        decreases lines.len() - start, 1int,
    {
        let ghost ls = rows(lines@);
        let mut children: Vec<String> = Vec::new();
        let mut pos = start;
        assert(children.deep_view() =~= seq![]);
        loop
            invariant
                ls == rows(lines@),
                start <= pos <= lines.len(),
                well_formed(self@),
                cluster_body_spec(old(self)@, ls, start as int, seq![]) == cluster_body_spec(
                    self@,
                    ls,
                    pos as int,
                    children.deep_view(),
                ),
            decreases lines.len() - pos,
        {
            if pos >= lines.len() {
                return Ok((pos, children, false));
            }
            let inner = trim_chars(&lines[pos]);
            let line = pos + 1;
            if chars_eq(&inner, &str_chars("}")) {
                return Ok((pos + 1, children, true));
            }
            if blank_or_comment(&inner) {
                pos = pos + 1;
                continue;
            }
            if chars_starts_with(&inner, &str_chars("cluster")) && inner[inner.len() - 1] == '{' {
                proof {
                    lemma_cluster_advances(self@, ls, pos as int, inner@);
                }
                let next = match self.cluster(lines, pos, &inner) {
                    Ok(n) => n,
                    Err(e) => return Err(e),
                };
                let k = self.clusters.len() - 1;
                assert(self@.clusters.last() == self.clusters@[k as int]@);
                add_all_ids(&mut children, &self.clusters[k].children);
                pos = next;
                continue;
            }
            if chars_contains(&inner, &str_chars(">>")) {
                let ids = match self.edge_chain(&inner, line) {
                    Ok(v) => v,
                    Err(e) => return Err(e),
                };
                add_all_ids(&mut children, &ids);
            } else {
                let id = match self.ensure_node(&inner, line) {
                    Ok(v) => v,
                    Err(e) => return Err(e),
                };
                add_unique_id(&mut children, &id);
            }
            pos = pos + 1;
        }
    }

    fn cluster(&mut self, lines: &Vec<Vec<char>>, pos: usize, t: &Vec<char>) -> (r: Result<
        usize,
        LineError,
    >)
        requires
            well_formed(old(self)@),
            pos < lines.len(),
            t.len() > 0,
        ensures
            match cluster_spec(old(self)@, rows(lines@), pos as int, t@) {
                Ok((st, next)) => r matches Ok(n) && n == next && final(self)@ == st && well_formed(st),
                Err(h) => r matches Err(x) && x@ == h.error && final(self)@ == h.state,
            },
        decreases lines.len() - pos, 0int,
    {
        let line = pos + 1;
        let body = sub_chars(t, 0, t.len() - 1);
        let wb = trim_chars(&body);
        assert(body@ =~= t@.drop_last());
        let (provider, cluster_type, label) = match cluster_header(&wb, line) {
            Ok(h) => h,
            Err(e) => return Err(e),
        };
        if label.len() == 0 {
            return Err(line_error(line, str_chars("Cluster must have a label")));
        }
        let (next, children, closed) = match self.cluster_body(lines, pos + 1) {
            Ok(b) => b,
            Err(e) => return Err(e),
        };
        if !closed {
            return Err(line_error(line, quoted_message("Unclosed cluster block: ", &label)));
        }
        let id = to_id_chars(&label);
        let cluster = ClusterDef {
            id: chars_to_string(&id),
            label: chars_to_string(&label),
            children,
            provider: opt_string(&provider),
            cluster_type: opt_string(&cluster_type),
            icon_svg: None,
        };
        let ghost old_clusters = views(self.clusters@);
        self.clusters.push(cluster);
        assert(views(self.clusters@) =~= old_clusters.push(cluster@));
        Ok(next)
    }

    fn parse_line(&mut self, lines: &Vec<Vec<char>>, pos: usize) -> (r: Result<usize, LineError>)
        requires
            well_formed(old(self)@),
            pos < lines.len(),
        ensures
            match line_spec(old(self)@, rows(lines@), pos as int) {
                Ok((st, next)) => r matches Ok(n) && n == next && final(self)@ == st && well_formed(st),
                Err(h) => r matches Err(x) && x@ == h.error && final(self)@ == h.state,
            },
    {
        let line = pos + 1;
        let t = trim_chars(&lines[pos]);
        let next = pos + 1;
        if blank_or_comment(&t) {
            return Ok(next);
        }
        if chars_starts_with(&t, &str_chars("use ")) || chars_eq(&t, &str_chars("use")) {
            return match self.use_stmt(&t, line) {
                Ok(()) => Ok(next),
                Err(e) => Err(e),
            };
        }
        if let Some(rest) = chars_strip_prefix_ignore_case(&t, "title:") {
            let v = trim_chars(&rest);
            self.title = Some(chars_to_string(&v));
            return Ok(next);
        }
        if let Some(rest) = chars_strip_prefix_ignore_case(&t, "direction:") {
            let v = trim_chars(&rest);
            let dir = chars_to_uppercase(&v);
            if !chars_eq(&dir, &str_chars("TB")) && !chars_eq(&dir, &str_chars("LR")) {
                let mut m = quoted_message("Invalid direction ", &v);
                append_str(&mut m, ". Must be TB or LR");
                return Err(line_error(line, m));
            }
            self.direction = chars_to_string(&dir);
            return Ok(next);
        }
        if let Some(rest) = chars_strip_prefix_ignore_case(&t, "theme:") {
            let v = trim_chars(&rest);
            self.theme = chars_to_string(&v);
            return Ok(next);
        }
        if let Some(rest) = chars_strip_prefix_ignore_case(&t, "icon_size:") {
            let v = trim_chars(&rest);
            return match self.layout_setting("icon_size", &v, line) {
                Ok(()) => Ok(next),
                Err(e) => Err(e),
            };
        }
        if let Some(rest) = chars_strip_prefix_ignore_case(&t, "node_width:") {
            let v = trim_chars(&rest);
            return match self.layout_setting("node_width", &v, line) {
                Ok(()) => Ok(next),
                Err(e) => Err(e),
            };
        }
        if let Some(rest) = chars_strip_prefix_ignore_case(&t, "spacing:") {
            let v = trim_chars(&rest);
            return match self.layout_setting("spacing", &v, line) {
                Ok(()) => Ok(next),
                Err(e) => Err(e),
            };
        }
        if chars_starts_with(&t, &str_chars("cluster")) && t[t.len() - 1] == '{' {
            return self.cluster(lines, pos, &t);
        }
        if chars_contains(&t, &str_chars(">>")) {
            return match self.edge_chain(&t, line) {
                Ok(_) => Ok(next),
                Err(e) => Err(e),
            };
        }
        if !chars_contains_char(&t, '{') && !chars_contains_char(&t, '}') {
            return match self.ensure_node(&t, line) {
                Ok(_) => Ok(next),
                Err(e) => Err(e),
            };
        }
        if chars_eq(&t, &str_chars("}")) {
            return Ok(next);
        }
        Err(line_error(line, quoted_message("Unexpected syntax: ", &t)))
    }
}

/// Whether some node has the id `x`.
fn id_taken(nodes: &Vec<NodeDef>, x: &String) -> (b: bool)
    ensures
        b == has_node_id(views(nodes@), x@),
{
    let mut i: usize = 0;
    while i < nodes.len()
        invariant
            0 <= i <= nodes.len(),
            forall|j: int| 0 <= j < i ==> #[trigger] views(nodes@)[j].id != x@,
        decreases nodes.len() - i,
    {
        assert(views(nodes@)[i as int].id == nodes@[i as int].id@);
        if nodes[i].id == *x {
            return true;
        }
        i = i + 1;
    }
    false
}

/// `base`, `_` and the decimal digits of `k`.
fn suffixed_id(base: &String, k: u128) -> (s: String)
    ensures
        s@ == suffixed(base@, k as nat),
{
    let mut v = str_chars(base.as_str());
    append_str(&mut v, "_");
    let digits = decimal_chars(k);
    append_chars(&mut v, &digits);
    chars_to_string(&v)
}

/// `base` with the first free suffix from 2 on.
fn first_free_id(nodes: &Vec<NodeDef>, base: &String) -> (s: String)
    ensures
        s@ == suffixed(base@, first_free_suffix(views(nodes@), base@, 2)),
{
    let n: u128 = nodes.len() as u128;
    let mut k: u128 = 2;
    loop
        invariant
            2 <= k <= n + 2,
            n == nodes.len(),
            first_free_suffix(views(nodes@), base@, 2) == first_free_suffix(views(nodes@), base@, k as nat),
        decreases n + 2 - k,
    {
        let candidate = suffixed_id(base, k);
        if k >= n + 2 || !id_taken(nodes, &candidate) {
            return candidate;
        }
        k = k + 1;
    }
}

/// Whether `t` is empty or a comment.
fn blank_or_comment(t: &Vec<char>) -> (r: bool)
    ensures
        r == is_blank_or_comment(t@),
{
    t.len() == 0 || chars_starts_with(t, &str_chars("#")) || chars_starts_with(t, &str_chars("//"))
}

fn cluster_header(wb: &Vec<char>, line: usize) -> (r: Result<
    (Option<Vec<char>>, Option<Vec<char>>, Vec<char>),
    LineError,
>)
    ensures
        match cluster_header_spec(wb@, line as nat) {
            Ok((p, c, l)) => r matches Ok(x) && opt_chars(x.0) == p && opt_chars(x.1) == c && x.2@
                == l,
            Err(e) => r matches Err(x) && x@ == e,
        },
{
    let kw = str_chars("cluster:");
    if chars_starts_with(wb, &kw) {
        let rest = sub_chars(wb, kw.len(), wb.len());
        let c = match chars_find_char(&rest, ':') {
            Some(c) => c,
            None => return Err(line_error(line, str_chars("Expected cluster:provider:type Label {"))),
        };
        let prov = sub_chars(&rest, 0, c);
        let after = sub_chars(&rest, c + 1, rest.len());
        let sp = match chars_find_char(&after, ' ') {
            Some(sp) => sp,
            None => return Err(line_error(line, str_chars("Expected cluster:provider:type Label {"))),
        };
        let ctype = sub_chars(&after, 0, sp);
        let tail = sub_chars(&after, sp + 1, after.len());
        let label = trim_chars(&tail);
        if !chars_are_provider_name(&prov) {
            return Err(line_error(line, quoted_message("Invalid provider name in cluster: ", &prov)));
        }
        if !chars_are_provider_name(&ctype) {
            return Err(line_error(line, quoted_message("Invalid cluster type: ", &ctype)));
        }
        Ok((Some(prov), Some(ctype), label))
    } else {
        let kw2 = str_chars("cluster");
        let rest = if chars_starts_with(wb, &kw2) {
            sub_chars(wb, kw2.len(), wb.len())
        } else {
            sub_chars(wb, 0, wb.len())
        };
        assert(rest@ =~= without_prefix(wb@, "cluster"@));
        Ok((None, None, trim_chars(&rest)))
    }
}


/// Parses an Archflow DSL text into a diagram.
///
/// Lines are read in order; the first line that cannot be read gives a
/// `ParseError` with its number.  A text without any node is an error on its
/// last line.
pub fn parse_dsl(input: &str) -> (r: Result<DiagramIR, ArchflowError>)
    ensures
        match parse_dsl_spec(input@) {
            Ok(d) => r matches Ok(x) && x@ == d,
            Err(e) => r matches Err(x) && x@ == e,
        },
{
    let chars = str_chars(input);
    let lines = chars_lines(&chars);
    let ghost ls = rows(lines@);
    let mut p = Parser::new();
    let mut pos: usize = 0;
    while pos < lines.len()
        invariant
            ls == rows(lines@),
            ls == lines_of(input@),
            pos <= lines.len(),
            well_formed(p@),
            lines_spec(initial_state(), ls, 0) == lines_spec(p@, ls, pos as int),
        decreases lines.len() - pos,
    {
        let ghost before = p@;
        proof {
            lemma_line_advances(before, ls, pos as int);
        }
        match p.parse_line(&lines, pos) {
            Ok(next) => {
                pos = next;
            },
            Err(e) => {
                assert(lines_spec(before, ls, pos as int) matches Err(h) && h.error == e@);
                return Err(ArchflowError::ParseError { line: e.line, message: chars_to_string(&e.message) });
            },
        }
    }
    if p.nodes.len() == 0 {
        return Err(
            ArchflowError::ParseError {
                line: lines.len(),
                message: chars_to_string(&str_chars("Diagram must have at least one node")),
            },
        );
    }
    let metadata = Metadata {
        title: p.title,
        direction: p.direction,
        theme: p.theme,
        provider_sources: ProviderSources { entries: p.sources },
        layout: p.layout,
    };
    Ok(
        DiagramIR {
            version: chars_to_string(&str_chars("1.0.0")),
            metadata,
            nodes: p.nodes,
            clusters: p.clusters,
            edges: p.edges,
        },
    )
}

} // verus!
