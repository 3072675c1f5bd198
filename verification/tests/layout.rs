use archflow::dsl::parse_dsl;
use archflow::layout::{compute_layers, settle_ranks};
use archflow::model::{DiagramIR, EdgeDef, Metadata, NodeDef, ProviderSources};
use archflow::validate::validate;
use archflow::error::ArchflowError;

fn node(id: &str) -> NodeDef {
    NodeDef { id: id.to_string(), label: id.to_string(), provider: None, icon: None, icon_svg: None }
}

fn edge(a: &str, b: &str) -> EdgeDef {
    EdgeDef { from: a.to_string(), to: b.to_string(), label: None }
}

fn diagram(version: &str, nodes: Vec<NodeDef>, edges: Vec<EdgeDef>) -> DiagramIR {
    DiagramIR {
        version: version.to_string(),
        metadata: Metadata {
            title: None,
            direction: "TB".to_string(),
            theme: "default".to_string(),
            provider_sources: ProviderSources { entries: vec![] },
            layout: None,
        },
        nodes,
        clusters: vec![],
        edges,
    }
}

#[test]
fn ranks_of_a_chain_and_a_loner() {
    let ir = diagram("1.0.0", vec![node("c"), node("a"), node("b"), node("z")], vec![edge("a", "b"), edge("b", "c")]);
    let l = compute_layers(&ir);
    assert_eq!(l.ids, vec!["c", "a", "b", "z"]);
    assert_eq!(l.ranks, vec![2, 0, 1, 0]);
    assert_eq!(l.layers, vec![vec!["a", "z"], vec!["b"], vec!["c"]]);
}

#[test]
fn longest_path_decides_rank() {
    let ir = diagram(
        "1.0.0",
        vec![node("a"), node("b"), node("c"), node("d")],
        vec![edge("a", "d"), edge("a", "b"), edge("b", "c"), edge("c", "d")],
    );
    let l = compute_layers(&ir);
    assert_eq!(l.ranks, vec![0, 1, 2, 3]);
    assert_eq!(l.layers.len(), 4);
}

#[test]
fn cycles_stay_unsettled() {
    // b <-> c is a cycle fed by a; d hangs off the cycle.
    let ir = diagram(
        "1.0.0",
        vec![node("a"), node("b"), node("c"), node("d")],
        vec![edge("a", "b"), edge("b", "c"), edge("c", "b"), edge("c", "d")],
    );
    let l = compute_layers(&ir);
    assert_eq!(l.ranks, vec![0, 1, 0, 0]);
    assert_eq!(l.layers, vec![vec!["a", "c", "d"], vec!["b"]]);
}

#[test]
fn edges_to_unknown_nodes_are_ignored() {
    let ir = diagram("1.0.0", vec![node("a"), node("b")], vec![edge("a", "x"), edge("y", "b")]);
    let l = compute_layers(&ir);
    assert_eq!(l.ranks, vec![0, 0]);
    assert_eq!(l.layers, vec![vec!["a", "b"]]);
}

#[test]
fn duplicate_ids_share_one_rank() {
    let ir = diagram("1.0.0", vec![node("a"), node("b"), node("a")], vec![edge("b", "a")]);
    let l = compute_layers(&ir);
    assert_eq!(l.ids, vec!["a", "b"]);
    assert_eq!(l.ranks, vec![1, 0]);
}

#[test]
fn empty_diagram_has_one_empty_layer() {
    let ir = diagram("1.0.0", vec![], vec![]);
    let l = compute_layers(&ir);
    assert!(l.ids.is_empty());
    assert_eq!(l.layers, vec![Vec::<String>::new()]);
}

#[test]
fn settle_ranks_on_indices() {
    let (settled, ranks) = settle_ranks(4, &vec![(0, 1), (1, 2), (2, 2), (0, 3)]);
    assert_eq!(settled, vec![true, true, false, true]);
    assert_eq!(ranks, vec![0, 1, 2, 1]);
}

#[test]
fn every_edge_points_down_in_a_dag() {
    let ir = parse_dsl("A >> B >> C\nA >> C\nD >> B\nE").unwrap();
    let l = compute_layers(&ir);
    let rank = |id: &str| l.ranks[l.ids.iter().position(|x| x == id).unwrap()];
    for e in &ir.edges {
        assert!(rank(&e.to) > rank(&e.from));
    }
    let total: usize = l.layers.iter().map(|x| x.len()).sum();
    assert_eq!(total, ir.nodes.len());
}

#[test]
fn layering_is_deterministic() {
    let ir = parse_dsl("B >> A\nC >> A\nZ\nY >> Z").unwrap();
    let l1 = compute_layers(&ir);
    let l2 = compute_layers(&ir);
    assert_eq!(l1.ranks, l2.ranks);
    assert_eq!(l1.layers, l2.layers);
    assert_eq!(l1.layers, vec![vec!["b", "c", "y"], vec!["a", "z"]]);
}

fn schema_message(r: Result<(), ArchflowError>) -> String {
    r.unwrap_err().to_string()
}

#[test]
fn validate_checks() {
    assert!(validate(&diagram("1.0.0", vec![node("a")], vec![])).is_ok());
    assert_eq!(
        schema_message(validate(&diagram("2.0.0", vec![node("a")], vec![]))),
        "Invalid schema: Unsupported IR version: 2.0.0. Expected 1.0.0"
    );
    assert_eq!(
        schema_message(validate(&diagram("1.0.0", vec![], vec![]))),
        "Invalid schema: Diagram must have at least one node"
    );
    assert_eq!(
        schema_message(validate(&diagram("1.0.0", vec![node("a"), node("b"), node("b"), node("a")], vec![]))),
        "Invalid schema: Duplicate node ID: b"
    );
}

#[test]
fn parsed_diagrams_always_validate() {
    assert!(validate(&parse_dsl("A >> B\nC").unwrap()).is_ok());
    // "X Y" and "x-y" are two nodes whose labels give the id "x_y": the second
    // node takes "x_y_2"
    let ir = parse_dsl("X Y\nx-y").unwrap();
    assert_eq!(ir.nodes.len(), 2);
    assert_eq!(ir.nodes[0].id, "x_y");
    assert_eq!(ir.nodes[1].id, "x_y_2");
    assert!(validate(&ir).is_ok());
}

#[test]
fn every_node_settles_exactly_when_there_is_no_cycle() {
    let (settled, _) = settle_ranks(5, &vec![(0, 1), (1, 2), (0, 2), (3, 4), (4, 2)]);
    assert!(settled.iter().all(|s| *s));
    let (settled, _) = settle_ranks(5, &vec![(0, 1), (1, 2), (2, 3), (3, 1), (0, 4)]);
    assert_eq!(settled, vec![true, false, false, false, true]);
    let (settled, _) = settle_ranks(2, &vec![(1, 1)]);
    assert_eq!(settled, vec![true, false]);
}

#[test]
fn test_invalid_version() {
    let ir = diagram(
        "2.0.0",
        vec![NodeDef {
            id: "a".to_string(),
            label: "A".to_string(),
            provider: None,
            icon: None,
            icon_svg: None,
        }],
        vec![],
    );
    assert!(validate(&ir).is_err());
}

#[test]
fn test_empty_nodes() {
    let ir = diagram("1.0.0", vec![], vec![]);
    assert!(validate(&ir).is_err());
}
