use archflow::dsl::parse_dsl;
use archflow::error::ArchflowError;

fn message(r: Result<archflow::model::DiagramIR, ArchflowError>) -> String {
    r.unwrap_err().to_string()
}

#[test]
fn layout_settings_are_kept_as_numbers() {
    let ir = parse_dsl("icon_size: 64\nnode_width: 1.5e2\nSpacing: .5\nA").unwrap();
    let l = ir.metadata.layout.unwrap();
    assert_eq!(l.icon_size, Some("64".to_string()));
    assert_eq!(l.node_width, Some("1.5e2".to_string()));
    assert_eq!(l.h_spacing, Some(".5".to_string()));
    assert_eq!(l.v_spacing, Some(".5".to_string()));
    assert_eq!(l.node_height, None);
}

#[test]
fn layout_settings_reject_non_numbers() {
    assert!(message(parse_dsl("icon_size: big\nA")).contains("Invalid icon_size: 'big'"));
    assert!(message(parse_dsl("node_width: 1.2.3\nA")).contains("Invalid node_width"));
    assert!(message(parse_dsl("spacing: e5\nA")).contains("Invalid spacing"));
    assert!(parse_dsl("spacing: -inf\nA").is_ok());
    assert!(parse_dsl("spacing: NaN\nA").is_ok());
    assert!(parse_dsl("spacing: 7.\nA").is_ok());
    assert!(parse_dsl("spacing: 1e\nA").is_err());
}

#[test]
fn direction_is_uppercased() {
    let ir = parse_dsl("direction: lr\nA").unwrap();
    assert_eq!(ir.metadata.direction, "LR");
    let ir = parse_dsl("A").unwrap();
    assert_eq!(ir.metadata.direction, "TB");
    assert_eq!(ir.metadata.theme, "default");
    assert_eq!(ir.metadata.title, None);
}

#[test]
fn repeated_use_keeps_last_source() {
    let ir = parse_dsl("use aws from a\nuse aws from b\nuse gcp\nA").unwrap();
    assert_eq!(ir.metadata.provider_sources.len(), 2);
    assert_eq!(ir.metadata.provider_sources.get("aws").unwrap(), Some("b".to_string()));
    assert_eq!(ir.metadata.provider_sources.get("gcp").unwrap(), None);
    assert_eq!(ir.metadata.provider_sources.get("k8s"), None);
}

#[test]
fn unexpected_syntax() {
    let m = message(parse_dsl("A\n{ oops"));
    assert_eq!(m, "Parse error at line 2: Unexpected syntax: '{ oops'");
}

#[test]
fn closing_brace_alone_is_ignored() {
    let ir = parse_dsl("A\n}").unwrap();
    assert_eq!(ir.nodes.len(), 1);
}

#[test]
fn empty_node_label() {
    let m = message(parse_dsl("A >> !!!"));
    assert_eq!(m, "Parse error at line 1: Empty node label in: '!!!'");
}

#[test]
fn cluster_header_errors() {
    let m = message(parse_dsl("cluster:aws {\n}"));
    assert!(m.contains("Expected cluster:provider:type Label {"));
    let m = message(parse_dsl("cluster:aws:vpc{\n}"));
    assert!(m.contains("Expected cluster:provider:type Label {"));
    let m = message(parse_dsl("cluster {\n}"));
    assert_eq!(m, "Parse error at line 1: Cluster must have a label");
}

#[test]
fn edges_refer_to_nodes() {
    let ir = parse_dsl("cluster C {\n A >> B >> C [x]\n}\nD >> A").unwrap();
    for e in &ir.edges {
        assert!(ir.nodes.iter().any(|n| n.id == e.from));
        assert!(ir.nodes.iter().any(|n| n.id == e.to));
    }
    for c in &ir.clusters {
        for child in &c.children {
            assert!(ir.nodes.iter().any(|n| &n.id == child));
        }
    }
    assert_eq!(ir.clusters[0].children, vec!["a", "b", "c"]);
}

#[test]
fn node_reference_is_stable() {
    let ir = parse_dsl("aws:EC2 Web\naws:ec2 Web\naws:EC2 Web >> Web").unwrap();
    assert_eq!(ir.nodes.len(), 2);
    assert_eq!(ir.nodes[0].id, "web");
    assert_eq!(ir.nodes[1].id, "web_2");
    assert_eq!(ir.edges[0].from, "web");
    assert_eq!(ir.edges[0].to, "web_2");
}

#[test]
fn crlf_lines() {
    let ir = parse_dsl("title: T\r\nA >> B\r\n").unwrap();
    assert_eq!(ir.metadata.title, Some("T".to_string()));
    assert_eq!(ir.edges.len(), 1);
}

#[test]
fn provider_less_node_gets_its_own_id() {
    let ir = parse_dsl("use aws\naws:EC2 App >> App").unwrap();
    assert_eq!(ir.nodes.len(), 2);
    assert_eq!(ir.nodes[0].id, "app");
    assert_eq!(ir.nodes[1].id, "app_2");
    assert_eq!(ir.edges[0].to, "app_2");
}

#[test]
fn prefixed_id_taken_too_gets_a_number() {
    let ir = parse_dsl("use aws\nAws App\nApp\naws:EC2 App").unwrap();
    let ids: Vec<&str> = ir.nodes.iter().map(|n| n.id.as_str()).collect();
    assert_eq!(ids, vec!["aws_app", "app", "aws_app_2"]);
}

#[test]
fn many_nodes_with_one_id() {
    let ir = parse_dsl("App\napp\nAPP\napp!").unwrap();
    let ids: Vec<&str> = ir.nodes.iter().map(|n| n.id.as_str()).collect();
    assert_eq!(ids, vec!["app", "app_2", "app_3", "app_4"]);
}

#[test]
fn nested_cluster_blocks() {
    let ir = parse_dsl("cluster Outer {\n  cluster Inner {\n    A\n  }\n  B\n}").unwrap();
    assert_eq!(ir.clusters.len(), 2);
    assert_eq!(ir.clusters[0].label, "Inner");
    assert_eq!(ir.clusters[0].children, vec!["a"]);
    assert_eq!(ir.clusters[1].label, "Outer");
    assert_eq!(ir.clusters[1].children, vec!["a", "b"]);
    assert!(ir.nodes.iter().all(|n| !n.label.contains('{')));
    assert_eq!(ir.nodes.len(), 2);
}

#[test]
fn nested_cluster_left_open() {
    match parse_dsl("cluster Outer {\n  cluster Inner {\n    A\n}") {
        Err(ArchflowError::ParseError { line, message }) => {
            assert_eq!(line, 1);
            assert_eq!(message, "Unclosed cluster block: 'Outer'");
        },
        _ => panic!("expected a parse error"),
    }
}
