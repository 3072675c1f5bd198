use archflow::dsl::{is_valid_provider, parse_dsl, to_id};

// ─── Basic parsing ───

#[test]
fn test_basic_dsl() {
    let ir = parse_dsl("title: Hello\ndirection: LR\n\nNode A >> Node B").unwrap();
    assert_eq!(ir.metadata.title, Some("Hello".to_string()));
    assert_eq!(ir.metadata.direction, "LR");
    assert_eq!(ir.nodes.len(), 2);
    assert_eq!(ir.edges.len(), 1);
    assert_eq!(ir.edges[0].from, "node_a");
    assert_eq!(ir.edges[0].to, "node_b");
}

#[test]
fn test_edge_chain() {
    let ir = parse_dsl("A >> B >> C >> D").unwrap();
    assert_eq!(ir.nodes.len(), 4);
    assert_eq!(ir.edges.len(), 3);
    assert_eq!(ir.edges[0].from, "a");
    assert_eq!(ir.edges[0].to, "b");
    assert_eq!(ir.edges[2].from, "c");
    assert_eq!(ir.edges[2].to, "d");
}

#[test]
fn test_comments() {
    let ir = parse_dsl("# This is a comment\n// Another\nNode A >> Node B").unwrap();
    assert_eq!(ir.nodes.len(), 2);
}

#[test]
fn test_standalone_node() {
    let ir = parse_dsl("My Node\nMy Node >> Other").unwrap();
    assert_eq!(ir.nodes.len(), 2);
    assert_eq!(ir.nodes[0].label, "My Node");
}

#[test]
fn test_version_is_set() {
    let ir = parse_dsl("A >> B").unwrap();
    assert_eq!(ir.version, "1.0.0");
}

#[test]
fn test_node_dedup() {
    let ir = parse_dsl("Node A >> Node B\nNode B >> Node C\nNode A >> Node C").unwrap();
    assert_eq!(ir.nodes.len(), 3);
}

// ─── Edge labels with [] ───

#[test]
fn test_edge_with_bracket_label() {
    let ir = parse_dsl("Node A >> Node B [connects to]").unwrap();
    assert_eq!(ir.edges.len(), 1);
    assert_eq!(ir.edges[0].label, Some("connects to".to_string()));
}

#[test]
fn test_edge_chain_label_only_on_last() {
    let ir = parse_dsl("A >> B >> C [final hop]").unwrap();
    assert_eq!(ir.edges.len(), 2);
    assert_eq!(ir.edges[0].label, None);
    assert_eq!(ir.edges[1].label, Some("final hop".to_string()));
}

#[test]
fn test_edge_label_with_provider() {
    let ir = parse_dsl("use aws\naws:EC2 Web >> aws:RDS DB [SQL queries]").unwrap();
    assert_eq!(ir.edges.len(), 1);
    assert_eq!(ir.edges[0].label, Some("SQL queries".to_string()));
}

#[test]
fn test_edge_label_with_colon_inside() {
    let ir = parse_dsl("A >> B [port: 5432]").unwrap();
    assert_eq!(ir.edges[0].label, Some("port: 5432".to_string()));
}

#[test]
fn test_edge_no_label() {
    let ir = parse_dsl("A >> B").unwrap();
    assert_eq!(ir.edges[0].label, None);
}

// ─── Metadata ───

#[test]
fn test_theme() {
    let ir = parse_dsl("theme: dark\nNode A >> Node B").unwrap();
    assert_eq!(ir.metadata.theme, "dark");
}

#[test]
fn test_invalid_direction_error() {
    let result = parse_dsl("direction: XY\nNode A >> Node B");
    assert!(result.is_err());
    let err = result.unwrap_err().to_string();
    assert!(err.contains("Invalid direction"));
}

// ─── use statements ───

#[test]
fn test_use_statement() {
    let ir = parse_dsl("use aws\nuse gcp from github:org/repo\nNode A >> Node B").unwrap();
    assert_eq!(ir.metadata.provider_sources.len(), 2);
    assert_eq!(ir.metadata.provider_sources.get("aws").unwrap(), None);
    assert_eq!(
        ir.metadata.provider_sources.get("gcp").unwrap(),
        Some("github:org/repo".to_string())
    );
}

#[test]
fn test_use_from_url() {
    let ir = parse_dsl("use aws from https://example.com/icons\nNode A >> Node B").unwrap();
    assert_eq!(
        ir.metadata.provider_sources.get("aws").unwrap(),
        Some("https://example.com/icons".to_string())
    );
}

#[test]
fn test_use_empty_provider_error() {
    let result = parse_dsl("use \nNode A >> Node B");
    assert!(result.is_err());
}

#[test]
fn test_use_from_empty_source_error() {
    let result = parse_dsl("use aws from \nNode A >> Node B");
    assert!(result.is_err());
}

// ─── Provider nodes ───

#[test]
fn test_provider_node() {
    let ir = parse_dsl("use aws\naws:EC2 Web Server >> aws:RDS Database").unwrap();
    assert_eq!(ir.nodes.len(), 2);
    assert_eq!(ir.nodes[0].provider, Some("aws".to_string()));
    assert_eq!(ir.nodes[0].icon, Some("ec2".to_string()));
    assert_eq!(ir.nodes[0].label, "Web Server");
    assert_eq!(ir.nodes[0].id, "web_server");
    assert_eq!(ir.nodes[1].provider, Some("aws".to_string()));
    assert_eq!(ir.nodes[1].icon, Some("rds".to_string()));
    assert_eq!(ir.nodes[1].label, "Database");
}

#[test]
fn test_hyphenated_provider_node() {
    let ir = parse_dsl("use my-cloud\nmy-cloud:vm App >> Node B").unwrap();
    assert_eq!(ir.nodes[0].provider, Some("my-cloud".to_string()));
    assert_eq!(ir.nodes[0].icon, Some("vm".to_string()));
    assert_eq!(ir.nodes[0].label, "App");
}

#[test]
fn test_same_label_different_provider_not_merged() {
    let ir = parse_dsl("use aws\nuse gcp\naws:EC2 App >> gcp:GCE App").unwrap();
    assert_eq!(ir.nodes.len(), 2);
    // Second node should be disambiguated
    assert_ne!(ir.nodes[0].id, ir.nodes[1].id);
}

// ─── Clusters ───

#[test]
fn test_cluster() {
    let ir = parse_dsl("cluster My Group {\n  Node A\n  Node B\n}\nNode A >> Node B").unwrap();
    assert_eq!(ir.clusters.len(), 1);
    assert_eq!(ir.clusters[0].label, "My Group");
    assert_eq!(ir.clusters[0].id, "my_group");
    assert_eq!(ir.clusters[0].children, vec!["node_a", "node_b"]);
}

#[test]
fn test_provider_cluster() {
    let ir = parse_dsl(
        "use aws\ncluster:aws:vpc Production VPC {\n  aws:EC2 Web\n}\naws:EC2 Web >> Node B",
    )
    .unwrap();
    assert_eq!(ir.clusters.len(), 1);
    assert_eq!(ir.clusters[0].provider, Some("aws".to_string()));
    assert_eq!(ir.clusters[0].cluster_type, Some("vpc".to_string()));
    assert_eq!(ir.clusters[0].label, "Production VPC");
    assert_eq!(ir.clusters[0].children, vec!["web"]);
}

#[test]
fn test_edges_inside_cluster_add_children() {
    let dsl = "cluster Backend {\n  API >> Database\n  API >> Cache\n}";
    let ir = parse_dsl(dsl).unwrap();
    assert_eq!(ir.clusters[0].children.len(), 3);
    assert!(ir.clusters[0].children.contains(&"api".to_string()));
    assert!(ir.clusters[0].children.contains(&"database".to_string()));
    assert!(ir.clusters[0].children.contains(&"cache".to_string()));
    assert_eq!(ir.edges.len(), 2);
}

#[test]
fn test_unclosed_cluster_error() {
    let result = parse_dsl("cluster Backend {\n  API\n  DB");
    assert!(result.is_err());
    let err = result.unwrap_err().to_string();
    assert!(err.contains("Unclosed cluster"));
}

#[test]
fn test_cluster_no_label_error() {
    let result = parse_dsl("cluster {\n  Node A\n}");
    assert!(result.is_err());
}

#[test]
fn test_cluster_invalid_provider_error() {
    let result = parse_dsl("cluster:INVALID:vpc My VPC {\n  A\n}\nA >> B");
    assert!(result.is_err());
    let err = result.unwrap_err().to_string();
    assert!(err.contains("Invalid provider"));
}

#[test]
fn test_cluster_invalid_type_error() {
    let result = parse_dsl("cluster:aws:INVALID! My VPC {\n  A\n}\nA >> B");
    assert!(result.is_err());
    let err = result.unwrap_err().to_string();
    assert!(err.contains("Invalid cluster type"));
}

// ─── Error cases ───

#[test]
fn test_empty_diagram_error() {
    let result = parse_dsl("title: Empty\n# nothing here");
    assert!(result.is_err());
}

// ─── Helpers ───

#[test]
fn test_to_id() {
    assert_eq!(to_id("Web Server"), "web_server");
    assert_eq!(to_id("API Gateway"), "api_gateway");
    assert_eq!(to_id("  Trimmed  "), "trimmed");
    assert_eq!(to_id("node-with-dashes"), "node_with_dashes");
}

#[test]
fn test_is_valid_provider() {
    assert!(is_valid_provider("aws"));
    assert!(is_valid_provider("my-cloud"));
    assert!(is_valid_provider("k8s"));
    assert!(!is_valid_provider(""));
    assert!(!is_valid_provider("AWS"));
    assert!(!is_valid_provider("my cloud"));
    assert!(!is_valid_provider("bad!name"));
}

// ─── Integration ───

#[test]
fn test_full_diagram() {
    let dsl = r#"
title: AWS Web Architecture
direction: LR
theme: default
use aws

aws:ELB Load Balancer >> aws:EC2 Web Server >> aws:RDS Database
aws:EC2 Web Server >> aws:S3 Static Assets

cluster:aws:region US East 1 {
  aws:ELB Load Balancer
  aws:EC2 Web Server
  aws:RDS Database
  aws:S3 Static Assets
}

cluster:aws:vpc Production VPC {
  aws:EC2 Web Server
  aws:RDS Database
}
"#;
    let ir = parse_dsl(dsl).unwrap();
    assert_eq!(ir.metadata.title, Some("AWS Web Architecture".to_string()));
    assert_eq!(ir.metadata.direction, "LR");
    assert_eq!(ir.nodes.len(), 4);
    assert_eq!(ir.edges.len(), 3);
    assert_eq!(ir.clusters.len(), 2);
    assert_eq!(ir.clusters[0].provider, Some("aws".to_string()));
    assert_eq!(ir.clusters[0].cluster_type, Some("region".to_string()));
    assert_eq!(ir.clusters[0].children.len(), 4);
    assert_eq!(ir.clusters[1].children.len(), 2);
    assert!(ir.metadata.provider_sources.contains_key("aws"));
}

#[test]
fn test_multiple_providers() {
    let dsl = r#"
use aws
use gcp from github:my-org/icons

aws:EC2 Compute >> gcp:cloud-sql Database
"#;
    let ir = parse_dsl(dsl).unwrap();
    assert_eq!(ir.nodes.len(), 2);
    assert_eq!(ir.nodes[0].provider, Some("aws".to_string()));
    assert_eq!(ir.nodes[1].provider, Some("gcp".to_string()));
    assert_eq!(ir.metadata.provider_sources.len(), 2);
}
