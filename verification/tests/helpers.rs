use archflow::dsl::{
    extract_bracket_label, id_from_lowercase, parse_dsl, parse_node_spec, strip_prefix_ci, to_id,
};
use archflow::error::ArchflowError;
use archflow::model::{default_direction, default_theme};
use archflow::render::escape_xml;
use archflow::theme::{
    available, palette_slot, provider_cluster_preset, resolve_attribute, theme_kind, theme_values,
    ThemeKind,
};

#[test]
fn node_spec_with_provider_and_icon() {
    let s = parse_node_spec("aws:EC2 Web Server");
    assert_eq!(s.label, "Web Server");
    assert_eq!(s.provider, Some("aws".to_string()));
    assert_eq!(s.icon, Some("ec2".to_string()));
}

#[test]
fn node_spec_icon_only() {
    let s = parse_node_spec("aws:EC2");
    assert_eq!(s.label, "EC2");
    assert_eq!(s.provider, Some("aws".to_string()));
    assert_eq!(s.icon, Some("ec2".to_string()));
}

#[test]
fn node_spec_invalid_provider_is_plain_label() {
    let s = parse_node_spec("AWS:EC2 Web");
    assert_eq!(s.label, "AWS:EC2 Web");
    assert_eq!(s.provider, None);
    assert_eq!(s.icon, None);
}

#[test]
fn node_spec_drops_bracket_part() {
    let s = parse_node_spec("  Node B [label]  ");
    assert_eq!(s.label, "Node B");
    assert_eq!(s.provider, None);
}

#[test]
fn bracket_label_split() {
    assert_eq!(extract_bracket_label("Node B [some label]"), ("Node B", Some("some label")));
    assert_eq!(extract_bracket_label("Node B"), ("Node B", None));
    assert_eq!(extract_bracket_label("Node B []"), ("Node B []", None));
    assert_eq!(extract_bracket_label("Node B ]x["), ("Node B ]x[", None));
    assert_eq!(extract_bracket_label("  A [x] [y]  "), ("A [x]", Some("y")));
}

#[test]
fn prefix_without_case() {
    assert_eq!(strip_prefix_ci("Title: foo", "title:"), Some(" foo"));
    assert_eq!(strip_prefix_ci("TITLE:", "title:"), Some(""));
    assert_eq!(strip_prefix_ci("tit", "title:"), None);
    assert_eq!(strip_prefix_ci("theme: x", "title:"), None);
}

#[test]
fn ids_collapse_separators() {
    assert_eq!(to_id("Web  Server!"), "web_server");
    assert_eq!(to_id("__a__b__"), "a_b");
    assert_eq!(to_id("!!!"), "");
    assert_eq!(to_id(""), "");
    assert_eq!(to_id("K8s Pod-1"), "k8s_pod_1");
}

#[test]
fn id_shape_on_examples() {
    for label in ["Web Server", "  x  y ", "a--b", "Ünïcödé Node", "API/Gateway v2"] {
        let id = to_id(label);
        assert!(!id.starts_with('_') && !id.ends_with('_'));
        assert!(!id.contains("__"));
        assert!(id.chars().all(|c| c.is_ascii_alphanumeric() || c == '_'));
    }
}

#[test]
fn escape_all_markup() {
    assert_eq!(escape_xml("a & b < c > d \"e\" 'f'"), "a &amp; b &lt; c &gt; d &quot;e&quot; &apos;f&apos;");
    assert_eq!(escape_xml("plain"), "plain");
    assert_eq!(escape_xml(""), "");
    assert_eq!(escape_xml("&amp;"), "&amp;amp;");
}

#[test]
fn escaped_text_has_no_markup() {
    let out = escape_xml("<svg onload='x'>\"&\"</svg>");
    assert!(!out.contains('<') && !out.contains('>') && !out.contains('"') && !out.contains('\''));
}

#[test]
fn error_texts() {
    assert_eq!(ArchflowError::InvalidJson("x".to_string()).to_string(), "Invalid JSON: x");
    assert_eq!(ArchflowError::InvalidSchema("y".to_string()).to_string(), "Invalid schema: y");
    assert_eq!(ArchflowError::LayoutError("z".to_string()).to_string(), "Layout error: z");
    assert_eq!(ArchflowError::RenderError("w".to_string()).to_string(), "Render error: w");
    assert_eq!(
        ArchflowError::ParseError { line: 120, message: "bad".to_string() }.to_string(),
        "Parse error at line 120: bad"
    );
    assert_eq!(
        ArchflowError::ParseError { line: 0, message: String::new() }.to_string(),
        "Parse error at line 0: "
    );
}

#[test]
fn defaults() {
    assert_eq!(default_direction(), "TB");
    assert_eq!(default_theme(), "default");
}

#[test]
fn theme_names() {
    assert_eq!(theme_kind("dark"), ThemeKind::Dark);
    assert_eq!(theme_kind("minimal"), ThemeKind::Minimal);
    assert_eq!(theme_kind("ocean"), ThemeKind::Ocean);
    assert_eq!(theme_kind("sunset"), ThemeKind::Sunset);
    assert_eq!(theme_kind("forest"), ThemeKind::Forest);
    assert_eq!(theme_kind("default"), ThemeKind::Default);
    assert_eq!(theme_kind("Dark"), ThemeKind::Default);
    assert_eq!(theme_kind(""), ThemeKind::Default);
}

#[test]
fn cluster_presets() {
    let p = provider_cluster_preset(Some("aws"), Some("region")).unwrap();
    assert_eq!(p.fill, "rgba(255, 153, 0, 0.06)");
    assert_eq!(p.stroke, "#FF9900");
    assert_eq!(p.stroke_width_tenths, 20);
    assert_eq!(p.text_color, "#CC7A00");
    let k = provider_cluster_preset(Some("k8s"), Some("namespace")).unwrap();
    assert_eq!(k.stroke_width_tenths, 10);
    assert!(provider_cluster_preset(Some("aws"), Some("zone")).is_none());
    assert!(provider_cluster_preset(None, Some("vpc")).is_none());
    assert!(provider_cluster_preset(Some("gcp"), None).is_none());
}

#[test]
fn parse_error_line_numbers() {
    match parse_dsl("A >> B\n\ndirection: up") {
        Err(ArchflowError::ParseError { line, message }) => {
            assert_eq!(line, 3);
            assert_eq!(message, "Invalid direction 'up'. Must be TB or LR");
        }
        other => panic!("unexpected: {:?}", other),
    }
    match parse_dsl("# only comments\n\n") {
        Err(ArchflowError::ParseError { line, message }) => {
            assert_eq!(line, 2);
            assert_eq!(message, "Diagram must have at least one node");
        }
        other => panic!("unexpected: {:?}", other),
    }
}

#[test]
fn available_theme_list() {
    assert_eq!(available(), vec!["default", "dark", "minimal", "ocean", "sunset", "forest"]);
    let kinds: Vec<ThemeKind> = available().iter().map(|n| theme_kind(n)).collect();
    for i in 0..kinds.len() {
        for j in (i + 1)..kinds.len() {
            assert_ne!(kinds[i], kinds[j]);
        }
    }
}

#[test]
fn explicit_style_beats_preset_and_theme() {
    let own = Some("#111".to_string());
    let preset = Some("#222".to_string());
    assert_eq!(resolve_attribute(own.clone(), preset.clone(), "#333".to_string()), "#111");
    assert_eq!(resolve_attribute(None, preset, "#333".to_string()), "#222");
    assert_eq!(resolve_attribute(None, None, "#333".to_string()), "#333");
    assert_eq!(resolve_attribute(own, None, "#333".to_string()), "#111");
    assert_eq!(resolve_attribute(None, Some(2.0_f64), 1.5), 2.0);
}

#[test]
fn palette_repeats() {
    assert_eq!(palette_slot(0, 3), 0);
    assert_eq!(palette_slot(4, 3), 1);
    assert_eq!(palette_slot(5, 5), 0);
    assert_eq!(palette_slot(7, 1), 0);
}

#[test]
fn built_in_theme_values() {
    let d = theme_values(ThemeKind::Default);
    assert_eq!(d.name, "default");
    assert_eq!(d.background, "#FAFBFC");
    assert_eq!(d.node_palette.len(), 8);
    assert_eq!(d.node_palette[0].fill, "#4A90D9");
    assert_eq!(d.node_palette[7].stroke, "#525D61");
    assert_eq!(d.cluster_fills, vec![
        "rgba(74, 144, 217, 0.06)",
        "rgba(108, 92, 231, 0.06)",
        "rgba(0, 184, 148, 0.06)",
        "rgba(225, 112, 85, 0.06)",
    ]);
    assert_eq!(d.node_corner_radius_tenths, 100);
    assert_eq!(d.cluster_corner_radius_tenths, 160);
    assert_eq!(d.edge_stroke_width_tenths, 15);
    assert_eq!(d.font_size_tenths, 130);
    assert_eq!(d.label_font_size_tenths, 110);
    assert_eq!(d.font_family, "'Inter', 'SF Pro Display', system-ui, -apple-system, sans-serif");
    assert!(d.node_shadow);

    let dark = theme_values(ThemeKind::Dark);
    assert_eq!(dark.background, "#1A1B26");
    assert_eq!(dark.node_text_color, "#1A1B26");
    assert_eq!(dark.node_palette[3].fill, "#FF9E64");
    assert_eq!(dark.cluster_stroke, "#33364A");

    let minimal = theme_values(ThemeKind::Minimal);
    assert_eq!(minimal.node_palette.len(), 2);
    assert_eq!(minimal.node_corner_radius_tenths, 80);
    assert_eq!(minimal.cluster_corner_radius_tenths, 120);
    assert_eq!(minimal.edge_stroke_width_tenths, 10);
    assert!(!minimal.node_shadow);

    assert_eq!(theme_values(ThemeKind::Ocean).node_corner_radius_tenths, 120);
    assert_eq!(theme_values(ThemeKind::Sunset).edge_stroke, "#FDBA74");
    assert_eq!(theme_values(ThemeKind::Forest).cluster_text_color, "#166534");
}

#[test]
fn every_listed_theme_has_colours_and_its_name() {
    for name in available() {
        let t = theme_values(theme_kind(name));
        assert_eq!(t.name, name);
        assert!(!t.node_palette.is_empty());
        assert!(!t.cluster_fills.is_empty());
    }
    assert_eq!(theme_values(theme_kind("no such theme")).name, "default");
}

#[test]
fn ids_from_lowered_text() {
    assert_eq!(id_from_lowercase("web server!"), "web_server");
    assert_eq!(id_from_lowercase("__a--b__"), "a_b");
    assert_eq!(id_from_lowercase("already_an_id"), "already_an_id");
    assert_eq!(id_from_lowercase("!!!"), "");
    // to_id lower-cases first; what follows is id_from_lowercase
    assert_eq!(to_id("  API Gateway "), id_from_lowercase("api gateway"));
}
