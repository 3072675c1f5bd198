use archflow::render::{render_element, render_svg, SvgElement, SvgScene};

fn s(t: &str) -> String {
    t.to_string()
}

fn rect(stroke: &str, shadow: bool) -> SvgElement {
    SvgElement::Rect {
        x: s("1"),
        y: s("2"),
        width: s("30"),
        height: s("40.5"),
        rx: s("10"),
        fill: s("#FFF"),
        stroke: s(stroke),
        stroke_width: s("1.5"),
        shadow,
    }
}

fn written(e: &SvgElement, indent: usize) -> String {
    let mut buf: Vec<char> = Vec::new();
    render_element(&mut buf, e, indent);
    buf.into_iter().collect()
}

#[test]
fn rect_with_stroke_and_shadow() {
    assert_eq!(
        written(&rect("#000", true), 1),
        "  <rect x=\"1\" y=\"2\" width=\"30\" height=\"40.5\" rx=\"10\" fill=\"#FFF\" stroke=\"#000\" stroke-width=\"1.5\" filter=\"url(#shadow)\"/>\n"
    );
}

#[test]
fn rect_without_stroke_or_shadow() {
    assert_eq!(
        written(&rect("none", false), 0),
        "<rect x=\"1\" y=\"2\" width=\"30\" height=\"40.5\" rx=\"10\" fill=\"#FFF\"/>\n"
    );
}

#[test]
fn text_content_is_escaped() {
    let t = SvgElement::Text {
        x: s("5"),
        y: s("6"),
        content: s("A & <B>"),
        font_size: s("13"),
        font_family: s("sans"),
        fill: s("#111"),
        anchor: s("middle"),
        font_weight: s("500"),
    };
    assert_eq!(
        written(&t, 2),
        "    <text x=\"5\" y=\"6\" font-size=\"13\" font-family=\"sans\" fill=\"#111\" font-weight=\"500\" text-anchor=\"middle\" dominant-baseline=\"middle\">A &amp; &lt;B&gt;</text>\n"
    );
}

#[test]
fn path_with_dash_and_arrow() {
    let p = SvgElement::Path {
        d: s("M0 0 L10 10"),
        stroke: s("#999"),
        stroke_width: s("1.5"),
        stroke_dasharray: Some(s("4 2")),
        marker_end: true,
    };
    assert_eq!(
        written(&p, 1),
        "  <path d=\"M0 0 L10 10\" fill=\"none\" stroke=\"#999\" stroke-width=\"1.5\" stroke-linecap=\"round\" stroke-dasharray=\"4 2\" marker-end=\"url(#arrowhead)\"/>\n"
    );
}

#[test]
fn groups_indent_their_children() {
    let g = SvgElement::Group {
        id: s("outer"),
        children: vec![
            SvgElement::RawSvg { x: s("0"), y: s("0"), width: s("24"), height: s("24"), content: s("<circle/>") },
            SvgElement::Group { id: s("inner"), children: vec![rect("none", false)] },
        ],
    };
    assert_eq!(
        written(&g, 1),
        "  <g id=\"outer\">\n    <svg x=\"0\" y=\"0\" width=\"24\" height=\"24\">\n<circle/>\n    </svg>\n    <g id=\"inner\">\n      <rect x=\"1\" y=\"2\" width=\"30\" height=\"40.5\" rx=\"10\" fill=\"#FFF\"/>\n    </g>\n  </g>\n"
    );
}

#[test]
fn whole_document() {
    let scene = SvgScene {
        width: s("200"),
        height: s("100"),
        background: s("#FAFBFC"),
        edge_color: s("#959DA5"),
        elements: vec![rect("none", false)],
    };
    let doc = render_svg(&scene);
    assert!(doc.starts_with(
        "<svg xmlns=\"http://www.w3.org/2000/svg\" viewBox=\"0 0 200 100\" width=\"200\" height=\"100\">\n  <defs>\n"
    ));
    assert!(doc.contains("<path d=\"M0,0 L8,3 L0,6 L2,3 Z\" fill=\"#959DA5\"/>\n    </marker>\n  </defs>\n"));
    assert!(doc.ends_with(
        "  <rect width=\"100%\" height=\"100%\" fill=\"#FAFBFC\"/>\n  <rect x=\"1\" y=\"2\" width=\"30\" height=\"40.5\" rx=\"10\" fill=\"#FFF\"/>\n</svg>\n"
    ));
}
