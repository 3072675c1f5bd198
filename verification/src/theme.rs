//! Theme names and colours.

use vstd::prelude::*;
use crate::model::views;
use crate::text::{chars_to_string, str_chars};

verus! {

/// A fill and stroke colour pair for nodes.
#[derive(Debug, Clone)]
pub struct NodeColor {
    pub fill: String,
    pub stroke: String,
}

/// A colour pair as plain values.
pub struct NodeColorView {
    pub fill: Seq<char>,
    pub stroke: Seq<char>,
}

impl View for NodeColor {
    type V = NodeColorView;

    open spec fn view(&self) -> NodeColorView {
        NodeColorView { fill: self.fill@, stroke: self.stroke@ }
    }
}

/// The built-in themes.
#[derive(Debug, Clone, Copy, PartialEq, Eq, Structural)]
pub enum ThemeKind {
    Default,
    Dark,
    Minimal,
    Ocean,
    Sunset,
    Forest,
}

/// The theme a name selects: `dark`, `minimal`, `ocean`, `sunset` and
/// `forest` select their themes, and every other name the default theme.
pub open spec fn theme_kind_of(name: Seq<char>) -> ThemeKind {
    if name == "dark"@ {
        ThemeKind::Dark
    } else if name == "minimal"@ {
        ThemeKind::Minimal
    } else if name == "ocean"@ {
        ThemeKind::Ocean
    } else if name == "sunset"@ {
        ThemeKind::Sunset
    } else if name == "forest"@ {
        ThemeKind::Forest
    } else {
        ThemeKind::Default
    }
}

fn str_eq(a: &str, b: &str) -> (r: bool)
    ensures
        r == (a@ == b@),
{
    let x = crate::text::str_chars(a);
    let y = crate::text::str_chars(b);
    crate::text::chars_eq(&x, &y)
}

/// The theme a name selects; unknown names fall back to the default theme.
pub fn theme_kind(name: &str) -> (k: ThemeKind)
    ensures
        k == theme_kind_of(name@),
{
    if str_eq(name, "dark") {
        ThemeKind::Dark
    } else if str_eq(name, "minimal") {
        ThemeKind::Minimal
    } else if str_eq(name, "ocean") {
        ThemeKind::Ocean
    } else if str_eq(name, "sunset") {
        ThemeKind::Sunset
    } else if str_eq(name, "forest") {
        ThemeKind::Forest
    } else {
        ThemeKind::Default
    }
}

/// The names of the built-in themes, in the order they are listed.
pub open spec fn theme_names() -> Seq<Seq<char>> {
    seq!["default"@, "dark"@, "minimal"@, "ocean"@, "sunset"@, "forest"@]
}

/// The names of the built-in themes.
pub fn available() -> (names: Vec<&'static str>)
    ensures
        names@.len() == theme_names().len(),
        forall|i: int| 0 <= i < names@.len() ==> (#[trigger] names@[i])@ == theme_names()[i],
{
    let names = vec!["default", "dark", "minimal", "ocean", "sunset", "forest"];
    proof {
        assert(names@[0]@ == "default"@);
    }
    names
}

/// Each listed theme name selects a theme of its own, and together they
/// select every built-in theme.
pub proof fn lemma_available_names_select_each_theme()
    ensures
        theme_kind_of(theme_names()[0]) == ThemeKind::Default,
        theme_kind_of(theme_names()[1]) == ThemeKind::Dark,
        theme_kind_of(theme_names()[2]) == ThemeKind::Minimal,
        theme_kind_of(theme_names()[3]) == ThemeKind::Ocean,
        theme_kind_of(theme_names()[4]) == ThemeKind::Sunset,
        theme_kind_of(theme_names()[5]) == ThemeKind::Forest,
        forall|i: int, j: int|
            0 <= i < j < theme_names().len() ==> theme_kind_of(#[trigger] theme_names()[i])
                != theme_kind_of(#[trigger] theme_names()[j]),
{
    reveal_strlit("default");
    reveal_strlit("dark");
    reveal_strlit("minimal");
    reveal_strlit("ocean");
    reveal_strlit("sunset");
    reveal_strlit("forest");
    let t = theme_names();
    assert(t[0][0] == 'd' && t[0][1] == 'e' && t[0].len() == 7);
    assert(t[1][0] == 'd' && t[1][1] == 'a' && t[1].len() == 4);
    assert(t[2][0] == 'm' && t[2].len() == 7);
    assert(t[3][0] == 'o' && t[3].len() == 5);
    assert(t[4][0] == 's' && t[4].len() == 6);
    assert(t[5][0] == 'f' && t[5].len() == 6);
    assert("dark"@[0] == 'd' && "dark"@[1] == 'a' && "minimal"@[0] == 'm' && "ocean"@[0] == 'o');
    assert("sunset"@[0] == 's' && "forest"@[0] == 'f');
}

// ════════════════════════════ the built-in themes ════════════════════════════

/// The values of a built-in theme.  Sizes are in tenths of a pixel.
#[derive(Debug, Clone)]
pub struct ThemeValues {
    pub name: String,
    pub background: String,
    pub node_palette: Vec<NodeColor>,
    pub node_text_color: String,
    pub node_corner_radius_tenths: u32,
    pub cluster_fills: Vec<String>,
    pub cluster_stroke: String,
    pub cluster_text_color: String,
    pub cluster_corner_radius_tenths: u32,
    pub edge_stroke: String,
    pub edge_stroke_width_tenths: u32,
    pub font_family: String,
    pub font_size_tenths: u32,
    pub label_font_size_tenths: u32,
    pub node_shadow: bool,
}

/// The values of a theme as plain values.
pub struct ThemeView {
    pub name: Seq<char>,
    pub background: Seq<char>,
    pub node_palette: Seq<NodeColorView>,
    pub node_text_color: Seq<char>,
    pub node_corner_radius_tenths: u32,
    pub cluster_fills: Seq<Seq<char>>,
    pub cluster_stroke: Seq<char>,
    pub cluster_text_color: Seq<char>,
    pub cluster_corner_radius_tenths: u32,
    pub edge_stroke: Seq<char>,
    pub edge_stroke_width_tenths: u32,
    pub font_family: Seq<char>,
    pub font_size_tenths: u32,
    pub label_font_size_tenths: u32,
    pub node_shadow: bool,
}

impl View for ThemeValues {
    type V = ThemeView;

    open spec fn view(&self) -> ThemeView {
        ThemeView {
            name: self.name@,
            background: self.background@,
            node_palette: views(self.node_palette@),
            node_text_color: self.node_text_color@,
            node_corner_radius_tenths: self.node_corner_radius_tenths,
            cluster_fills: self.cluster_fills.deep_view(),
            cluster_stroke: self.cluster_stroke@,
            cluster_text_color: self.cluster_text_color@,
            cluster_corner_radius_tenths: self.cluster_corner_radius_tenths,
            edge_stroke: self.edge_stroke@,
            edge_stroke_width_tenths: self.edge_stroke_width_tenths,
            font_family: self.font_family@,
            font_size_tenths: self.font_size_tenths,
            label_font_size_tenths: self.label_font_size_tenths,
            node_shadow: self.node_shadow,
        }
    }
}

/// The fonts that every built-in theme asks for.
pub open spec fn font_family_of() -> Seq<char> {
    "'Inter', 'SF Pro Display', system-ui, -apple-system, sans-serif"@
}

/// The values of the default theme.
pub open spec fn default_values() -> ThemeView {
    ThemeView {
        name: "default"@,
        background: "#FAFBFC"@,
        node_palette: seq![NodeColorView { fill: "#4A90D9"@, stroke: "#3A7BC8"@ }, NodeColorView { fill: "#6C5CE7"@, stroke: "#5A4BD6"@ }, NodeColorView { fill: "#00B894"@, stroke: "#00A383"@ }, NodeColorView { fill: "#E17055"@, stroke: "#D05F44"@ }, NodeColorView { fill: "#FD79A8"@, stroke: "#EC6897"@ }, NodeColorView { fill: "#00CEC9"@, stroke: "#00BDB8"@ }, NodeColorView { fill: "#FDCB6E"@, stroke: "#ECBA5D"@ }, NodeColorView { fill: "#636E72"@, stroke: "#525D61"@ }],
        node_text_color: "#FFFFFF"@,
        node_corner_radius_tenths: 100,
        cluster_fills: seq!["rgba(74, 144, 217, 0.06)"@, "rgba(108, 92, 231, 0.06)"@, "rgba(0, 184, 148, 0.06)"@, "rgba(225, 112, 85, 0.06)"@],
        cluster_stroke: "#E1E4E8"@,
        cluster_text_color: "#586069"@,
        cluster_corner_radius_tenths: 160,
        edge_stroke: "#959DA5"@,
        edge_stroke_width_tenths: 15,
        font_family: font_family_of(),
        font_size_tenths: 130,
        label_font_size_tenths: 110,
        node_shadow: true,
    }
}

/// The values of the dark theme.
pub open spec fn dark_values() -> ThemeView {
    ThemeView {
        name: "dark"@,
        background: "#1A1B26"@,
        node_palette: seq![NodeColorView { fill: "#7AA2F7"@, stroke: "#6A92E7"@ }, NodeColorView { fill: "#BB9AF7"@, stroke: "#AB8AE7"@ }, NodeColorView { fill: "#9ECE6A"@, stroke: "#8EBE5A"@ }, NodeColorView { fill: "#FF9E64"@, stroke: "#EF8E54"@ }, NodeColorView { fill: "#F7768E"@, stroke: "#E7667E"@ }, NodeColorView { fill: "#2AC3DE"@, stroke: "#1AB3CE"@ }, NodeColorView { fill: "#E0AF68"@, stroke: "#D09F58"@ }, NodeColorView { fill: "#A9B1D6"@, stroke: "#99A1C6"@ }],
        node_text_color: "#1A1B26"@,
        node_corner_radius_tenths: 100,
        cluster_fills: seq!["rgba(122, 162, 247, 0.08)"@, "rgba(187, 154, 247, 0.08)"@, "rgba(158, 206, 106, 0.08)"@, "rgba(255, 158, 100, 0.08)"@],
        cluster_stroke: "#33364A"@,
        cluster_text_color: "#A9B1D6"@,
        cluster_corner_radius_tenths: 160,
        edge_stroke: "#565F89"@,
        edge_stroke_width_tenths: 15,
        font_family: font_family_of(),
        font_size_tenths: 130,
        label_font_size_tenths: 110,
        node_shadow: true,
    }
}

/// The values of the minimal theme.
pub open spec fn minimal_values() -> ThemeView {
    ThemeView {
        name: "minimal"@,
        background: "#FFFFFF"@,
        node_palette: seq![NodeColorView { fill: "#FFFFFF"@, stroke: "#D1D5DB"@ }, NodeColorView { fill: "#FFFFFF"@, stroke: "#D1D5DB"@ }],
        node_text_color: "#111827"@,
        node_corner_radius_tenths: 80,
        cluster_fills: seq!["rgba(0, 0, 0, 0.02)"@, "rgba(0, 0, 0, 0.02)"@],
        cluster_stroke: "#E5E7EB"@,
        cluster_text_color: "#6B7280"@,
        cluster_corner_radius_tenths: 120,
        edge_stroke: "#9CA3AF"@,
        edge_stroke_width_tenths: 10,
        font_family: font_family_of(),
        font_size_tenths: 130,
        label_font_size_tenths: 110,
        node_shadow: false,
    }
}

/// The values of the ocean theme.
pub open spec fn ocean_values() -> ThemeView {
    ThemeView {
        name: "ocean"@,
        background: "#F0F9FF"@,
        node_palette: seq![NodeColorView { fill: "#0EA5E9"@, stroke: "#0284C7"@ }, NodeColorView { fill: "#06B6D4"@, stroke: "#0891B2"@ }, NodeColorView { fill: "#3B82F6"@, stroke: "#2563EB"@ }, NodeColorView { fill: "#6366F1"@, stroke: "#4F46E5"@ }, NodeColorView { fill: "#8B5CF6"@, stroke: "#7C3AED"@ }, NodeColorView { fill: "#14B8A6"@, stroke: "#0D9488"@ }],
        node_text_color: "#FFFFFF"@,
        node_corner_radius_tenths: 120,
        cluster_fills: seq!["rgba(14, 165, 233, 0.06)"@, "rgba(6, 182, 212, 0.06)"@, "rgba(59, 130, 246, 0.06)"@, "rgba(99, 102, 241, 0.06)"@],
        cluster_stroke: "#BAE6FD"@,
        cluster_text_color: "#0369A1"@,
        cluster_corner_radius_tenths: 160,
        edge_stroke: "#7DD3FC"@,
        edge_stroke_width_tenths: 15,
        font_family: font_family_of(),
        font_size_tenths: 130,
        label_font_size_tenths: 110,
        node_shadow: true,
    }
}

/// The values of the sunset theme.
pub open spec fn sunset_values() -> ThemeView {
    ThemeView {
        name: "sunset"@,
        background: "#FFFBF5"@,
        node_palette: seq![NodeColorView { fill: "#F97316"@, stroke: "#EA580C"@ }, NodeColorView { fill: "#EF4444"@, stroke: "#DC2626"@ }, NodeColorView { fill: "#F59E0B"@, stroke: "#D97706"@ }, NodeColorView { fill: "#EC4899"@, stroke: "#DB2777"@ }, NodeColorView { fill: "#F43F5E"@, stroke: "#E11D48"@ }, NodeColorView { fill: "#A855F7"@, stroke: "#9333EA"@ }],
        node_text_color: "#FFFFFF"@,
        node_corner_radius_tenths: 100,
        cluster_fills: seq!["rgba(249, 115, 22, 0.06)"@, "rgba(239, 68, 68, 0.06)"@, "rgba(245, 158, 11, 0.06)"@, "rgba(236, 72, 153, 0.06)"@],
        cluster_stroke: "#FED7AA"@,
        cluster_text_color: "#9A3412"@,
        cluster_corner_radius_tenths: 160,
        edge_stroke: "#FDBA74"@,
        edge_stroke_width_tenths: 15,
        font_family: font_family_of(),
        font_size_tenths: 130,
        label_font_size_tenths: 110,
        node_shadow: true,
    }
}

/// The values of the forest theme.
pub open spec fn forest_values() -> ThemeView {
    ThemeView {
        name: "forest"@,
        background: "#F0FDF4"@,
        node_palette: seq![NodeColorView { fill: "#22C55E"@, stroke: "#16A34A"@ }, NodeColorView { fill: "#10B981"@, stroke: "#059669"@ }, NodeColorView { fill: "#14B8A6"@, stroke: "#0D9488"@ }, NodeColorView { fill: "#84CC16"@, stroke: "#65A30D"@ }, NodeColorView { fill: "#06B6D4"@, stroke: "#0891B2"@ }, NodeColorView { fill: "#8B5CF6"@, stroke: "#7C3AED"@ }],
        node_text_color: "#FFFFFF"@,
        node_corner_radius_tenths: 100,
        cluster_fills: seq!["rgba(34, 197, 94, 0.06)"@, "rgba(16, 185, 129, 0.06)"@, "rgba(20, 184, 166, 0.06)"@, "rgba(132, 204, 22, 0.06)"@],
        cluster_stroke: "#BBF7D0"@,
        cluster_text_color: "#166534"@,
        cluster_corner_radius_tenths: 160,
        edge_stroke: "#86EFAC"@,
        edge_stroke_width_tenths: 15,
        font_family: font_family_of(),
        font_size_tenths: 130,
        label_font_size_tenths: 110,
        node_shadow: true,
    }
}

/// The values of each built-in theme.
pub open spec fn theme_values_of(kind: ThemeKind) -> ThemeView {
    match kind {
        ThemeKind::Default => default_values(),
        ThemeKind::Dark => dark_values(),
        ThemeKind::Minimal => minimal_values(),
        ThemeKind::Ocean => ocean_values(),
        ThemeKind::Sunset => sunset_values(),
        ThemeKind::Forest => forest_values(),
    }
}

/// Every built-in theme has node colours and cluster fills to hand out, and
/// is named by the name that selects it.
pub proof fn lemma_theme_values_usable(kind: ThemeKind)
    ensures
        theme_values_of(kind).node_palette.len() > 0,
        theme_values_of(kind).cluster_fills.len() > 0,
        theme_kind_of(theme_values_of(kind).name) == kind,
{
    lemma_available_names_select_each_theme();
    assert(theme_names()[0] == "default"@);
    assert(theme_names()[1] == "dark"@);
    assert(theme_names()[2] == "minimal"@);
    assert(theme_names()[3] == "ocean"@);
    assert(theme_names()[4] == "sunset"@);
    assert(theme_names()[5] == "forest"@);
}

/// The documented look of each built-in theme, field by field: its name,
/// background, node colours, text colours, corner radii, cluster fills and
/// strokes, edge stroke, fonts (sizes in tenths of a pixel) and shadow.
pub proof fn lemma_documented_theme_values()
    ensures
        theme_values_of(ThemeKind::Default).name == "default"@,
        theme_values_of(ThemeKind::Default).background == "#FAFBFC"@,
        theme_values_of(ThemeKind::Default).node_palette == seq![NodeColorView { fill: "#4A90D9"@, stroke: "#3A7BC8"@ }, NodeColorView { fill: "#6C5CE7"@, stroke: "#5A4BD6"@ }, NodeColorView { fill: "#00B894"@, stroke: "#00A383"@ }, NodeColorView { fill: "#E17055"@, stroke: "#D05F44"@ }, NodeColorView { fill: "#FD79A8"@, stroke: "#EC6897"@ }, NodeColorView { fill: "#00CEC9"@, stroke: "#00BDB8"@ }, NodeColorView { fill: "#FDCB6E"@, stroke: "#ECBA5D"@ }, NodeColorView { fill: "#636E72"@, stroke: "#525D61"@ }],
        theme_values_of(ThemeKind::Default).node_text_color == "#FFFFFF"@,
        theme_values_of(ThemeKind::Default).node_corner_radius_tenths == 100,
        theme_values_of(ThemeKind::Default).cluster_fills == seq!["rgba(74, 144, 217, 0.06)"@, "rgba(108, 92, 231, 0.06)"@, "rgba(0, 184, 148, 0.06)"@, "rgba(225, 112, 85, 0.06)"@],
        theme_values_of(ThemeKind::Default).cluster_stroke == "#E1E4E8"@,
        theme_values_of(ThemeKind::Default).cluster_text_color == "#586069"@,
        theme_values_of(ThemeKind::Default).cluster_corner_radius_tenths == 160,
        theme_values_of(ThemeKind::Default).edge_stroke == "#959DA5"@,
        theme_values_of(ThemeKind::Default).edge_stroke_width_tenths == 15,
        theme_values_of(ThemeKind::Default).font_family == "'Inter', 'SF Pro Display', system-ui, -apple-system, sans-serif"@,
        theme_values_of(ThemeKind::Default).font_size_tenths == 130,
        theme_values_of(ThemeKind::Default).label_font_size_tenths == 110,
        theme_values_of(ThemeKind::Default).node_shadow == true,
        theme_values_of(ThemeKind::Dark).name == "dark"@,
        theme_values_of(ThemeKind::Dark).background == "#1A1B26"@,
        theme_values_of(ThemeKind::Dark).node_palette == seq![NodeColorView { fill: "#7AA2F7"@, stroke: "#6A92E7"@ }, NodeColorView { fill: "#BB9AF7"@, stroke: "#AB8AE7"@ }, NodeColorView { fill: "#9ECE6A"@, stroke: "#8EBE5A"@ }, NodeColorView { fill: "#FF9E64"@, stroke: "#EF8E54"@ }, NodeColorView { fill: "#F7768E"@, stroke: "#E7667E"@ }, NodeColorView { fill: "#2AC3DE"@, stroke: "#1AB3CE"@ }, NodeColorView { fill: "#E0AF68"@, stroke: "#D09F58"@ }, NodeColorView { fill: "#A9B1D6"@, stroke: "#99A1C6"@ }],
        theme_values_of(ThemeKind::Dark).node_text_color == "#1A1B26"@,
        theme_values_of(ThemeKind::Dark).node_corner_radius_tenths == 100,
        theme_values_of(ThemeKind::Dark).cluster_fills == seq!["rgba(122, 162, 247, 0.08)"@, "rgba(187, 154, 247, 0.08)"@, "rgba(158, 206, 106, 0.08)"@, "rgba(255, 158, 100, 0.08)"@],
        theme_values_of(ThemeKind::Dark).cluster_stroke == "#33364A"@,
        theme_values_of(ThemeKind::Dark).cluster_text_color == "#A9B1D6"@,
        theme_values_of(ThemeKind::Dark).cluster_corner_radius_tenths == 160,
        theme_values_of(ThemeKind::Dark).edge_stroke == "#565F89"@,
        theme_values_of(ThemeKind::Dark).edge_stroke_width_tenths == 15,
        theme_values_of(ThemeKind::Dark).font_family == "'Inter', 'SF Pro Display', system-ui, -apple-system, sans-serif"@,
        theme_values_of(ThemeKind::Dark).font_size_tenths == 130,
        theme_values_of(ThemeKind::Dark).label_font_size_tenths == 110,
        theme_values_of(ThemeKind::Dark).node_shadow == true,
        theme_values_of(ThemeKind::Minimal).name == "minimal"@,
        theme_values_of(ThemeKind::Minimal).background == "#FFFFFF"@,
        theme_values_of(ThemeKind::Minimal).node_palette == seq![NodeColorView { fill: "#FFFFFF"@, stroke: "#D1D5DB"@ }, NodeColorView { fill: "#FFFFFF"@, stroke: "#D1D5DB"@ }],
        theme_values_of(ThemeKind::Minimal).node_text_color == "#111827"@,
        theme_values_of(ThemeKind::Minimal).node_corner_radius_tenths == 80,
        theme_values_of(ThemeKind::Minimal).cluster_fills == seq!["rgba(0, 0, 0, 0.02)"@, "rgba(0, 0, 0, 0.02)"@],
        theme_values_of(ThemeKind::Minimal).cluster_stroke == "#E5E7EB"@,
        theme_values_of(ThemeKind::Minimal).cluster_text_color == "#6B7280"@,
        theme_values_of(ThemeKind::Minimal).cluster_corner_radius_tenths == 120,
        theme_values_of(ThemeKind::Minimal).edge_stroke == "#9CA3AF"@,
        theme_values_of(ThemeKind::Minimal).edge_stroke_width_tenths == 10,
        theme_values_of(ThemeKind::Minimal).font_family == "'Inter', 'SF Pro Display', system-ui, -apple-system, sans-serif"@,
        theme_values_of(ThemeKind::Minimal).font_size_tenths == 130,
        theme_values_of(ThemeKind::Minimal).label_font_size_tenths == 110,
        theme_values_of(ThemeKind::Minimal).node_shadow == false,
        theme_values_of(ThemeKind::Ocean).name == "ocean"@,
        theme_values_of(ThemeKind::Ocean).background == "#F0F9FF"@,
        theme_values_of(ThemeKind::Ocean).node_palette == seq![NodeColorView { fill: "#0EA5E9"@, stroke: "#0284C7"@ }, NodeColorView { fill: "#06B6D4"@, stroke: "#0891B2"@ }, NodeColorView { fill: "#3B82F6"@, stroke: "#2563EB"@ }, NodeColorView { fill: "#6366F1"@, stroke: "#4F46E5"@ }, NodeColorView { fill: "#8B5CF6"@, stroke: "#7C3AED"@ }, NodeColorView { fill: "#14B8A6"@, stroke: "#0D9488"@ }],
        theme_values_of(ThemeKind::Ocean).node_text_color == "#FFFFFF"@,
        theme_values_of(ThemeKind::Ocean).node_corner_radius_tenths == 120,
        theme_values_of(ThemeKind::Ocean).cluster_fills == seq!["rgba(14, 165, 233, 0.06)"@, "rgba(6, 182, 212, 0.06)"@, "rgba(59, 130, 246, 0.06)"@, "rgba(99, 102, 241, 0.06)"@],
        theme_values_of(ThemeKind::Ocean).cluster_stroke == "#BAE6FD"@,
        theme_values_of(ThemeKind::Ocean).cluster_text_color == "#0369A1"@,
        theme_values_of(ThemeKind::Ocean).cluster_corner_radius_tenths == 160,
        theme_values_of(ThemeKind::Ocean).edge_stroke == "#7DD3FC"@,
        theme_values_of(ThemeKind::Ocean).edge_stroke_width_tenths == 15,
        theme_values_of(ThemeKind::Ocean).font_family == "'Inter', 'SF Pro Display', system-ui, -apple-system, sans-serif"@,
        theme_values_of(ThemeKind::Ocean).font_size_tenths == 130,
        theme_values_of(ThemeKind::Ocean).label_font_size_tenths == 110,
        theme_values_of(ThemeKind::Ocean).node_shadow == true,
        theme_values_of(ThemeKind::Sunset).name == "sunset"@,
        theme_values_of(ThemeKind::Sunset).background == "#FFFBF5"@,
        theme_values_of(ThemeKind::Sunset).node_palette == seq![NodeColorView { fill: "#F97316"@, stroke: "#EA580C"@ }, NodeColorView { fill: "#EF4444"@, stroke: "#DC2626"@ }, NodeColorView { fill: "#F59E0B"@, stroke: "#D97706"@ }, NodeColorView { fill: "#EC4899"@, stroke: "#DB2777"@ }, NodeColorView { fill: "#F43F5E"@, stroke: "#E11D48"@ }, NodeColorView { fill: "#A855F7"@, stroke: "#9333EA"@ }],
        theme_values_of(ThemeKind::Sunset).node_text_color == "#FFFFFF"@,
        theme_values_of(ThemeKind::Sunset).node_corner_radius_tenths == 100,
        theme_values_of(ThemeKind::Sunset).cluster_fills == seq!["rgba(249, 115, 22, 0.06)"@, "rgba(239, 68, 68, 0.06)"@, "rgba(245, 158, 11, 0.06)"@, "rgba(236, 72, 153, 0.06)"@],
        theme_values_of(ThemeKind::Sunset).cluster_stroke == "#FED7AA"@,
        theme_values_of(ThemeKind::Sunset).cluster_text_color == "#9A3412"@,
        theme_values_of(ThemeKind::Sunset).cluster_corner_radius_tenths == 160,
        theme_values_of(ThemeKind::Sunset).edge_stroke == "#FDBA74"@,
        theme_values_of(ThemeKind::Sunset).edge_stroke_width_tenths == 15,
        theme_values_of(ThemeKind::Sunset).font_family == "'Inter', 'SF Pro Display', system-ui, -apple-system, sans-serif"@,
        theme_values_of(ThemeKind::Sunset).font_size_tenths == 130,
        theme_values_of(ThemeKind::Sunset).label_font_size_tenths == 110,
        theme_values_of(ThemeKind::Sunset).node_shadow == true,
        theme_values_of(ThemeKind::Forest).name == "forest"@,
        theme_values_of(ThemeKind::Forest).background == "#F0FDF4"@,
        theme_values_of(ThemeKind::Forest).node_palette == seq![NodeColorView { fill: "#22C55E"@, stroke: "#16A34A"@ }, NodeColorView { fill: "#10B981"@, stroke: "#059669"@ }, NodeColorView { fill: "#14B8A6"@, stroke: "#0D9488"@ }, NodeColorView { fill: "#84CC16"@, stroke: "#65A30D"@ }, NodeColorView { fill: "#06B6D4"@, stroke: "#0891B2"@ }, NodeColorView { fill: "#8B5CF6"@, stroke: "#7C3AED"@ }],
        theme_values_of(ThemeKind::Forest).node_text_color == "#FFFFFF"@,
        theme_values_of(ThemeKind::Forest).node_corner_radius_tenths == 100,
        theme_values_of(ThemeKind::Forest).cluster_fills == seq!["rgba(34, 197, 94, 0.06)"@, "rgba(16, 185, 129, 0.06)"@, "rgba(20, 184, 166, 0.06)"@, "rgba(132, 204, 22, 0.06)"@],
        theme_values_of(ThemeKind::Forest).cluster_stroke == "#BBF7D0"@,
        theme_values_of(ThemeKind::Forest).cluster_text_color == "#166534"@,
        theme_values_of(ThemeKind::Forest).cluster_corner_radius_tenths == 160,
        theme_values_of(ThemeKind::Forest).edge_stroke == "#86EFAC"@,
        theme_values_of(ThemeKind::Forest).edge_stroke_width_tenths == 15,
        theme_values_of(ThemeKind::Forest).font_family == "'Inter', 'SF Pro Display', system-ui, -apple-system, sans-serif"@,
        theme_values_of(ThemeKind::Forest).font_size_tenths == 130,
        theme_values_of(ThemeKind::Forest).label_font_size_tenths == 110,
        theme_values_of(ThemeKind::Forest).node_shadow == true,
{
}

fn text(s: &str) -> (r: String)
    ensures
        r@ == s@,
{
    chars_to_string(&str_chars(s))
}

fn node_color(fill: &str, stroke: &str) -> (c: NodeColor)
    ensures
        c@ == (NodeColorView { fill: fill@, stroke: stroke@ }),
{
    NodeColor { fill: text(fill), stroke: text(stroke) }
}

fn font_family() -> (f: String)
    ensures
        f@ == font_family_of(),
{
    text("'Inter', 'SF Pro Display', system-ui, -apple-system, sans-serif")
}

fn default_theme_values() -> (t: ThemeValues)
    ensures
        t@ == default_values(),
{
    let node_palette = vec![
        node_color("#4A90D9", "#3A7BC8"),
        node_color("#6C5CE7", "#5A4BD6"),
        node_color("#00B894", "#00A383"),
        node_color("#E17055", "#D05F44"),
        node_color("#FD79A8", "#EC6897"),
        node_color("#00CEC9", "#00BDB8"),
        node_color("#FDCB6E", "#ECBA5D"),
        node_color("#636E72", "#525D61"),
    ];
    let cluster_fills = vec![
        text("rgba(74, 144, 217, 0.06)"),
        text("rgba(108, 92, 231, 0.06)"),
        text("rgba(0, 184, 148, 0.06)"),
        text("rgba(225, 112, 85, 0.06)"),
    ];
    let t = ThemeValues {
        name: text("default"),
        background: text("#FAFBFC"),
        node_palette,
        node_text_color: text("#FFFFFF"),
        node_corner_radius_tenths: 100,
        cluster_fills,
        cluster_stroke: text("#E1E4E8"),
        cluster_text_color: text("#586069"),
        cluster_corner_radius_tenths: 160,
        edge_stroke: text("#959DA5"),
        edge_stroke_width_tenths: 15,
        font_family: font_family(),
        font_size_tenths: 130,
        label_font_size_tenths: 110,
        node_shadow: true,
    };
    assert(views(t.node_palette@) =~= default_values().node_palette);
    assert(t.cluster_fills.deep_view() =~= default_values().cluster_fills);
    t
}

fn dark_theme_values() -> (t: ThemeValues)
    ensures
        t@ == dark_values(),
{
    let node_palette = vec![
        node_color("#7AA2F7", "#6A92E7"),
        node_color("#BB9AF7", "#AB8AE7"),
        node_color("#9ECE6A", "#8EBE5A"),
        node_color("#FF9E64", "#EF8E54"),
        node_color("#F7768E", "#E7667E"),
        node_color("#2AC3DE", "#1AB3CE"),
        node_color("#E0AF68", "#D09F58"),
        node_color("#A9B1D6", "#99A1C6"),
    ];
    let cluster_fills = vec![
        text("rgba(122, 162, 247, 0.08)"),
        text("rgba(187, 154, 247, 0.08)"),
        text("rgba(158, 206, 106, 0.08)"),
        text("rgba(255, 158, 100, 0.08)"),
    ];
    let t = ThemeValues {
        name: text("dark"),
        background: text("#1A1B26"),
        node_palette,
        node_text_color: text("#1A1B26"),
        node_corner_radius_tenths: 100,
        cluster_fills,
        cluster_stroke: text("#33364A"),
        cluster_text_color: text("#A9B1D6"),
        cluster_corner_radius_tenths: 160,
        edge_stroke: text("#565F89"),
        edge_stroke_width_tenths: 15,
        font_family: font_family(),
        font_size_tenths: 130,
        label_font_size_tenths: 110,
        node_shadow: true,
    };
    assert(views(t.node_palette@) =~= dark_values().node_palette);
    assert(t.cluster_fills.deep_view() =~= dark_values().cluster_fills);
    t
}

fn minimal_theme_values() -> (t: ThemeValues)
    ensures
        t@ == minimal_values(),
{
    let node_palette = vec![
        node_color("#FFFFFF", "#D1D5DB"),
        node_color("#FFFFFF", "#D1D5DB"),
    ];
    let cluster_fills = vec![
        text("rgba(0, 0, 0, 0.02)"),
        text("rgba(0, 0, 0, 0.02)"),
    ];
    let t = ThemeValues {
        name: text("minimal"),
        background: text("#FFFFFF"),
        node_palette,
        node_text_color: text("#111827"),
        node_corner_radius_tenths: 80,
        cluster_fills,
        cluster_stroke: text("#E5E7EB"),
        cluster_text_color: text("#6B7280"),
        cluster_corner_radius_tenths: 120,
        edge_stroke: text("#9CA3AF"),
        edge_stroke_width_tenths: 10,
        font_family: font_family(),
        font_size_tenths: 130,
        label_font_size_tenths: 110,
        node_shadow: false,
    };
    assert(views(t.node_palette@) =~= minimal_values().node_palette);
    assert(t.cluster_fills.deep_view() =~= minimal_values().cluster_fills);
    t
}

fn ocean_theme_values() -> (t: ThemeValues)
    ensures
        t@ == ocean_values(),
{
    let node_palette = vec![
        node_color("#0EA5E9", "#0284C7"),
        node_color("#06B6D4", "#0891B2"),
        node_color("#3B82F6", "#2563EB"),
        node_color("#6366F1", "#4F46E5"),
        node_color("#8B5CF6", "#7C3AED"),
        node_color("#14B8A6", "#0D9488"),
    ];
    let cluster_fills = vec![
        text("rgba(14, 165, 233, 0.06)"),
        text("rgba(6, 182, 212, 0.06)"),
        text("rgba(59, 130, 246, 0.06)"),
        text("rgba(99, 102, 241, 0.06)"),
    ];
    let t = ThemeValues {
        name: text("ocean"),
        background: text("#F0F9FF"),
        node_palette,
        node_text_color: text("#FFFFFF"),
        node_corner_radius_tenths: 120,
        cluster_fills,
        cluster_stroke: text("#BAE6FD"),
        cluster_text_color: text("#0369A1"),
        cluster_corner_radius_tenths: 160,
        edge_stroke: text("#7DD3FC"),
        edge_stroke_width_tenths: 15,
        font_family: font_family(),
        font_size_tenths: 130,
        label_font_size_tenths: 110,
        node_shadow: true,
    };
    assert(views(t.node_palette@) =~= ocean_values().node_palette);
    assert(t.cluster_fills.deep_view() =~= ocean_values().cluster_fills);
    t
}

fn sunset_theme_values() -> (t: ThemeValues)
    ensures
        t@ == sunset_values(),
{
    let node_palette = vec![
        node_color("#F97316", "#EA580C"),
        node_color("#EF4444", "#DC2626"),
        node_color("#F59E0B", "#D97706"),
        node_color("#EC4899", "#DB2777"),
        node_color("#F43F5E", "#E11D48"),
        node_color("#A855F7", "#9333EA"),
    ];
    let cluster_fills = vec![
        text("rgba(249, 115, 22, 0.06)"),
        text("rgba(239, 68, 68, 0.06)"),
        text("rgba(245, 158, 11, 0.06)"),
        text("rgba(236, 72, 153, 0.06)"),
    ];
    let t = ThemeValues {
        name: text("sunset"),
        background: text("#FFFBF5"),
        node_palette,
        node_text_color: text("#FFFFFF"),
        node_corner_radius_tenths: 100,
        cluster_fills,
        cluster_stroke: text("#FED7AA"),
        cluster_text_color: text("#9A3412"),
        cluster_corner_radius_tenths: 160,
        edge_stroke: text("#FDBA74"),
        edge_stroke_width_tenths: 15,
        font_family: font_family(),
        font_size_tenths: 130,
        label_font_size_tenths: 110,
        node_shadow: true,
    };
    assert(views(t.node_palette@) =~= sunset_values().node_palette);
    assert(t.cluster_fills.deep_view() =~= sunset_values().cluster_fills);
    t
}

fn forest_theme_values() -> (t: ThemeValues)
    ensures
        t@ == forest_values(),
{
    let node_palette = vec![
        node_color("#22C55E", "#16A34A"),
        node_color("#10B981", "#059669"),
        node_color("#14B8A6", "#0D9488"),
        node_color("#84CC16", "#65A30D"),
        node_color("#06B6D4", "#0891B2"),
        node_color("#8B5CF6", "#7C3AED"),
    ];
    let cluster_fills = vec![
        text("rgba(34, 197, 94, 0.06)"),
        text("rgba(16, 185, 129, 0.06)"),
        text("rgba(20, 184, 166, 0.06)"),
        text("rgba(132, 204, 22, 0.06)"),
    ];
    let t = ThemeValues {
        name: text("forest"),
        background: text("#F0FDF4"),
        node_palette,
        node_text_color: text("#FFFFFF"),
        node_corner_radius_tenths: 100,
        cluster_fills,
        cluster_stroke: text("#BBF7D0"),
        cluster_text_color: text("#166534"),
        cluster_corner_radius_tenths: 160,
        edge_stroke: text("#86EFAC"),
        edge_stroke_width_tenths: 15,
        font_family: font_family(),
        font_size_tenths: 130,
        label_font_size_tenths: 110,
        node_shadow: true,
    };
    assert(views(t.node_palette@) =~= forest_values().node_palette);
    assert(t.cluster_fills.deep_view() =~= forest_values().cluster_fills);
    t
}

/// The values of a built-in theme.
pub fn theme_values(kind: ThemeKind) -> (t: ThemeValues)
    ensures
        t@ == theme_values_of(kind),
        t@.node_palette.len() > 0,
        t@.cluster_fills.len() > 0,
{
    proof {
        lemma_theme_values_usable(kind);
    }
    match kind {
        ThemeKind::Default => default_theme_values(),
        ThemeKind::Dark => dark_theme_values(),
        ThemeKind::Minimal => minimal_theme_values(),
        ThemeKind::Ocean => ocean_theme_values(),
        ThemeKind::Sunset => sunset_theme_values(),
        ThemeKind::Forest => forest_theme_values(),
    }
}

/// What a style attribute of an element resolves to: the value that the
/// element's own style sets, else the one that its provider preset gives,
/// else the theme's.
pub open spec fn resolved<T>(own: Option<T>, preset: Option<T>, theme: T) -> T {
    match own {
        Some(v) => v,
        None => match preset {
            Some(v) => v,
            None => theme,
        },
    }
}

/// Resolves one style attribute: an explicit style wins over the provider
/// preset, and the preset over the theme's default.
pub fn resolve_attribute<T>(own: Option<T>, preset: Option<T>, theme: T) -> (r: T)
    ensures
        r == resolved(own, preset, theme),
        own matches Some(v) ==> r == v,
        own is None ==> (preset matches Some(v) ==> r == v),
        own is None && preset is None ==> r == theme,
{
    match own {
        Some(v) => v,
        None => match preset {
            Some(v) => v,
            None => theme,
        },
    }
}

/// The slot of a palette of `len` colours that the element at `index` takes:
/// the palette repeats.
pub fn palette_slot(index: usize, len: usize) -> (slot: usize)
    requires
        len > 0,
    ensures
        slot == index % len,
        slot < len,
{
    index % len
}

/// The style that a provider gives to a kind of cluster.
#[derive(Debug, Clone)]
pub struct ClusterPreset {
    pub fill: String,
    pub stroke: String,
    /// The stroke width in tenths of a pixel.
    pub stroke_width_tenths: u32,
    pub text_color: String,
}

/// A cluster preset as plain values.
pub struct PresetView {
    pub fill: Seq<char>,
    pub stroke: Seq<char>,
    pub stroke_width_tenths: u32,
    pub text_color: Seq<char>,
}

impl View for ClusterPreset {
    type V = PresetView;

    open spec fn view(&self) -> PresetView {
        PresetView {
            fill: self.fill@,
            stroke: self.stroke@,
            stroke_width_tenths: self.stroke_width_tenths,
            text_color: self.text_color@,
        }
    }
}

/// The built-in cluster styles: AWS regions, VPCs and subnets, GCP regions and
/// VPCs, Kubernetes clusters and namespaces.
pub open spec fn preset_of(provider: Seq<char>, cluster_type: Seq<char>) -> Option<PresetView> {
    if provider == "aws"@ && cluster_type == "region"@ {
        Some(PresetView { fill: "rgba(255, 153, 0, 0.06)"@, stroke: "#FF9900"@, stroke_width_tenths: 20, text_color: "#CC7A00"@ })
    } else if provider == "aws"@ && cluster_type == "vpc"@ {
        Some(PresetView { fill: "rgba(0, 164, 166, 0.06)"@, stroke: "#00A4A6"@, stroke_width_tenths: 15, text_color: "#007F80"@ })
    } else if provider == "aws"@ && cluster_type == "subnet"@ {
        Some(PresetView { fill: "rgba(0, 164, 166, 0.03)"@, stroke: "#00A4A6"@, stroke_width_tenths: 10, text_color: "#007F80"@ })
    } else if provider == "gcp"@ && cluster_type == "region"@ {
        Some(PresetView { fill: "rgba(66, 133, 244, 0.06)"@, stroke: "#4285F4"@, stroke_width_tenths: 20, text_color: "#3367D6"@ })
    } else if provider == "gcp"@ && cluster_type == "vpc"@ {
        Some(PresetView { fill: "rgba(52, 168, 83, 0.06)"@, stroke: "#34A853"@, stroke_width_tenths: 15, text_color: "#2D8E47"@ })
    } else if provider == "k8s"@ && cluster_type == "cluster"@ {
        Some(PresetView { fill: "rgba(50, 108, 229, 0.06)"@, stroke: "#326CE5"@, stroke_width_tenths: 20, text_color: "#2957C0"@ })
    } else if provider == "k8s"@ && cluster_type == "namespace"@ {
        Some(PresetView { fill: "rgba(50, 108, 229, 0.03)"@, stroke: "#326CE5"@, stroke_width_tenths: 10, text_color: "#2957C0"@ })
    } else {
        None
    }
}

/// The provider/cluster-type pairs that have a built-in style: AWS regions,
/// VPCs and subnets, GCP regions and VPCs, Kubernetes clusters and
/// namespaces.
pub open spec fn documented_preset_pair(provider: Seq<char>, cluster_type: Seq<char>) -> bool {
    ||| (provider == "aws"@ && cluster_type == "region"@)
    ||| (provider == "aws"@ && cluster_type == "vpc"@)
    ||| (provider == "aws"@ && cluster_type == "subnet"@)
    ||| (provider == "gcp"@ && cluster_type == "region"@)
    ||| (provider == "gcp"@ && cluster_type == "vpc"@)
    ||| (provider == "k8s"@ && cluster_type == "cluster"@)
    ||| (provider == "k8s"@ && cluster_type == "namespace"@)
}

/// A cluster has a built-in style exactly for the seven documented
/// provider/cluster-type pairs, and each pair's style is its documented one
/// (stroke widths in tenths: 2 px for regions and clusters, 1.5 px for VPCs,
/// 1 px for subnets and namespaces).
pub proof fn lemma_documented_presets(provider: Seq<char>, cluster_type: Seq<char>)
    ensures
        preset_of(provider, cluster_type) is Some <==> documented_preset_pair(provider, cluster_type),
        preset_of("aws"@, "region"@) == Some(PresetView { fill: "rgba(255, 153, 0, 0.06)"@, stroke: "#FF9900"@, stroke_width_tenths: 20, text_color: "#CC7A00"@ }),
        preset_of("aws"@, "vpc"@) == Some(PresetView { fill: "rgba(0, 164, 166, 0.06)"@, stroke: "#00A4A6"@, stroke_width_tenths: 15, text_color: "#007F80"@ }),
        preset_of("aws"@, "subnet"@) == Some(PresetView { fill: "rgba(0, 164, 166, 0.03)"@, stroke: "#00A4A6"@, stroke_width_tenths: 10, text_color: "#007F80"@ }),
        preset_of("gcp"@, "region"@) == Some(PresetView { fill: "rgba(66, 133, 244, 0.06)"@, stroke: "#4285F4"@, stroke_width_tenths: 20, text_color: "#3367D6"@ }),
        preset_of("gcp"@, "vpc"@) == Some(PresetView { fill: "rgba(52, 168, 83, 0.06)"@, stroke: "#34A853"@, stroke_width_tenths: 15, text_color: "#2D8E47"@ }),
        preset_of("k8s"@, "cluster"@) == Some(PresetView { fill: "rgba(50, 108, 229, 0.06)"@, stroke: "#326CE5"@, stroke_width_tenths: 20, text_color: "#2957C0"@ }),
        preset_of("k8s"@, "namespace"@) == Some(PresetView { fill: "rgba(50, 108, 229, 0.03)"@, stroke: "#326CE5"@, stroke_width_tenths: 10, text_color: "#2957C0"@ }),
{
    reveal_strlit("aws");
    reveal_strlit("cluster");
    reveal_strlit("gcp");
    reveal_strlit("k8s");
    reveal_strlit("namespace");
    reveal_strlit("region");
    reveal_strlit("subnet");
    reveal_strlit("vpc");
    assert("aws"@.len() == 3 && "aws"@[0] == 'a');
    assert("cluster"@.len() == 7 && "cluster"@[0] == 'c');
    assert("gcp"@.len() == 3 && "gcp"@[0] == 'g');
    assert("k8s"@.len() == 3 && "k8s"@[0] == 'k');
    assert("namespace"@.len() == 9 && "namespace"@[0] == 'n');
    assert("region"@.len() == 6 && "region"@[0] == 'r');
    assert("subnet"@.len() == 6 && "subnet"@[0] == 's');
    assert("vpc"@.len() == 3 && "vpc"@[0] == 'v');
}

fn preset(fill: &str, stroke: &str, width: u32, text: &str) -> (p: ClusterPreset)
    ensures
        p@ == (PresetView { fill: fill@, stroke: stroke@, stroke_width_tenths: width, text_color: text@ }),
{
    ClusterPreset {
        fill: crate::text::chars_to_string(&crate::text::str_chars(fill)),
        stroke: crate::text::chars_to_string(&crate::text::str_chars(stroke)),
        stroke_width_tenths: width,
        text_color: crate::text::chars_to_string(&crate::text::str_chars(text)),
    }
}

fn preset_for(provider: &str, cluster_type: &str) -> (r: Option<ClusterPreset>)
    ensures
        match preset_of(provider@, cluster_type@) {
            Some(v) => r matches Some(p) && p@ == v,
            None => r is None,
        },
{
    if str_eq(provider, "aws") && str_eq(cluster_type, "region") {
        Some(preset("rgba(255, 153, 0, 0.06)", "#FF9900", 20, "#CC7A00"))
    } else if str_eq(provider, "aws") && str_eq(cluster_type, "vpc") {
        Some(preset("rgba(0, 164, 166, 0.06)", "#00A4A6", 15, "#007F80"))
    } else if str_eq(provider, "aws") && str_eq(cluster_type, "subnet") {
        Some(preset("rgba(0, 164, 166, 0.03)", "#00A4A6", 10, "#007F80"))
    } else if str_eq(provider, "gcp") && str_eq(cluster_type, "region") {
        Some(preset("rgba(66, 133, 244, 0.06)", "#4285F4", 20, "#3367D6"))
    } else if str_eq(provider, "gcp") && str_eq(cluster_type, "vpc") {
        Some(preset("rgba(52, 168, 83, 0.06)", "#34A853", 15, "#2D8E47"))
    } else if str_eq(provider, "k8s") && str_eq(cluster_type, "cluster") {
        Some(preset("rgba(50, 108, 229, 0.06)", "#326CE5", 20, "#2957C0"))
    } else if str_eq(provider, "k8s") && str_eq(cluster_type, "namespace") {
        Some(preset("rgba(50, 108, 229, 0.03)", "#326CE5", 10, "#2957C0"))
    } else {
        None
    }
}

/// The style preset of a cluster of `cluster_type` from `provider`, when both
/// are given and a preset exists for them.
pub fn provider_cluster_preset(provider: Option<&str>, cluster_type: Option<&str>) -> (r: Option<
    ClusterPreset,
>)
    ensures
        match (provider, cluster_type) {
            (Some(p), Some(c)) => match preset_of(p@, c@) {
                Some(v) => r matches Some(x) && x@ == v,
                None => r is None,
            },
            _ => r is None,
        },
{
    match (provider, cluster_type) {
        (Some(p), Some(c)) => preset_for(p, c),
        _ => None,
    }
}

} // verus!
