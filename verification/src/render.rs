//! Text for the SVG writer.

use vstd::prelude::*;
use crate::text::{append_chars, append_str, chars_to_string, occurs_at, starts_with, str_chars};

verus! {

/// The XML form of one character: the five markup characters become entities.
pub open spec fn escape_char(c: char) -> Seq<char> {
    if c == '&' {
        "&amp;"@
    } else if c == '<' {
        "&lt;"@
    } else if c == '>' {
        "&gt;"@
    } else if c == '"' {
        "&quot;"@
    } else if c == '\'' {
        "&apos;"@
    } else {
        seq![c]
    }
}

/// Text made safe for XML content and attribute values.
pub open spec fn escape_xml_of(s: Seq<char>) -> Seq<char>
    decreases s.len(),
{
    if s.len() == 0 {
        seq![]
    } else {
        escape_xml_of(s.drop_last()) + escape_char(s.last())
    }
}

/// Replaces `&`, `<`, `>`, `"` and `'` by their XML entities.
pub fn escape_xml(s: &str) -> (r: String)
    ensures
        r@ == escape_xml_of(s@),
{
    let cs = str_chars(s);
    let mut out: Vec<char> = Vec::new();
    let mut i: usize = 0;
    while i < cs.len()
        invariant
            0 <= i <= cs.len(),
            out@ == escape_xml_of(cs@.take(i as int)),
        decreases cs.len() - i,
    {
        assert(cs@.take(i + 1).drop_last() =~= cs@.take(i as int));
        let c = cs[i];
        if c == '&' {
            append_str(&mut out, "&amp;");
        } else if c == '<' {
            append_str(&mut out, "&lt;");
        } else if c == '>' {
            append_str(&mut out, "&gt;");
        } else if c == '"' {
            append_str(&mut out, "&quot;");
        } else if c == '\'' {
            append_str(&mut out, "&apos;");
        } else {
            out.push(c);
        }
        i = i + 1;
    }
    assert(cs@.take(cs.len() as int) =~= cs@);
    chars_to_string(&out)
}


/// A character that ends markup or a quoted attribute: `<`, `>`, `"` or `'`.
pub open spec fn is_markup_char(c: char) -> bool {
    c == '<' || c == '>' || c == '"' || c == '\''
}

proof fn lemma_escape_char_clean(c: char)
    ensures
        forall|i: int| 0 <= i < escape_char(c).len() ==> !is_markup_char(#[trigger] escape_char(c)[i]),
{
    reveal_strlit("&amp;");
    reveal_strlit("&lt;");
    reveal_strlit("&gt;");
    reveal_strlit("&quot;");
    reveal_strlit("&apos;");
}

/// Escaped text holds none of `<`, `>`, `"` and `'`, so it can stand inside an
/// element or a quoted attribute.
pub proof fn lemma_escape_xml_clean(s: Seq<char>)
    ensures
        forall|i: int| 0 <= i < escape_xml_of(s).len() ==> !is_markup_char(#[trigger] escape_xml_of(s)[i]),
    decreases s.len(),
{
    if s.len() > 0 {
        lemma_escape_xml_clean(s.drop_last());
        lemma_escape_char_clean(s.last());
        let a = escape_xml_of(s.drop_last());
        let b = escape_char(s.last());
        assert forall|i: int| 0 <= i < escape_xml_of(s).len() implies !is_markup_char(#[trigger] escape_xml_of(s)[i]) by {
            if i < a.len() {
                assert(escape_xml_of(s)[i] == a[i]);
            } else {
                assert(escape_xml_of(s)[i] == b[i - a.len()]);
            }
        }
    }
}

/// One of the five entities starts at `i` in `t`.
pub open spec fn entity_at(t: Seq<char>, i: int) -> bool {
    ||| occurs_at(t, "&amp;"@, i)
    ||| occurs_at(t, "&lt;"@, i)
    ||| occurs_at(t, "&gt;"@, i)
    ||| occurs_at(t, "&quot;"@, i)
    ||| occurs_at(t, "&apos;"@, i)
}

proof fn lemma_entity_at_extend(a: Seq<char>, b: Seq<char>, i: int)
    requires
        entity_at(a, i),
    ensures
        entity_at(a + b, i),
{
    let t = a + b;
    assert forall|e: Seq<char>| #[trigger] occurs_at(a, e, i) implies occurs_at(t, e, i) by {
        assert(t.subrange(i, i + e.len()) =~= a.subrange(i, i + e.len()));
    }
    assert(occurs_at(a, "&amp;"@, i) ==> occurs_at(t, "&amp;"@, i));
    assert(occurs_at(a, "&lt;"@, i) ==> occurs_at(t, "&lt;"@, i));
    assert(occurs_at(a, "&gt;"@, i) ==> occurs_at(t, "&gt;"@, i));
    assert(occurs_at(a, "&quot;"@, i) ==> occurs_at(t, "&quot;"@, i));
    assert(occurs_at(a, "&apos;"@, i) ==> occurs_at(t, "&apos;"@, i));
}

/// Every `&` of escaped text begins one of the five entities: escaping leaves
/// no bare `&` behind.
pub proof fn lemma_escape_xml_ampersands(s: Seq<char>)
    ensures
        forall|i: int| 0 <= i < escape_xml_of(s).len() && #[trigger] escape_xml_of(s)[i] == '&' ==> entity_at(
            escape_xml_of(s),
            i,
        ),
    decreases s.len(),
{
    reveal_strlit("&amp;");
    reveal_strlit("&lt;");
    reveal_strlit("&gt;");
    reveal_strlit("&quot;");
    reveal_strlit("&apos;");
    if s.len() > 0 {
        lemma_escape_xml_ampersands(s.drop_last());
        let a = escape_xml_of(s.drop_last());
        let b = escape_char(s.last());
        let t = escape_xml_of(s);
        assert(t == a + b);
        assert forall|i: int| 0 <= i < t.len() && #[trigger] t[i] == '&' implies entity_at(t, i) by {
            if i < a.len() {
                assert(t[i] == a[i]);
                lemma_entity_at_extend(a, b, i);
            } else {
                assert(t[i] == b[i - a.len()]);
                assert(t.subrange(a.len() as int, (a.len() + b.len()) as int) =~= b);
                assert(i == a.len());
                assert(occurs_at(t, b, i));
            }
        }
    }
}

/// Reads XML text back: each of the five entities becomes its character.
pub open spec fn unescape_xml_of(t: Seq<char>) -> Seq<char>
    decreases t.len(),
{
    if t.len() == 0 {
        seq![]
    } else if starts_with(t, "&amp;"@) {
        proof {
            reveal_strlit("&amp;");
        }
        seq!['&'] + unescape_xml_of(t.skip(5))
    } else if starts_with(t, "&lt;"@) {
        proof {
            reveal_strlit("&lt;");
        }
        seq!['<'] + unescape_xml_of(t.skip(4))
    } else if starts_with(t, "&gt;"@) {
        proof {
            reveal_strlit("&gt;");
        }
        seq!['>'] + unescape_xml_of(t.skip(4))
    } else if starts_with(t, "&quot;"@) {
        proof {
            reveal_strlit("&quot;");
        }
        seq!['"'] + unescape_xml_of(t.skip(6))
    } else if starts_with(t, "&apos;"@) {
        proof {
            reveal_strlit("&apos;");
        }
        seq!['\''] + unescape_xml_of(t.skip(6))
    } else {
        seq![t[0]] + unescape_xml_of(t.skip(1))
    }
}

proof fn lemma_escape_xml_front(s: Seq<char>)
    requires
        s.len() > 0,
    ensures
        escape_xml_of(s) == escape_char(s[0]) + escape_xml_of(s.skip(1)),
    decreases s.len(),
{
    if s.len() == 1 {
        assert(s.skip(1) =~= Seq::<char>::empty());
        assert(s.drop_last() =~= Seq::<char>::empty());
        assert(escape_xml_of(s.drop_last()) =~= Seq::<char>::empty());
        assert(escape_xml_of(s) =~= escape_char(s[0]));
        assert(escape_xml_of(s.skip(1)) =~= Seq::<char>::empty());
        assert(escape_char(s[0]) + Seq::<char>::empty() =~= escape_char(s[0]));
    } else {
        let d = s.drop_last();
        lemma_escape_xml_front(d);
        assert(d[0] == s[0]);
        assert(s.skip(1).drop_last() =~= d.skip(1));
        assert(s.skip(1).last() == s.last());
        assert(escape_xml_of(s.skip(1)) == escape_xml_of(d.skip(1)) + escape_char(s.last()));
        assert(escape_xml_of(s) == escape_xml_of(d) + escape_char(s.last()));
        assert(escape_xml_of(s) =~= escape_char(s[0]) + escape_xml_of(s.skip(1)));
    }
}

/// `t` does not start with `p` when they differ at `i`.
proof fn lemma_not_starts_with(t: Seq<char>, p: Seq<char>, i: int)
    requires
        0 <= i < p.len(),
        i < t.len(),
        t[i] != p[i],
    ensures
        !starts_with(t, p),
{
    if starts_with(t, p) {
        assert(t.take(p.len() as int)[i] == t[i]);
    }
}

proof fn lemma_unescape_char(c: char, rest: Seq<char>)
    ensures
        unescape_xml_of(escape_char(c) + rest) == seq![c] + unescape_xml_of(rest),
{
    reveal_strlit("&amp;");
    reveal_strlit("&lt;");
    reveal_strlit("&gt;");
    reveal_strlit("&quot;");
    reveal_strlit("&apos;");
    let amp = "&amp;"@;
    let lt = "&lt;"@;
    let gt = "&gt;"@;
    let quot = "&quot;"@;
    let apos = "&apos;"@;
    let t = escape_char(c) + rest;
    let e = escape_char(c);
    assert(t.skip(e.len() as int) =~= rest);
    assert(t.take(e.len() as int) =~= e);
    assert(forall|i: int| 0 <= i < e.len() ==> t[i] == #[trigger] e[i]);
    if c == '&' {
        assert(starts_with(t, amp));
    } else if c == '<' {
        lemma_not_starts_with(t, amp, 1);
        assert(starts_with(t, lt));
    } else if c == '>' {
        lemma_not_starts_with(t, amp, 1);
        lemma_not_starts_with(t, lt, 1);
        assert(starts_with(t, gt));
    } else if c == '"' {
        lemma_not_starts_with(t, amp, 1);
        lemma_not_starts_with(t, lt, 1);
        lemma_not_starts_with(t, gt, 1);
        assert(starts_with(t, quot));
    } else if c == '\'' {
        lemma_not_starts_with(t, amp, 2);
        lemma_not_starts_with(t, lt, 1);
        lemma_not_starts_with(t, gt, 1);
        lemma_not_starts_with(t, quot, 1);
        assert(starts_with(t, apos));
    } else {
        assert(t[0] == c);
        lemma_not_starts_with(t, amp, 0);
        lemma_not_starts_with(t, lt, 0);
        lemma_not_starts_with(t, gt, 0);
        lemma_not_starts_with(t, quot, 0);
        lemma_not_starts_with(t, apos, 0);
        assert(t.skip(1) =~= rest);
    }
}

/// Escaping loses nothing: reading escaped text back gives the text.
pub proof fn lemma_escape_xml_round_trip(s: Seq<char>)
    ensures
        unescape_xml_of(escape_xml_of(s)) == s,
    decreases s.len(),
{
    if s.len() > 0 {
        lemma_escape_xml_front(s);
        lemma_escape_xml_round_trip(s.skip(1));
        lemma_unescape_char(s[0], escape_xml_of(s.skip(1)));
        assert(seq![s[0]] + s.skip(1) =~= s);
    }
}

/// Text without any of `&`, `<`, `>`, `"` and `'` is left as it is.
pub proof fn lemma_escape_xml_plain(s: Seq<char>)
    requires
        forall|i: int| 0 <= i < s.len() ==> !is_markup_char(#[trigger] s[i]) && s[i] != '&',
    ensures
        escape_xml_of(s) == s,
    decreases s.len(),
{
    if s.len() > 0 {
        assert forall|i: int| 0 <= i < s.drop_last().len() implies !is_markup_char(#[trigger] s.drop_last()[i])
            && s.drop_last()[i] != '&' by {
            assert(s.drop_last()[i] == s[i]);
        }
        lemma_escape_xml_plain(s.drop_last());
        assert(s[s.len() - 1] == s.last());
        assert(s.drop_last().push(s.last()) =~= s);
        assert(seq![s.last()] + seq![] == seq![s.last()]);
        assert(s.drop_last() + seq![s.last()] =~= s);
    }
}

// ════════════════════════════ the SVG document ════════════════════════════

/// A shape or text of the drawing.  Numbers are carried as the decimal text
/// that is written for them.
pub enum SvgElement {
    Rect {
        x: String,
        y: String,
        width: String,
        height: String,
        rx: String,
        fill: String,
        stroke: String,
        stroke_width: String,
        shadow: bool,
    },
    Text {
        x: String,
        y: String,
        content: String,
        font_size: String,
        font_family: String,
        fill: String,
        anchor: String,
        font_weight: String,
    },
    Path {
        d: String,
        stroke: String,
        stroke_width: String,
        stroke_dasharray: Option<String>,
        marker_end: bool,
    },
    /// An icon: SVG markup written as it is.
    RawSvg { x: String, y: String, width: String, height: String, content: String },
    Group { id: String, children: Vec<SvgElement> },
}

/// A whole drawing: its size, background, arrowhead colour and elements.
pub struct SvgScene {
    pub width: String,
    pub height: String,
    pub background: String,
    pub edge_color: String,
    pub elements: Vec<SvgElement>,
}

/// The indentation of an element `indent` levels deep: two spaces a level.
pub open spec fn pad(indent: nat) -> Seq<char> {
    Seq::new(2 * indent, |i: int| ' ')
}

/// The stroke attributes of a rectangle: none when its stroke is `none`.
pub open spec fn stroke_attrs(stroke: Seq<char>, stroke_width: Seq<char>) -> Seq<char> {
    if stroke == "none"@ {
        seq![]
    } else {
        " stroke=\""@ + stroke + "\" stroke-width=\""@ + stroke_width + "\""@
    }
}

/// The shadow filter of a rectangle, when it casts one.
pub open spec fn shadow_attr(shadow: bool) -> Seq<char> {
    if shadow {
        " filter=\"url(#shadow)\""@
    } else {
        seq![]
    }
}

/// The dash pattern of a path, when it has one.
pub open spec fn dash_attr(dash: Option<String>) -> Seq<char> {
    match dash {
        Some(d) => " stroke-dasharray=\""@ + d@ + "\""@,
        None => seq![],
    }
}

/// The arrowhead of a path, when it has one.
pub open spec fn marker_attr(marker_end: bool) -> Seq<char> {
    if marker_end {
        " marker-end=\"url(#arrowhead)\""@
    } else {
        seq![]
    }
}

/// A rectangle's line.
pub open spec fn rect_svg(
    p: Seq<char>,
    x: Seq<char>,
    y: Seq<char>,
    width: Seq<char>,
    height: Seq<char>,
    rx: Seq<char>,
    fill: Seq<char>,
    stroke: Seq<char>,
    stroke_width: Seq<char>,
    shadow: bool,
) -> Seq<char> {
    p + "<rect x=\""@ + x + "\" y=\""@ + y + "\" width=\""@ + width + "\" height=\""@ + height + "\" rx=\""@ + rx
        + "\" fill=\""@ + fill + "\""@ + stroke_attrs(stroke, stroke_width) + shadow_attr(shadow) + "/>\n"@
}

/// A text's line; its content is escaped.
pub open spec fn text_svg(
    p: Seq<char>,
    x: Seq<char>,
    y: Seq<char>,
    content: Seq<char>,
    font_size: Seq<char>,
    font_family: Seq<char>,
    fill: Seq<char>,
    anchor: Seq<char>,
    font_weight: Seq<char>,
) -> Seq<char> {
    text_open(p, x, y, font_size, font_family, fill, anchor, font_weight) + escape_xml_of(content)
        + "</text>\n"@
}

/// A text's opening tag, up to its content.
pub open spec fn text_open(
    p: Seq<char>,
    x: Seq<char>,
    y: Seq<char>,
    font_size: Seq<char>,
    font_family: Seq<char>,
    fill: Seq<char>,
    anchor: Seq<char>,
    font_weight: Seq<char>,
) -> Seq<char> {
    p + "<text x=\""@ + x + "\" y=\""@ + y + "\" font-size=\""@ + font_size + "\" font-family=\""@ + font_family
        + "\" fill=\""@ + fill + "\" font-weight=\""@ + font_weight + "\" text-anchor=\""@ + anchor
        + "\" dominant-baseline=\"middle\">"@
}

/// A path's line.
pub open spec fn path_svg(
    p: Seq<char>,
    d: Seq<char>,
    stroke: Seq<char>,
    stroke_width: Seq<char>,
    dash: Option<String>,
    marker_end: bool,
) -> Seq<char> {
    p + "<path d=\""@ + d + "\" fill=\"none\" stroke=\""@ + stroke + "\" stroke-width=\""@ + stroke_width
        + "\" stroke-linecap=\"round\""@ + dash_attr(dash) + marker_attr(marker_end) + "/>\n"@
}

/// An icon's lines: its markup inside an `svg` element.
pub open spec fn raw_svg(
    p: Seq<char>,
    x: Seq<char>,
    y: Seq<char>,
    width: Seq<char>,
    height: Seq<char>,
    content: Seq<char>,
) -> Seq<char> {
    p + "<svg x=\""@ + x + "\" y=\""@ + y + "\" width=\""@ + width + "\" height=\""@ + height + "\">\n"@
        + content + "\n"@ + p + "</svg>\n"@
}

/// The SVG lines of an element `indent` levels deep.
pub open spec fn element_svg(e: SvgElement, indent: nat) -> Seq<char>
    decreases e,
{
    match e {
        SvgElement::Rect { x, y, width, height, rx, fill, stroke, stroke_width, shadow } => rect_svg(
            pad(indent),
            x@,
            y@,
            width@,
            height@,
            rx@,
            fill@,
            stroke@,
            stroke_width@,
            shadow,
        ),
        SvgElement::Text { x, y, content, font_size, font_family, fill, anchor, font_weight } => text_svg(
            pad(indent),
            x@,
            y@,
            content@,
            font_size@,
            font_family@,
            fill@,
            anchor@,
            font_weight@,
        ),
        SvgElement::Path { d, stroke, stroke_width, stroke_dasharray, marker_end } => path_svg(
            pad(indent),
            d@,
            stroke@,
            stroke_width@,
            stroke_dasharray,
            marker_end,
        ),
        SvgElement::RawSvg { x, y, width, height, content } => raw_svg(
            pad(indent),
            x@,
            y@,
            width@,
            height@,
            content@,
        ),
        SvgElement::Group { id, children } => pad(indent) + "<g id=\""@ + id@ + "\">\n"@ + children_svg(
            children@,
            indent + 1,
        ) + pad(indent) + "</g>\n"@,
    }
}

/// The SVG lines of the elements `es`, in order, each `indent` levels deep.
pub open spec fn children_svg(es: Seq<SvgElement>, indent: nat) -> Seq<char>
    decreases es,
{
    if es.len() == 0 {
        seq![]
    } else {
        children_svg(es.drop_last(), indent) + element_svg(es.last(), indent)
    }
}


fn write_rect(
    buf: &mut Vec<char>,
    p: &Vec<char>,
    x: &String,
    y: &String,
    width: &String,
    height: &String,
    rx: &String,
    fill: &String,
    stroke: &String,
    stroke_width: &String,
    shadow: bool,
)
    ensures
        final(buf)@ == old(buf)@ + rect_svg(p@, x@, y@, width@, height@, rx@, fill@, stroke@, stroke_width@, shadow),
{
    let ghost start = buf@;
    append_chars(buf, p);
    append_str(buf, "<rect x=\"");
    append_str(buf, x.as_str());
    append_str(buf, "\" y=\"");
    append_str(buf, y.as_str());
    append_str(buf, "\" width=\"");
    append_str(buf, width.as_str());
    append_str(buf, "\" height=\"");
    append_str(buf, height.as_str());
    append_str(buf, "\" rx=\"");
    append_str(buf, rx.as_str());
    append_str(buf, "\" fill=\"");
    append_str(buf, fill.as_str());
    append_str(buf, "\"");
    let ghost head = buf@;
    if !str_is(stroke.as_str(), "none") {
        append_str(buf, " stroke=\"");
        append_str(buf, stroke.as_str());
        append_str(buf, "\" stroke-width=\"");
        append_str(buf, stroke_width.as_str());
        append_str(buf, "\"");
    }
    assert(buf@ =~= head + stroke_attrs(stroke@, stroke_width@));
    let ghost mid = buf@;
    if shadow {
        append_str(buf, " filter=\"url(#shadow)\"");
    }
    assert(buf@ =~= mid + shadow_attr(shadow));
    append_str(buf, "/>\n");
    assert(buf@ =~= start + rect_svg(p@, x@, y@, width@, height@, rx@, fill@, stroke@, stroke_width@, shadow));
}

fn write_text(
    buf: &mut Vec<char>,
    p: &Vec<char>,
    x: &String,
    y: &String,
    content: &String,
    font_size: &String,
    font_family: &String,
    fill: &String,
    anchor: &String,
    font_weight: &String,
)
    ensures
        final(buf)@ == old(buf)@ + text_svg(p@, x@, y@, content@, font_size@, font_family@, fill@, anchor@, font_weight@),
{
    let ghost start = buf@;
    append_chars(buf, p);
    append_str(buf, "<text x=\"");
    append_str(buf, x.as_str());
    append_str(buf, "\" y=\"");
    append_str(buf, y.as_str());
    append_str(buf, "\" font-size=\"");
    append_str(buf, font_size.as_str());
    append_str(buf, "\" font-family=\"");
    append_str(buf, font_family.as_str());
    append_str(buf, "\" fill=\"");
    append_str(buf, fill.as_str());
    append_str(buf, "\" font-weight=\"");
    append_str(buf, font_weight.as_str());
    append_str(buf, "\" text-anchor=\"");
    append_str(buf, anchor.as_str());
    append_str(buf, "\" dominant-baseline=\"middle\">");
    assert(buf@ =~= start + text_open(p@, x@, y@, font_size@, font_family@, fill@, anchor@, font_weight@));
    let escaped = escape_xml(content.as_str());
    append_str(buf, escaped.as_str());
    append_str(buf, "</text>\n");
    assert(buf@ =~= start + text_svg(p@, x@, y@, content@, font_size@, font_family@, fill@, anchor@, font_weight@));
}

fn write_path(
    buf: &mut Vec<char>,
    p: &Vec<char>,
    d: &String,
    stroke: &String,
    stroke_width: &String,
    dash: &Option<String>,
    marker_end: bool,
)
    ensures
        final(buf)@ == old(buf)@ + path_svg(p@, d@, stroke@, stroke_width@, *dash, marker_end),
{
    let ghost start = buf@;
    append_chars(buf, p);
    append_str(buf, "<path d=\"");
    append_str(buf, d.as_str());
    append_str(buf, "\" fill=\"none\" stroke=\"");
    append_str(buf, stroke.as_str());
    append_str(buf, "\" stroke-width=\"");
    append_str(buf, stroke_width.as_str());
    append_str(buf, "\" stroke-linecap=\"round\"");
    let ghost head = buf@;
    match dash {
        Some(da) => {
            append_str(buf, " stroke-dasharray=\"");
            append_str(buf, da.as_str());
            append_str(buf, "\"");
        },
        None => {},
    }
    assert(buf@ =~= head + dash_attr(*dash));
    let ghost mid = buf@;
    if marker_end {
        append_str(buf, " marker-end=\"url(#arrowhead)\"");
    }
    assert(buf@ =~= mid + marker_attr(marker_end));
    append_str(buf, "/>\n");
    assert(buf@ =~= start + path_svg(p@, d@, stroke@, stroke_width@, *dash, marker_end));
}

fn write_raw(
    buf: &mut Vec<char>,
    p: &Vec<char>,
    x: &String,
    y: &String,
    width: &String,
    height: &String,
    content: &String,
)
    ensures
        final(buf)@ == old(buf)@ + raw_svg(p@, x@, y@, width@, height@, content@),
{
    let ghost start = buf@;
    append_chars(buf, p);
    append_str(buf, "<svg x=\"");
    append_str(buf, x.as_str());
    append_str(buf, "\" y=\"");
    append_str(buf, y.as_str());
    append_str(buf, "\" width=\"");
    append_str(buf, width.as_str());
    append_str(buf, "\" height=\"");
    append_str(buf, height.as_str());
    append_str(buf, "\">\n");
    append_str(buf, content.as_str());
    append_str(buf, "\n");
    append_chars(buf, p);
    append_str(buf, "</svg>\n");
    assert(buf@ =~= start + raw_svg(p@, x@, y@, width@, height@, content@));
}

/// Writes `element`, indented by `pad_chars`, which is `indent` levels deep.
fn render_padded(buf: &mut Vec<char>, element: &SvgElement, pad_chars: &Vec<char>, Ghost(indent): Ghost<nat>)
    requires
        pad_chars@ == pad(indent),
    ensures
        final(buf)@ == old(buf)@ + element_svg(*element, indent),
    decreases *element,
{
    match element {
        SvgElement::Rect { x, y, width, height, rx, fill, stroke, stroke_width, shadow } => {
            write_rect(buf, pad_chars, x, y, width, height, rx, fill, stroke, stroke_width, *shadow);
        },
        SvgElement::Text { x, y, content, font_size, font_family, fill, anchor, font_weight } => {
            write_text(buf, pad_chars, x, y, content, font_size, font_family, fill, anchor, font_weight);
        },
        SvgElement::Path { d, stroke, stroke_width, stroke_dasharray, marker_end } => {
            write_path(buf, pad_chars, d, stroke, stroke_width, stroke_dasharray, *marker_end);
        },
        SvgElement::RawSvg { x, y, width, height, content } => {
            write_raw(buf, pad_chars, x, y, width, height, content);
        },
        SvgElement::Group { id, children } => {
            let ghost start = buf@;
            append_chars(buf, pad_chars);
            append_str(buf, "<g id=\"");
            append_str(buf, id.as_str());
            append_str(buf, "\">\n");
            let ghost head = buf@;
            let mut inner = pad_chars.clone();
            proof {
                reveal_strlit("  ");
            }
            append_str(&mut inner, "  ");
            assert(inner@ =~= pad(indent + 1));
            proof {
                assert(decreases_to!(*element => (*element)->children));
                assert((*element)->children == *children);
            }
            let mut i: usize = 0;
            while i < children.len()
                invariant
                    0 <= i <= children.len(),
                    decreases_to!(*element => *children),
                    inner@ == pad(indent + 1),
                    buf@ == head + children_svg(children@.take(i as int), indent + 1),
                decreases children.len() - i,
            {
                proof {
                    assert(decreases_to!(*children => children@));
                    assert(decreases_to!(children@ => children@[i as int]));
                }
                render_padded(buf, &children[i], &inner, Ghost(indent + 1));
                assert(children@.take(i + 1).drop_last() =~= children@.take(i as int));
                i = i + 1;
            }
            assert(children@.take(children.len() as int) =~= children@);
            append_chars(buf, pad_chars);
            append_str(buf, "</g>\n");
            assert(buf@ =~= start + element_svg(*element, indent));
        },
    }
}

/// Writes the SVG lines of `element`, `indent` levels deep, after what
/// `buf` holds.
pub fn render_element(buf: &mut Vec<char>, element: &SvgElement, indent: usize)
    ensures
        final(buf)@ == old(buf)@ + element_svg(*element, indent as nat),
{
    let mut p: Vec<char> = Vec::new();
    let mut k: usize = 0;
    while k < indent
        invariant
            0 <= k <= indent,
            p@ == pad(k as nat),
        decreases indent - k,
    {
        proof {
            reveal_strlit("  ");
        }
        append_str(&mut p, "  ");
        assert(p@ =~= pad((k + 1) as nat));
        k = k + 1;
    }
    render_padded(buf, element, &p, Ghost(indent as nat));
}

/// Whether `a` and `b` hold the same text.
fn str_is(a: &str, b: &str) -> (r: bool)
    ensures
        r == (a@ == b@),
{
    crate::text::chars_eq(&str_chars(a), &str_chars(b))
}

/// The definitions of a drawing, before the arrowhead colour: the shadow
/// filter and the arrowhead marker.
pub open spec fn defs_head() -> Seq<char> {
    "  <defs>\n    <filter id=\"shadow\" x=\"-4%\" y=\"-4%\" width=\"108%\" height=\"116%\">\n      <feDropShadow dx=\"0\" dy=\"2\" stdDeviation=\"4\" flood-color=\"#000000\" flood-opacity=\"0.08\"/>\n    </filter>\n    <marker id=\"arrowhead\" markerWidth=\"8\" markerHeight=\"6\" refX=\"7\" refY=\"3\" orient=\"auto\" markerUnits=\"strokeWidth\">\n      <path d=\"M0,0 L8,3 L0,6 L2,3 Z\" fill=\""@
}

/// The definitions after the arrowhead colour.
pub open spec fn defs_tail() -> Seq<char> {
    "\"/>\n    </marker>\n  </defs>\n"@
}

/// The SVG document of a drawing: the `svg` element sized to the drawing,
/// its definitions, the background, and the elements one level deep.
pub open spec fn svg_document(scene: SvgScene) -> Seq<char> {
    "<svg xmlns=\"http://www.w3.org/2000/svg\" viewBox=\"0 0 "@ + scene.width@ + " "@ + scene.height@
        + "\" width=\""@ + scene.width@ + "\" height=\""@ + scene.height@ + "\">"@ + "\n"@ + defs_head()
        + scene.edge_color@ + defs_tail() + "  <rect width=\"100%\" height=\"100%\" fill=\""@
        + scene.background@ + "\"/>\n"@ + children_svg(scene.elements@, 1) + "</svg>\n"@
}

/// Writes a drawing as an SVG document.
pub fn render_svg(scene: &SvgScene) -> (s: String)
    ensures
        s@ == svg_document(*scene),
{
    let mut buf: Vec<char> = Vec::new();
    append_str(&mut buf, "<svg xmlns=\"http://www.w3.org/2000/svg\" viewBox=\"0 0 ");
    append_str(&mut buf, scene.width.as_str());
    append_str(&mut buf, " ");
    append_str(&mut buf, scene.height.as_str());
    append_str(&mut buf, "\" width=\"");
    append_str(&mut buf, scene.width.as_str());
    append_str(&mut buf, "\" height=\"");
    append_str(&mut buf, scene.height.as_str());
    append_str(&mut buf, "\">");
    append_str(&mut buf, "\n");
    append_str(
        &mut buf,
        "  <defs>\n    <filter id=\"shadow\" x=\"-4%\" y=\"-4%\" width=\"108%\" height=\"116%\">\n      <feDropShadow dx=\"0\" dy=\"2\" stdDeviation=\"4\" flood-color=\"#000000\" flood-opacity=\"0.08\"/>\n    </filter>\n    <marker id=\"arrowhead\" markerWidth=\"8\" markerHeight=\"6\" refX=\"7\" refY=\"3\" orient=\"auto\" markerUnits=\"strokeWidth\">\n      <path d=\"M0,0 L8,3 L0,6 L2,3 Z\" fill=\"",
    );
    append_str(&mut buf, scene.edge_color.as_str());
    append_str(&mut buf, "\"/>\n    </marker>\n  </defs>\n");
    append_str(&mut buf, "  <rect width=\"100%\" height=\"100%\" fill=\"");
    append_str(&mut buf, scene.background.as_str());
    append_str(&mut buf, "\"/>\n");
    let ghost head = buf@;
    let mut i: usize = 0;
    while i < scene.elements.len()
        invariant
            0 <= i <= scene.elements.len(),
            buf@ == head + children_svg(scene.elements@.take(i as int), 1),
        decreases scene.elements.len() - i,
    {
        render_element(&mut buf, &scene.elements[i], 1);
        assert(scene.elements@.take(i + 1).drop_last() =~= scene.elements@.take(i as int));
        i = i + 1;
    }
    assert(scene.elements@.take(scene.elements.len() as int) =~= scene.elements@);
    append_str(&mut buf, "</svg>\n");
    assert(buf@ =~= svg_document(*scene));
    chars_to_string(&buf)
}

/// A text's content is written only in escaped form: its line is the opening
/// tag, the escaped content, and the closing tag, and the escaped content
/// holds no `<`, `>`, `"` or `'`.
pub proof fn lemma_text_content_escaped(e: SvgElement, indent: nat)
    ensures
        match e {
            SvgElement::Text { x, y, content, font_size, font_family, fill, anchor, font_weight } => {
                &&& element_svg(e, indent) == text_open(
                    pad(indent),
                    x@,
                    y@,
                    font_size@,
                    font_family@,
                    fill@,
                    anchor@,
                    font_weight@,
                ) + escape_xml_of(content@) + "</text>\n"@
                &&& forall|i: int|
                    0 <= i < escape_xml_of(content@).len() ==> !is_markup_char(
                        #[trigger] escape_xml_of(content@)[i],
                    )
            },
            _ => true,
        },
{
    if let SvgElement::Text { content, .. } = e {
        lemma_escape_xml_clean(content@);
    }
}

/// A rectangle has stroke attributes exactly when its stroke is not `none`,
/// and the shadow filter exactly when it casts a shadow.
pub proof fn lemma_rect_attributes(stroke: Seq<char>, stroke_width: Seq<char>, shadow: bool)
    ensures
        stroke_attrs(stroke, stroke_width).len() == 0 <==> stroke == "none"@,
        stroke != "none"@ ==> stroke_attrs(stroke, stroke_width) == " stroke=\""@ + stroke
            + "\" stroke-width=\""@ + stroke_width + "\""@,
        shadow_attr(shadow).len() > 0 <==> shadow,
        shadow ==> shadow_attr(shadow) == " filter=\"url(#shadow)\""@,
{
    reveal_strlit(" stroke=\"");
    reveal_strlit(" filter=\"url(#shadow)\"");
}

/// A group is written as its opening tag, then each of its children one
/// level deeper, in order, then its closing tag.
pub proof fn lemma_group_layout(e: SvgElement, indent: nat)
    ensures
        match e {
            SvgElement::Group { id, children } => {
                &&& element_svg(e, indent) == pad(indent) + "<g id=\""@ + id@ + "\">\n"@ + children_svg(
                    children@,
                    indent + 1,
                ) + pad(indent) + "</g>\n"@
                &&& forall|k: int|
                    0 <= k <= children@.len() ==> children_svg(#[trigger] children@.take(k), indent + 1)
                        + children_svg(children@.skip(k), indent + 1) == children_svg(children@, indent + 1)
            },
            _ => true,
        },
{
    if let SvgElement::Group { children, .. } = e {
        assert forall|k: int| 0 <= k <= children@.len() implies children_svg(#[trigger] children@.take(k), indent + 1)
            + children_svg(children@.skip(k), indent + 1) == children_svg(children@, indent + 1) by {
            lemma_children_split(children@, k, indent + 1);
        }
    }
}

/// The lines of a list of elements are the lines of its first `k` and then
/// those of the rest.
pub proof fn lemma_children_split(es: Seq<SvgElement>, k: int, indent: nat)
    requires
        0 <= k <= es.len(),
    ensures
        children_svg(es.take(k), indent) + children_svg(es.skip(k), indent) == children_svg(es, indent),
    decreases es.len() - k,
{
    if k == es.len() {
        assert(es.take(k) =~= es);
        assert(es.skip(k) =~= Seq::<SvgElement>::empty());
        assert(children_svg(es.take(k), indent) + Seq::<char>::empty() =~= children_svg(es, indent));
    } else {
        lemma_children_split(es, k + 1, indent);
        let a = es.take(k);
        let b = es.skip(k);
        assert(es.take(k + 1).drop_last() =~= a);
        assert(es.take(k + 1).last() == es[k]);
        lemma_children_front(b, indent);
        assert(b.skip(1) =~= es.skip(k + 1));
        assert(b[0] == es[k]);
        assert(children_svg(a, indent) + children_svg(b, indent) =~= children_svg(es.take(k + 1), indent)
            + children_svg(es.skip(k + 1), indent));
    }
}

proof fn lemma_children_front(es: Seq<SvgElement>, indent: nat)
    requires
        es.len() > 0,
    ensures
        children_svg(es, indent) == element_svg(es[0], indent) + children_svg(es.skip(1), indent),
    decreases es.len(),
{
    if es.len() == 1 {
        assert(es.drop_last() =~= Seq::<SvgElement>::empty());
        assert(es.skip(1) =~= Seq::<SvgElement>::empty());
        assert(children_svg(es.drop_last(), indent) =~= Seq::<char>::empty());
        assert(es.last() == es[0]);
        assert(children_svg(es, indent) == children_svg(es.drop_last(), indent) + element_svg(es.last(), indent));
        assert(children_svg(es, indent) =~= element_svg(es[0], indent));
        assert(element_svg(es[0], indent) + Seq::<char>::empty() =~= element_svg(es[0], indent));
    } else {
        let d = es.drop_last();
        lemma_children_front(d, indent);
        assert(d[0] == es[0]);
        assert(es.skip(1).drop_last() =~= d.skip(1));
        assert(es.skip(1).last() == es.last());
        assert(children_svg(es, indent) =~= element_svg(es[0], indent) + children_svg(es.skip(1), indent));
    }
}

/// The document's definitions hold `pat` at `k`.
proof fn lemma_document_holds(scene: SvgScene, pat: Seq<char>, k: int)
    requires
        occurs_at(defs_head(), pat, k),
    ensures
        exists|i: int| occurs_at(#[trigger] svg_document(scene), pat, i),
{
    let before = "<svg xmlns=\"http://www.w3.org/2000/svg\" viewBox=\"0 0 "@ + scene.width@ + " "@ + scene.height@
        + "\" width=\""@ + scene.width@ + "\" height=\""@ + scene.height@ + "\">"@ + "\n"@;
    let after = scene.edge_color@ + defs_tail() + "  <rect width=\"100%\" height=\"100%\" fill=\""@
        + scene.background@ + "\"/>\n"@ + children_svg(scene.elements@, 1) + "</svg>\n"@;
    let doc = svg_document(scene);
    assert(doc =~= before + defs_head() + after);
    let i = before.len() + k;
    assert(doc.subrange(i, i + pat.len()) =~= defs_head().subrange(k, k + pat.len()));
    assert(occurs_at(doc, pat, i));
}

/// Every id that the document's elements refer to is defined in its
/// definitions: the document defines the shadow filter that
/// `filter="url(#shadow)"` names and the arrowhead marker that
/// `marker-end="url(#arrowhead)"` names.
pub proof fn lemma_document_defines_references(scene: SvgScene)
    ensures
        exists|i: int| occurs_at(#[trigger] svg_document(scene), "<filter id=\"shadow\""@, i),
        exists|i: int| occurs_at(#[trigger] svg_document(scene), "<marker id=\"arrowhead\""@, i),
        shadow_attr(true) == " filter=\"url(#shadow)\""@,
        marker_attr(true) == " marker-end=\"url(#arrowhead)\""@,
{
    reveal_strlit("  <defs>\n    <filter id=\"shadow\" x=\"-4%\" y=\"-4%\" width=\"108%\" height=\"116%\">\n      <feDropShadow dx=\"0\" dy=\"2\" stdDeviation=\"4\" flood-color=\"#000000\" flood-opacity=\"0.08\"/>\n    </filter>\n    <marker id=\"arrowhead\" markerWidth=\"8\" markerHeight=\"6\" refX=\"7\" refY=\"3\" orient=\"auto\" markerUnits=\"strokeWidth\">\n      <path d=\"M0,0 L8,3 L0,6 L2,3 Z\" fill=\"");
    reveal_strlit("<filter id=\"shadow\"");
    reveal_strlit("<marker id=\"arrowhead\"");
    assert(defs_head().subrange(13, 32) =~= "<filter id=\"shadow\""@);
    assert(defs_head().subrange(191, 213) =~= "<marker id=\"arrowhead\""@);
    lemma_document_holds(scene, "<filter id=\"shadow\""@, 13);
    lemma_document_holds(scene, "<marker id=\"arrowhead\""@, 191);
}

} // verus!
