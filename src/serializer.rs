//! The writer: every document is written in one canonical layout, whatever
//! order its text was read in. Each line is an indentation depth (four
//! spaces per level) and a body.
use vstd::prelude::*;

use crate::models::{
    Border, BorderModel, Button, ButtonModel, DocumentModel, Image, ImageModel, PlcWordModel,
    StyleModel, VcpDocument,
};
use crate::text::{bool_text, i32_text, push_bool, push_char, push_i32, starts_with};

verus! {

// ---------------------------------------------------------------------------
// Specification
// ---------------------------------------------------------------------------

/// The indentation of a line at `depth`.
pub open spec fn indent(depth: nat) -> Seq<char> {
    Seq::new(4 * depth, |k: int| ' ')
}

/// One written line: indentation, body, line feed.
pub open spec fn line_text(l: (nat, Seq<char>)) -> Seq<char> {
    indent(l.0) + l.1 + seq!['\n']
}

/// The text of a sequence of lines.
pub open spec fn render(layout: Seq<(nat, Seq<char>)>) -> Seq<char>
    decreases layout.len(),
{
    if layout.len() == 0 {
        Seq::empty()
    } else {
        render(layout.drop_last()) + line_text(layout.last())
    }
}

pub open spec fn int_leaf(open: Seq<char>, v: i32, close: Seq<char>) -> Seq<char> {
    open + i32_text(v) + close
}

pub open spec fn text_leaf(open: Seq<char>, v: Seq<char>, close: Seq<char>) -> Seq<char> {
    open + v + close
}

/// A PLC-word block, fields in their canonical order.
pub open spec fn plc_word_layout(p: PlcWordModel) -> Seq<(nat, Seq<char>)> {
    seq![
        (2nat, "<plc_word>"@),
        (3nat, int_leaf("<number>"@, p.number, "</number>"@)),
        (3nat, text_leaf("<color>"@, p.color, "</color>"@)),
        (3nat, int_leaf("<fontsize>"@, p.fontsize, "</fontsize>"@)),
        (3nat, text_leaf("<font>"@, p.font, "</font>"@)),
        (3nat, text_leaf("<fontstyle>"@, p.fontstyle, "</fontstyle>"@)),
        (3nat, text_leaf("<verticalalignment>"@, p.verticalalignment, "</verticalalignment>"@)),
        (3nat, text_leaf("<horizontalalignment>"@, p.horizontalalignment, "</horizontalalignment>"@)),
        (3nat, int_leaf("<marginbottom>"@, p.marginbottom, "</marginbottom>"@)),
        (3nat, text_leaf("<percentage>"@, bool_text(p.percentage), "</percentage>"@)),
        (2nat, "</plc_word>"@),
    ]
}

/// The fields of a border in their canonical order: column_span,
/// column_start, fill, row_span, row_start, outline_color, outline_thickness.
pub open spec fn border_fields_layout(b: BorderModel) -> Seq<(nat, Seq<char>)> {
    seq![
        (2nat, int_leaf("<column_span>"@, b.column_span, "</column_span>"@)),
        (2nat, int_leaf("<column_start>"@, b.column_start, "</column_start>"@)),
        (2nat, text_leaf("<fill>"@, b.fill, "</fill>"@)),
        (2nat, int_leaf("<row_span>"@, b.row_span, "</row_span>"@)),
        (2nat, int_leaf("<row_start>"@, b.row_start, "</row_start>"@)),
        (2nat, text_leaf("<outline_color>"@, b.outline_color, "</outline_color>"@)),
        (2nat, int_leaf("<outline_thickness>"@, b.outline_thickness, "</outline_thickness>"@)),
    ]
}

/// A border block: its fields, then its PLC word if it has one.
pub open spec fn border_layout(b: BorderModel) -> Seq<(nat, Seq<char>)> {
    let plc = match b.plc_word {
        Some(p) => plc_word_layout(p),
        None => Seq::empty(),
    };
    seq![(1nat, "<border>"@)] + border_fields_layout(b) + plc + seq![(1nat, "</border>"@)]
}

/// An image block: column_span, column_start, row_span, row_start, path.
pub open spec fn image_layout(m: ImageModel) -> Seq<(nat, Seq<char>)> {
    seq![
        (1nat, "<image>"@),
        (2nat, int_leaf("<column_span>"@, m.column_span, "</column_span>"@)),
        (2nat, int_leaf("<column_start>"@, m.column_start, "</column_start>"@)),
        (2nat, int_leaf("<row_span>"@, m.row_span, "</row_span>"@)),
        (2nat, int_leaf("<row_start>"@, m.row_start, "</row_start>"@)),
        (2nat, text_leaf("<path>"@, m.path, "</path>"@)),
        (1nat, "</image>"@),
    ]
}

/// A click or hover style block, between `open` and `close`.
pub open spec fn style_layout(s: Option<StyleModel>, open: Seq<char>, close: Seq<char>) -> Seq<
    (nat, Seq<char>),
> {
    match s {
        Some(s) => seq![
            (1nat, open),
            (2nat, int_leaf("<opacity>"@, s.opacity, "</opacity>"@)),
            (2nat, text_leaf("<outline_color>"@, s.outline_color, "</outline_color>"@)),
            (1nat, close),
        ],
        None => Seq::empty(),
    }
}

/// The single line of a button: `row` and `column`, then each span that is
/// present, then the name as text.
pub open spec fn button_line(b: ButtonModel) -> Seq<char> {
    let row_span = match b.row_span {
        Some(v) => " row_span=\""@ + i32_text(v) + "\""@,
        None => Seq::empty(),
    };
    let column_span = match b.column_span {
        Some(v) => " column_span=\""@ + i32_text(v) + "\""@,
        None => Seq::empty(),
    };
    "<button row=\""@ + i32_text(b.row) + "\" column=\""@ + i32_text(b.column) + "\""@
        + row_span + column_span + ">"@ + b.name + "</button>"@
}

pub open spec fn borders_layout(bs: Seq<BorderModel>) -> Seq<(nat, Seq<char>)>
    decreases bs.len(),
{
    if bs.len() == 0 {
        Seq::empty()
    } else {
        borders_layout(bs.drop_last()) + border_layout(bs.last())
    }
}

pub open spec fn images_layout(ms: Seq<ImageModel>) -> Seq<(nat, Seq<char>)>
    decreases ms.len(),
{
    if ms.len() == 0 {
        Seq::empty()
    } else {
        images_layout(ms.drop_last()) + image_layout(ms.last())
    }
}

pub open spec fn buttons_layout(bs: Seq<ButtonModel>) -> Seq<(nat, Seq<char>)>
    decreases bs.len(),
{
    if bs.len() == 0 {
        Seq::empty()
    } else {
        buttons_layout(bs.drop_last()).push((1nat, button_line(bs.last())))
    }
}

/// The three leaves that open every document.
pub open spec fn header_layout(d: DocumentModel) -> Seq<(nat, Seq<char>)> {
    seq![
        (0nat, "<vcp_skin>"@),
        (1nat, text_leaf("<background>"@, d.background, "</background>"@)),
        (1nat, int_leaf("<column_count>"@, d.column_count, "</column_count>"@)),
        (1nat, int_leaf("<row_count>"@, d.row_count, "</row_count>"@)),
    ]
}

/// The whole document: header, borders, images, click style, hover style,
/// buttons.
pub open spec fn document_layout(d: DocumentModel) -> Seq<(nat, Seq<char>)> {
    header_layout(d) + borders_layout(d.borders) + images_layout(d.images) + style_layout(
        d.on_click,
        "<on_click>"@,
        "</on_click>"@,
    ) + style_layout(d.on_hover, "<on_hover>"@, "</on_hover>"@) + buttons_layout(d.buttons)
        + seq![(0nat, "</vcp_skin>"@)]
}

/// The text written for a document.
pub open spec fn serialize_text(d: DocumentModel) -> Seq<char> {
    render(document_layout(d))
}

// ---------------------------------------------------------------------------
// Writer
// ---------------------------------------------------------------------------

pub open spec fn layout_view(v: Seq<(usize, String)>) -> Seq<(nat, Seq<char>)> {
    v.map_values(|l: (usize, String)| (l.0 as nat, l.1@))
}

fn int_line(open: &str, v: i32, close: &str) -> (r: String)
    ensures
        r@ == int_leaf(open@, v, close@),
{
    let mut s = String::from_str(open);
    push_i32(&mut s, v);
    s.append(close);
    s
}

fn text_line(open: &str, v: &String, close: &str) -> (r: String)
    ensures
        r@ == text_leaf(open@, v@, close@),
{
    let mut s = String::from_str(open);
    s.append(v.as_str());
    s.append(close);
    s
}

fn bool_line(open: &str, v: bool, close: &str) -> (r: String)
    ensures
        r@ == text_leaf(open@, bool_text(v), close@),
{
    let mut s = String::from_str(open);
    push_bool(&mut s, v);
    s.append(close);
    s
}

fn push_line(lines: &mut Vec<(usize, String)>, depth: usize, body: String)
    ensures
        layout_view(final(lines)@) == layout_view(old(lines)@).push((depth as nat, body@)),
{
    lines.push((depth, body));
    assert(layout_view(final(lines)@) =~= layout_view(old(lines)@).push((depth as nat, body@)));
}

fn border_lines(lines: &mut Vec<(usize, String)>, b: &Border)
    ensures
        layout_view(final(lines)@) == layout_view(old(lines)@) + border_layout(b@),
{
    push_line(lines, 1, String::from_str("<border>"));
    push_line(lines, 2, int_line("<column_span>", b.column_span, "</column_span>"));
    push_line(lines, 2, int_line("<column_start>", b.column_start, "</column_start>"));
    push_line(lines, 2, text_line("<fill>", &b.fill, "</fill>"));
    push_line(lines, 2, int_line("<row_span>", b.row_span, "</row_span>"));
    push_line(lines, 2, int_line("<row_start>", b.row_start, "</row_start>"));
    push_line(lines, 2, text_line("<outline_color>", &b.outline_color, "</outline_color>"));
    push_line(
        lines,
        2,
        int_line("<outline_thickness>", b.outline_thickness, "</outline_thickness>"),
    );
    let ghost fields = layout_view(lines@);
    if let Some(plc) = &b.plc_word {
        push_line(lines, 2, String::from_str("<plc_word>"));
        push_line(lines, 3, int_line("<number>", plc.number, "</number>"));
        push_line(lines, 3, text_line("<color>", &plc.color, "</color>"));
        push_line(lines, 3, int_line("<fontsize>", plc.fontsize, "</fontsize>"));
        push_line(lines, 3, text_line("<font>", &plc.font, "</font>"));
        push_line(lines, 3, text_line("<fontstyle>", &plc.fontstyle, "</fontstyle>"));
        push_line(
            lines,
            3,
            text_line("<verticalalignment>", &plc.verticalalignment, "</verticalalignment>"),
        );
        push_line(
            lines,
            3,
            text_line(
                "<horizontalalignment>",
                &plc.horizontalalignment,
                "</horizontalalignment>",
            ),
        );
        push_line(lines, 3, int_line("<marginbottom>", plc.marginbottom, "</marginbottom>"));
        push_line(lines, 3, bool_line("<percentage>", plc.percentage, "</percentage>"));
        push_line(lines, 2, String::from_str("</plc_word>"));
        assert(layout_view(lines@) =~= fields + plc_word_layout(plc@));
    } else {
        assert(layout_view(lines@) =~= fields + Seq::<(nat, Seq<char>)>::empty());
    }
    push_line(lines, 1, String::from_str("</border>"));
    assert(layout_view(lines@) =~= layout_view(old(lines)@) + border_layout(b@));
}

fn image_lines(lines: &mut Vec<(usize, String)>, m: &Image)
    ensures
        layout_view(final(lines)@) == layout_view(old(lines)@) + image_layout(m@),
{
    push_line(lines, 1, String::from_str("<image>"));
    push_line(lines, 2, int_line("<column_span>", m.column_span, "</column_span>"));
    push_line(lines, 2, int_line("<column_start>", m.column_start, "</column_start>"));
    push_line(lines, 2, int_line("<row_span>", m.row_span, "</row_span>"));
    push_line(lines, 2, int_line("<row_start>", m.row_start, "</row_start>"));
    push_line(lines, 2, text_line("<path>", &m.path, "</path>"));
    push_line(lines, 1, String::from_str("</image>"));
    assert(layout_view(lines@) =~= layout_view(old(lines)@) + image_layout(m@));
}

fn style_lines(
    lines: &mut Vec<(usize, String)>,
    opacity: i32,
    outline_color: &String,
    open: &str,
    close: &str,
)
    ensures
        layout_view(final(lines)@) == layout_view(old(lines)@) + style_layout(
            Some(StyleModel { opacity: opacity, outline_color: outline_color@ }),
            open@,
            close@,
        ),
{
    push_line(lines, 1, String::from_str(open));
    push_line(lines, 2, int_line("<opacity>", opacity, "</opacity>"));
    push_line(lines, 2, text_line("<outline_color>", outline_color, "</outline_color>"));
    push_line(lines, 1, String::from_str(close));
    assert(layout_view(lines@) =~= layout_view(old(lines)@) + style_layout(
        Some(StyleModel { opacity: opacity, outline_color: outline_color@ }),
        open@,
        close@,
    ));
}

fn button_text(b: &Button) -> (r: String)
    ensures
        r@ == button_line(b@),
{
    let mut s = String::from_str("<button row=\"");
    push_i32(&mut s, b.row);
    s.append("\" column=\"");
    push_i32(&mut s, b.column);
    s.append("\"");
    let ghost head = s@;
    if let Some(row_span) = b.row_span {
        s.append(" row_span=\"");
        push_i32(&mut s, row_span);
        s.append("\"");
    }
    let ghost with_row_span = s@;
    if let Some(column_span) = b.column_span {
        s.append(" column_span=\"");
        push_i32(&mut s, column_span);
        s.append("\"");
    }
    let ghost with_spans = s@;
    s.append(">");
    s.append(b.name.as_str());
    s.append("</button>");
    proof {
        let rs = match b.row_span {
            Some(v) => " row_span=\""@ + i32_text(v) + "\""@,
            None => Seq::empty(),
        };
        let cs = match b.column_span {
            Some(v) => " column_span=\""@ + i32_text(v) + "\""@,
            None => Seq::empty(),
        };
        assert(with_row_span =~= head + rs);
        assert(with_spans =~= head + rs + cs);
        assert(s@ =~= button_line(b@));
    }
    s
}

/// The text of a list of lines.
fn render_lines(lines: &Vec<(usize, String)>) -> (r: String)
    ensures
        r@ == render(layout_view(lines@)),
{
    let mut out = String::new();
    let mut k: usize = 0;
    while k < lines.len()
        invariant
            k <= lines.len(),
            out@ == render(layout_view(lines@).take(k as int)),
        decreases lines.len() - k,
    {
        let ghost before = out@;
        let depth = lines[k].0;
        let mut d: usize = 0;
        while d < depth
            invariant
                d <= depth,
                out@ == before + Seq::new((4 * d) as nat, |i: int| ' '),
            decreases depth - d,
        {
            out.append("    ");
            proof {
                reveal_strlit("    ");
            }
            assert(out@ =~= before + Seq::new((4 * (d + 1)) as nat, |i: int| ' '));
            d = d + 1;
        }
        out.append(lines[k].1.as_str());
        push_char(&mut out, '\n');
        proof {
            let lv = layout_view(lines@);
            assert(lv.take(k + 1).drop_last() =~= lv.take(k as int));
            assert(out@ =~= before + line_text(lv[k as int]));
        }
        k = k + 1;
    }
    assert(layout_view(lines@).take(k as int) =~= layout_view(lines@));
    out
}

/// Writes a document in the canonical layout.
pub fn serialize_vcp(doc: &VcpDocument) -> (r: String)
    ensures
        r@ == serialize_text(doc@),
{
    let mut lines: Vec<(usize, String)> = Vec::new();
    push_line(&mut lines, 0, String::from_str("<vcp_skin>"));
    push_line(&mut lines, 1, text_line("<background>", &doc.background, "</background>"));
    push_line(&mut lines, 1, int_line("<column_count>", doc.column_count, "</column_count>"));
    push_line(&mut lines, 1, int_line("<row_count>", doc.row_count, "</row_count>"));
    let ghost header = layout_view(lines@);
    assert(header =~= header_layout(doc@));

    let mut k: usize = 0;
    while k < doc.borders.len()
        invariant
            k <= doc.borders.len(),
            layout_view(lines@) == header + borders_layout(doc@.borders.take(k as int)),
        decreases doc.borders.len() - k,
    {
        border_lines(&mut lines, &doc.borders[k]);
        proof {
            let bs = doc@.borders.take(k + 1);
            assert(bs.drop_last() =~= doc@.borders.take(k as int));
            assert(layout_view(lines@) =~= header + borders_layout(bs));
        }
        k = k + 1;
    }
    assert(doc@.borders.take(k as int) =~= doc@.borders);
    let ghost with_borders = layout_view(lines@);

    let mut k: usize = 0;
    while k < doc.images.len()
        invariant
            k <= doc.images.len(),
            layout_view(lines@) == with_borders + images_layout(doc@.images.take(k as int)),
        decreases doc.images.len() - k,
    {
        image_lines(&mut lines, &doc.images[k]);
        proof {
            let ms = doc@.images.take(k + 1);
            assert(ms.drop_last() =~= doc@.images.take(k as int));
            assert(layout_view(lines@) =~= with_borders + images_layout(ms));
        }
        k = k + 1;
    }
    assert(doc@.images.take(k as int) =~= doc@.images);
    let ghost with_images = layout_view(lines@);

    if let Some(on_click) = &doc.on_click {
        style_lines(&mut lines, on_click.opacity, &on_click.outline_color, "<on_click>", "</on_click>");
    }
    assert(layout_view(lines@) =~= with_images + style_layout(doc@.on_click, "<on_click>"@, "</on_click>"@));
    let ghost with_click = layout_view(lines@);
    if let Some(on_hover) = &doc.on_hover {
        style_lines(&mut lines, on_hover.opacity, &on_hover.outline_color, "<on_hover>", "</on_hover>");
    }
    assert(layout_view(lines@) =~= with_click + style_layout(doc@.on_hover, "<on_hover>"@, "</on_hover>"@));
    let ghost with_styles = layout_view(lines@);

    let mut k: usize = 0;
    while k < doc.buttons.len()
        invariant
            k <= doc.buttons.len(),
            layout_view(lines@) == with_styles + buttons_layout(doc@.buttons.take(k as int)),
        decreases doc.buttons.len() - k,
    {
        push_line(&mut lines, 1, button_text(&doc.buttons[k]));
        proof {
            let bs = doc@.buttons.take(k + 1);
            assert(bs.drop_last() =~= doc@.buttons.take(k as int));
            assert(layout_view(lines@) =~= with_styles + buttons_layout(bs));
        }
        k = k + 1;
    }
    assert(doc@.buttons.take(k as int) =~= doc@.buttons);
    push_line(&mut lines, 0, String::from_str("</vcp_skin>"));
    assert(layout_view(lines@) =~= document_layout(doc@));
    render_lines(&lines)
}

proof fn lemma_leaf_starts(o: Seq<char>, v: Seq<char>, c: Seq<char>)
    ensures
        starts_with(o + v + c, o),
{
    assert forall|k: int| 0 <= k < o.len() implies (o + v + c)[k] == o[k] by {}
}

/// Whatever order a border's fields were read or set in, its block is
/// written as `<border>`, then column_span, column_start, fill, row_span,
/// row_start, outline_color, outline_thickness, then the PLC word if there
/// is one, then `</border>`.
pub proof fn lemma_border_canonical_order(b: BorderModel)
    ensures
        border_layout(b)[0].1 == "<border>"@,
        starts_with(border_layout(b)[1].1, "<column_span>"@),
        starts_with(border_layout(b)[2].1, "<column_start>"@),
        starts_with(border_layout(b)[3].1, "<fill>"@),
        starts_with(border_layout(b)[4].1, "<row_span>"@),
        starts_with(border_layout(b)[5].1, "<row_start>"@),
        starts_with(border_layout(b)[6].1, "<outline_color>"@),
        starts_with(border_layout(b)[7].1, "<outline_thickness>"@),
        b.plc_word is Some ==> border_layout(b)[8].1 == "<plc_word>"@,
        border_layout(b).last().1 == "</border>"@,
{
    lemma_leaf_starts("<column_span>"@, i32_text(b.column_span), "</column_span>"@);
    lemma_leaf_starts("<column_start>"@, i32_text(b.column_start), "</column_start>"@);
    lemma_leaf_starts("<fill>"@, b.fill, "</fill>"@);
    lemma_leaf_starts("<row_span>"@, i32_text(b.row_span), "</row_span>"@);
    lemma_leaf_starts("<row_start>"@, i32_text(b.row_start), "</row_start>"@);
    lemma_leaf_starts("<outline_color>"@, b.outline_color, "</outline_color>"@);
    lemma_leaf_starts("<outline_thickness>"@, i32_text(b.outline_thickness), "</outline_thickness>"@);
}

} // verus!
