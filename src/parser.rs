//! The reader: a line scanner with one forward cursor. Each block parser
//! starts on its opening line, seeds its defaults, applies the leaf lines it
//! recognizes, and stops on its closing line or at the end of the input.
use vstd::prelude::*;

use crate::models::{
    default_click, default_document, default_hover, BorderModel, Border, Button, ButtonModel,
    DocumentModel, Image, ImageModel, OnClick, OnHover, PlcWord, PlcWordModel, StyleModel,
    VcpDocument,
};
use crate::text::{
    chars_of, find_char, find_char_from, find_from, find_str, i32_or, leaf_bounds, leaf_text,
    lemma_find_char_from_bounds, lemma_find_from_bounds, lines_of, occurs_at, parse_i32,
    parse_i32_in,
    slice_equals, split_lines, starts_with, starts_with_str, string_of, trim, trim_line,
    view_lines,
};

verus! {

// ---------------------------------------------------------------------------
// Specification
// ---------------------------------------------------------------------------

pub open spec fn default_plc_word() -> PlcWordModel {
    PlcWordModel {
        number: 0,
        color: "#000000"@,
        fontsize: 12,
        font: "Arial"@,
        fontstyle: "normal"@,
        verticalalignment: "center"@,
        horizontalalignment: "center"@,
        marginbottom: 0,
        percentage: false,
    }
}

pub open spec fn default_border() -> BorderModel {
    BorderModel {
        row_start: 1,
        column_start: 1,
        row_span: 1,
        column_span: 1,
        fill: "Transparent"@,
        outline_color: "#000000"@,
        outline_thickness: 1,
        plc_word: None,
    }
}

pub open spec fn default_image() -> ImageModel {
    ImageModel { row_start: 1, column_start: 1, row_span: 1, column_span: 1, path: Seq::empty() }
}

/// A PLC word after one line of its block.
pub open spec fn plc_word_line(p: PlcWordModel, l: Seq<char>) -> PlcWordModel {
    if starts_with(l, "<number>"@) {
        PlcWordModel { number: i32_or(leaf_text(l), 0), ..p }
    } else if starts_with(l, "<color>"@) {
        PlcWordModel { color: leaf_text(l), ..p }
    } else if starts_with(l, "<fontsize>"@) {
        PlcWordModel { fontsize: i32_or(leaf_text(l), 12), ..p }
    } else if starts_with(l, "<font>"@) {
        PlcWordModel { font: leaf_text(l), ..p }
    } else if starts_with(l, "<fontstyle>"@) {
        PlcWordModel { fontstyle: leaf_text(l), ..p }
    } else if starts_with(l, "<verticalalignment>"@) {
        PlcWordModel { verticalalignment: leaf_text(l), ..p }
    } else if starts_with(l, "<horizontalalignment>"@) {
        PlcWordModel { horizontalalignment: leaf_text(l), ..p }
    } else if starts_with(l, "<marginbottom>"@) {
        PlcWordModel { marginbottom: i32_or(leaf_text(l), 0), ..p }
    } else if starts_with(l, "<percentage>"@) {
        PlcWordModel { percentage: leaf_text(l) == "true"@, ..p }
    } else {
        p
    }
}

/// A border after one leaf line of its block.
pub open spec fn border_line(b: BorderModel, l: Seq<char>) -> BorderModel {
    if starts_with(l, "<row_start>"@) {
        BorderModel { row_start: i32_or(leaf_text(l), 1), ..b }
    } else if starts_with(l, "<column_start>"@) {
        BorderModel { column_start: i32_or(leaf_text(l), 1), ..b }
    } else if starts_with(l, "<row_span>"@) {
        BorderModel { row_span: i32_or(leaf_text(l), 1), ..b }
    } else if starts_with(l, "<column_span>"@) {
        BorderModel { column_span: i32_or(leaf_text(l), 1), ..b }
    } else if starts_with(l, "<fill>"@) {
        BorderModel { fill: leaf_text(l), ..b }
    } else if starts_with(l, "<outline_color>"@) {
        BorderModel { outline_color: leaf_text(l), ..b }
    } else if starts_with(l, "<outline_thickness>"@) {
        BorderModel { outline_thickness: i32_or(leaf_text(l), 1), ..b }
    } else {
        b
    }
}

/// An image after one line of its block.
pub open spec fn image_line(m: ImageModel, l: Seq<char>) -> ImageModel {
    if starts_with(l, "<row_start>"@) {
        ImageModel { row_start: i32_or(leaf_text(l), 1), ..m }
    } else if starts_with(l, "<column_start>"@) {
        ImageModel { column_start: i32_or(leaf_text(l), 1), ..m }
    } else if starts_with(l, "<row_span>"@) {
        ImageModel { row_span: i32_or(leaf_text(l), 1), ..m }
    } else if starts_with(l, "<column_span>"@) {
        ImageModel { column_span: i32_or(leaf_text(l), 1), ..m }
    } else if starts_with(l, "<path>"@) {
        ImageModel { path: leaf_text(l), ..m }
    } else {
        m
    }
}

/// A click or hover style after one line of its block.
pub open spec fn style_line(s: StyleModel, l: Seq<char>) -> StyleModel {
    if starts_with(l, "<opacity>"@) {
        StyleModel { opacity: i32_or(leaf_text(l), 100), ..s }
    } else if starts_with(l, "<outline_color>"@) {
        StyleModel { outline_color: leaf_text(l), ..s }
    } else {
        s
    }
}

/// Scans the body of a PLC-word block from line `i`: the value, and the
/// line where the scan stopped (its closing line, or the end of input).
pub open spec fn plc_word_scan(lines: Seq<Seq<char>>, i: nat, p: PlcWordModel) -> (
    PlcWordModel,
    nat,
)
    decreases lines.len() - i,
{
    if i >= lines.len() {
        (p, i)
    } else if starts_with(lines[i as int], "</plc_word>"@) {
        (p, i)
    } else {
        plc_word_scan(lines, i + 1, plc_word_line(p, lines[i as int]))
    }
}

/// Scans the body of a border block from line `i`, descending into a
/// nested PLC-word block.
pub open spec fn border_scan(lines: Seq<Seq<char>>, i: nat, b: BorderModel) -> (BorderModel, nat)
    decreases lines.len() - i,
{
    if i >= lines.len() {
        (b, i)
    } else if starts_with(lines[i as int], "</border>"@) {
        (b, i)
    } else if starts_with(lines[i as int], "<plc_word>"@) {
        let (p, j) = plc_word_scan(lines, i + 1, default_plc_word());
        proof {
            lemma_plc_word_scan_index(lines, i + 1, default_plc_word());
        }
        if j >= lines.len() {
            (BorderModel { plc_word: Some(p), ..b }, j)
        } else {
            border_scan(lines, j + 1, BorderModel { plc_word: Some(p), ..b })
        }
    } else {
        border_scan(lines, i + 1, border_line(b, lines[i as int]))
    }
}

/// Scans the body of an image block from line `i`.
pub open spec fn image_scan(lines: Seq<Seq<char>>, i: nat, m: ImageModel) -> (ImageModel, nat)
    decreases lines.len() - i,
{
    if i >= lines.len() {
        (m, i)
    } else if starts_with(lines[i as int], "</image>"@) {
        (m, i)
    } else {
        image_scan(lines, i + 1, image_line(m, lines[i as int]))
    }
}

/// Scans the body of a style block, closed by `close`, from line `i`.
pub open spec fn style_scan(lines: Seq<Seq<char>>, i: nat, s: StyleModel, close: Seq<char>) -> (
    StyleModel,
    nat,
)
    decreases lines.len() - i,
{
    if i >= lines.len() {
        (s, i)
    } else if starts_with(lines[i as int], close) {
        (s, i)
    } else {
        style_scan(lines, i + 1, style_line(s, lines[i as int]), close)
    }
}

/// The text of the attribute written `key` (`row="` and the like) in a
/// button line: from after the first occurrence of `key` up to the next `"`.
pub open spec fn attr_text(line: Seq<char>, key: Seq<char>) -> Option<Seq<char>> {
    match find_from(line, key, 0) {
        None => None,
        Some(k) => match find_char_from(line, '"', k + key.len()) {
            Some(e) => Some(line.subrange(k + key.len(), e)),
            None => None,
        },
    }
}

/// A required button coordinate: 1 when absent or not a number.
pub open spec fn coord_attr(line: Seq<char>, key: Seq<char>) -> i32 {
    match attr_text(line, key) {
        Some(t) => i32_or(t, 1),
        None => 1,
    }
}

/// An optional button span: none when absent or not a number.
pub open spec fn span_attr(line: Seq<char>, key: Seq<char>) -> Option<i32> {
    match attr_text(line, key) {
        Some(t) => parse_i32(t),
        None => None,
    }
}

/// The button that a single `<button ...>name</button>` line describes.
pub open spec fn button_of_line(line: Seq<char>) -> ButtonModel {
    ButtonModel {
        row: coord_attr(line, "row=\""@),
        column: coord_attr(line, "column=\""@),
        row_span: span_attr(line, "row_span=\""@),
        column_span: span_attr(line, "column_span=\""@),
        name: leaf_text(line),
        file: None,
        default_image: None,
    }
}

/// Scans the top level of a document from line `i`.
pub open spec fn document_scan(lines: Seq<Seq<char>>, i: nat, d: DocumentModel) -> DocumentModel
    decreases lines.len() + 1 - i,
{
    if i >= lines.len() {
        d
    } else {
        let l = lines[i as int];
        if starts_with(l, "<background>"@) {
            document_scan(lines, i + 1, DocumentModel { background: leaf_text(l), ..d })
        } else if starts_with(l, "<column_count>"@) {
            document_scan(
                lines,
                i + 1,
                DocumentModel { column_count: i32_or(leaf_text(l), 6), ..d },
            )
        } else if starts_with(l, "<row_count>"@) {
            document_scan(lines, i + 1, DocumentModel { row_count: i32_or(leaf_text(l), 14), ..d })
        } else if starts_with(l, "<border>"@) {
            let (b, j) = border_scan(lines, i + 1, default_border());
            proof {
                lemma_border_scan_index(lines, i + 1, default_border());
            }
            document_scan(lines, j + 1, DocumentModel { borders: d.borders.push(b), ..d })
        } else if starts_with(l, "<image>"@) {
            let (m, j) = image_scan(lines, i + 1, default_image());
            proof {
                lemma_image_scan_index(lines, i + 1, default_image());
            }
            document_scan(lines, j + 1, DocumentModel { images: d.images.push(m), ..d })
        } else if starts_with(l, "<button "@) {
            document_scan(
                lines,
                i + 1,
                DocumentModel { buttons: d.buttons.push(button_of_line(l)), ..d },
            )
        } else if starts_with(l, "<on_click>"@) {
            let (s, j) = style_scan(lines, i + 1, default_click(), "</on_click>"@);
            proof {
                lemma_style_scan_index(lines, i + 1, default_click(), "</on_click>"@);
            }
            document_scan(lines, j + 1, DocumentModel { on_click: Some(s), ..d })
        } else if starts_with(l, "<on_hover>"@) {
            let (s, j) = style_scan(lines, i + 1, default_hover(), "</on_hover>"@);
            proof {
                lemma_style_scan_index(lines, i + 1, default_hover(), "</on_hover>"@);
            }
            document_scan(lines, j + 1, DocumentModel { on_hover: Some(s), ..d })
        } else {
            document_scan(lines, i + 1, d)
        }
    }
}

/// The lines that the reader looks at: those of the text, each trimmed.
pub open spec fn scanned_lines(text: Seq<char>) -> Seq<Seq<char>> {
    lines_of(text).map_values(|l: Seq<char>| trim(l))
}

/// The document that a list of trimmed lines describes.
pub open spec fn parse_lines(lines: Seq<Seq<char>>) -> DocumentModel {
    document_scan(lines, 0, default_document())
}

/// The document that a text describes.
pub open spec fn parse_text(text: Seq<char>) -> DocumentModel {
    parse_lines(scanned_lines(text))
}

// ---------------------------------------------------------------------------
// Where each scan stops
// ---------------------------------------------------------------------------

pub proof fn lemma_plc_word_scan_index(lines: Seq<Seq<char>>, i: nat, p: PlcWordModel)
    ensures
        i <= plc_word_scan(lines, i, p).1,
        i <= lines.len() ==> plc_word_scan(lines, i, p).1 <= lines.len(),
    decreases lines.len() - i,
{
    if i < lines.len() && !starts_with(lines[i as int], "</plc_word>"@) {
        lemma_plc_word_scan_index(lines, i + 1, plc_word_line(p, lines[i as int]));
    }
}

pub proof fn lemma_border_scan_index(lines: Seq<Seq<char>>, i: nat, b: BorderModel)
    ensures
        i <= border_scan(lines, i, b).1,
        i <= lines.len() ==> border_scan(lines, i, b).1 <= lines.len(),
    decreases lines.len() - i,
{
    if i < lines.len() && !starts_with(lines[i as int], "</border>"@) {
        if starts_with(lines[i as int], "<plc_word>"@) {
            let (p, j) = plc_word_scan(lines, i + 1, default_plc_word());
            lemma_plc_word_scan_index(lines, i + 1, default_plc_word());
            if j < lines.len() {
                lemma_border_scan_index(lines, j + 1, BorderModel { plc_word: Some(p), ..b });
            }
        } else {
            lemma_border_scan_index(lines, i + 1, border_line(b, lines[i as int]));
        }
    }
}

pub proof fn lemma_image_scan_index(lines: Seq<Seq<char>>, i: nat, m: ImageModel)
    ensures
        i <= image_scan(lines, i, m).1,
        i <= lines.len() ==> image_scan(lines, i, m).1 <= lines.len(),
    decreases lines.len() - i,
{
    if i < lines.len() && !starts_with(lines[i as int], "</image>"@) {
        lemma_image_scan_index(lines, i + 1, image_line(m, lines[i as int]));
    }
}

pub proof fn lemma_style_scan_index(
    lines: Seq<Seq<char>>,
    i: nat,
    s: StyleModel,
    close: Seq<char>,
)
    ensures
        i <= style_scan(lines, i, s, close).1,
        i <= lines.len() ==> style_scan(lines, i, s, close).1 <= lines.len(),
    decreases lines.len() - i,
{
    if i < lines.len() && !starts_with(lines[i as int], close) {
        lemma_style_scan_index(lines, i + 1, style_line(s, lines[i as int]), close);
    }
}

// ---------------------------------------------------------------------------
// Reader
// ---------------------------------------------------------------------------

/// The text of a leaf line.
fn extract_text_content(line: &Vec<char>) -> (r: String)
    ensures
        r@ == leaf_text(line@),
{
    let (lo, hi) = leaf_bounds(line);
    string_of(line, lo, hi)
}

/// The text of a leaf line read as an `i32`, or `dflt` where it is not one.
fn leaf_i32(line: &Vec<char>, dflt: i32) -> (r: i32)
    ensures
        r == i32_or(leaf_text(line@), dflt),
{
    let (lo, hi) = leaf_bounds(line);
    match parse_i32_in(line, lo, hi) {
        Some(v) => v,
        None => dflt,
    }
}

/// Reads a PLC-word block whose opening line is at `*index`, leaving
/// `*index` on its closing line (or at the end of the input).
fn parse_plc_word(lines: &Vec<Vec<char>>, index: &mut usize) -> (r: PlcWord)
    requires
        *old(index) < lines.len(),
    ensures
        *old(index) < *final(index),
        (r@, *final(index) as nat) == plc_word_scan(
            view_lines(lines@),
            (*old(index) + 1) as nat,
            default_plc_word(),
        ),
        *final(index) <= lines.len(),
{
    let ghost ls = view_lines(lines@);
    let mut plc = PlcWord {
        number: 0,
        color: String::from_str("#000000"),
        fontsize: 12,
        font: String::from_str("Arial"),
        fontstyle: String::from_str("normal"),
        verticalalignment: String::from_str("center"),
        horizontalalignment: String::from_str("center"),
        marginbottom: 0,
        percentage: false,
    };
    *index = *index + 1;
    let ghost start = *index as nat;
    while *index < lines.len()
        invariant
            *index <= lines.len(),
            ls == view_lines(lines@),
            plc_word_scan(ls, start, default_plc_word()) == plc_word_scan(ls, *index as nat, plc@),
        ensures
            *index <= lines.len(),
            plc_word_scan(ls, start, default_plc_word()) == (plc@, *index as nat),
        decreases lines.len() - *index,
    {
        let line = &lines[*index];
        if starts_with_str(line, "</plc_word>") {
            break;
        } else if starts_with_str(line, "<number>") {
            plc.number = leaf_i32(line, 0);
        } else if starts_with_str(line, "<color>") {
            plc.color = extract_text_content(line);
        } else if starts_with_str(line, "<fontsize>") {
            plc.fontsize = leaf_i32(line, 12);
        } else if starts_with_str(line, "<font>") {
            plc.font = extract_text_content(line);
        } else if starts_with_str(line, "<fontstyle>") {
            plc.fontstyle = extract_text_content(line);
        } else if starts_with_str(line, "<verticalalignment>") {
            plc.verticalalignment = extract_text_content(line);
        } else if starts_with_str(line, "<horizontalalignment>") {
            plc.horizontalalignment = extract_text_content(line);
        } else if starts_with_str(line, "<marginbottom>") {
            plc.marginbottom = leaf_i32(line, 0);
        } else if starts_with_str(line, "<percentage>") {
            let (lo, hi) = leaf_bounds(line);
            plc.percentage = slice_equals(line, lo, hi, "true");
        }
        *index = *index + 1;
    }
    proof {
        lemma_plc_word_scan_index(ls, start, default_plc_word());
    }
    plc
}

/// Reads a border block whose opening line is at `*index`, leaving
/// `*index` on its closing line (or past the end of the input).
fn parse_border(lines: &Vec<Vec<char>>, index: &mut usize) -> (r: Border)
    requires
        *old(index) < lines.len(),
    ensures
        *old(index) < *final(index),
        (r@, *final(index) as nat) == border_scan(
            view_lines(lines@),
            (*old(index) + 1) as nat,
            default_border(),
        ),
        *final(index) <= lines.len(),
{
    let ghost ls = view_lines(lines@);
    let mut border = Border {
        row_start: 1,
        column_start: 1,
        row_span: 1,
        column_span: 1,
        fill: String::from_str("Transparent"),
        outline_color: String::from_str("#000000"),
        outline_thickness: 1,
        plc_word: None,
    };
    *index = *index + 1;
    let ghost start = *index as nat;
    while *index < lines.len()
        invariant
            *index <= lines.len(),
            ls == view_lines(lines@),
            border_scan(ls, start, default_border()) == border_scan(ls, *index as nat, border@),
        ensures
            *index <= lines.len(),
            border_scan(ls, start, default_border()) == (border@, *index as nat),
        decreases lines.len() - *index,
    {
        let line = &lines[*index];
        if starts_with_str(line, "</border>") {
            break;
        } else if starts_with_str(line, "<plc_word>") {
            border.plc_word = Some(parse_plc_word(lines, index));
            if *index == lines.len() {
                break;
            }
        } else if starts_with_str(line, "<row_start>") {
            border.row_start = leaf_i32(line, 1);
        } else if starts_with_str(line, "<column_start>") {
            border.column_start = leaf_i32(line, 1);
        } else if starts_with_str(line, "<row_span>") {
            border.row_span = leaf_i32(line, 1);
        } else if starts_with_str(line, "<column_span>") {
            border.column_span = leaf_i32(line, 1);
        } else if starts_with_str(line, "<fill>") {
            border.fill = extract_text_content(line);
        } else if starts_with_str(line, "<outline_color>") {
            border.outline_color = extract_text_content(line);
        } else if starts_with_str(line, "<outline_thickness>") {
            border.outline_thickness = leaf_i32(line, 1);
        }
        *index = *index + 1;
    }
    proof {
        lemma_border_scan_index(ls, start, default_border());
    }
    border
}

/// Reads an image block whose opening line is at `*index`, leaving
/// `*index` on its closing line (or at the end of the input).
fn parse_image(lines: &Vec<Vec<char>>, index: &mut usize) -> (r: Image)
    requires
        *old(index) < lines.len(),
    ensures
        *old(index) < *final(index),
        (r@, *final(index) as nat) == image_scan(
            view_lines(lines@),
            (*old(index) + 1) as nat,
            default_image(),
        ),
        *final(index) <= lines.len(),
{
    let ghost ls = view_lines(lines@);
    let mut image = Image {
        row_start: 1,
        column_start: 1,
        row_span: 1,
        column_span: 1,
        path: String::new(),
    };
    *index = *index + 1;
    let ghost start = *index as nat;
    while *index < lines.len()
        invariant
            *index <= lines.len(),
            ls == view_lines(lines@),
            image_scan(ls, start, default_image()) == image_scan(ls, *index as nat, image@),
        ensures
            *index <= lines.len(),
            image_scan(ls, start, default_image()) == (image@, *index as nat),
        decreases lines.len() - *index,
    {
        let line = &lines[*index];
        if starts_with_str(line, "</image>") {
            break;
        } else if starts_with_str(line, "<row_start>") {
            image.row_start = leaf_i32(line, 1);
        } else if starts_with_str(line, "<column_start>") {
            image.column_start = leaf_i32(line, 1);
        } else if starts_with_str(line, "<row_span>") {
            image.row_span = leaf_i32(line, 1);
        } else if starts_with_str(line, "<column_span>") {
            image.column_span = leaf_i32(line, 1);
        } else if starts_with_str(line, "<path>") {
            image.path = extract_text_content(line);
        }
        *index = *index + 1;
    }
    proof {
        assert(image@.path == image.path@);
    }
    proof {
        lemma_image_scan_index(ls, start, default_image());
    }
    image
}

/// Reads an `on_click` block whose opening line is at `*index`, leaving
/// `*index` on its closing line (or at the end of the input).
fn parse_on_click(lines: &Vec<Vec<char>>, index: &mut usize) -> (r: OnClick)
    requires
        *old(index) < lines.len(),
    ensures
        *old(index) < *final(index),
        (r@, *final(index) as nat) == style_scan(
            view_lines(lines@),
            (*old(index) + 1) as nat,
            default_click(),
            "</on_click>"@,
        ),
        *final(index) <= lines.len(),
{
    let ghost ls = view_lines(lines@);
    let mut on_click = OnClick { opacity: 100, outline_color: String::from_str("#000000") };
    *index = *index + 1;
    let ghost start = *index as nat;
    while *index < lines.len()
        invariant
            *index <= lines.len(),
            ls == view_lines(lines@),
            style_scan(ls, start, default_click(), "</on_click>"@) == style_scan(
                ls,
                *index as nat,
                on_click@,
                "</on_click>"@,
            ),
        ensures
            *index <= lines.len(),
            style_scan(ls, start, default_click(), "</on_click>"@) == (on_click@, *index as nat),
        decreases lines.len() - *index,
    {
        let line = &lines[*index];
        if starts_with_str(line, "</on_click>") {
            break;
        } else if starts_with_str(line, "<opacity>") {
            on_click.opacity = leaf_i32(line, 100);
        } else if starts_with_str(line, "<outline_color>") {
            on_click.outline_color = extract_text_content(line);
        }
        *index = *index + 1;
    }
    proof {
        lemma_style_scan_index(ls, start, default_click(), "</on_click>"@);
    }
    on_click
}

/// Reads an `on_hover` block whose opening line is at `*index`, leaving
/// `*index` on its closing line (or at the end of the input).
fn parse_on_hover(lines: &Vec<Vec<char>>, index: &mut usize) -> (r: OnHover)
    requires
        *old(index) < lines.len(),
    ensures
        *old(index) < *final(index),
        (r@, *final(index) as nat) == style_scan(
            view_lines(lines@),
            (*old(index) + 1) as nat,
            default_hover(),
            "</on_hover>"@,
        ),
        *final(index) <= lines.len(),
{
    let ghost ls = view_lines(lines@);
    let mut on_hover = OnHover { opacity: 100, outline_color: String::from_str("#ffffff") };
    *index = *index + 1;
    let ghost start = *index as nat;
    while *index < lines.len()
        invariant
            *index <= lines.len(),
            ls == view_lines(lines@),
            style_scan(ls, start, default_hover(), "</on_hover>"@) == style_scan(
                ls,
                *index as nat,
                on_hover@,
                "</on_hover>"@,
            ),
        ensures
            *index <= lines.len(),
            style_scan(ls, start, default_hover(), "</on_hover>"@) == (on_hover@, *index as nat),
        decreases lines.len() - *index,
    {
        let line = &lines[*index];
        if starts_with_str(line, "</on_hover>") {
            break;
        } else if starts_with_str(line, "<opacity>") {
            on_hover.opacity = leaf_i32(line, 100);
        } else if starts_with_str(line, "<outline_color>") {
            on_hover.outline_color = extract_text_content(line);
        }
        *index = *index + 1;
    }
    proof {
        lemma_style_scan_index(ls, start, default_hover(), "</on_hover>"@);
    }
    on_hover
}

/// The text of the attribute written `key` in a button line, as bounds.
fn attr_bounds(line: &Vec<char>, key: &str) -> (r: Option<(usize, usize)>)
    ensures
        match r {
            Some((lo, hi)) => lo <= hi <= line.len() && attr_text(line@, key@) == Some(
                line@.subrange(lo as int, hi as int),
            ),
            None => attr_text(line@, key@) is None,
        },
{
    match find_str(line, key, 0) {
        None => None,
        Some(pos) => {
            let n = key.unicode_len();
            proof {
                lemma_find_from_bounds(line@, key@, 0);
            }
            assert(occurs_at(line@, key@, pos as int));
            let len = line.len();
            assert(pos + n <= len);
            let start = pos + n;
            match find_char(line, '"', start) {
                Some(end) => {
                    proof {
                        lemma_find_char_from_bounds(line@, '"', start as int);
                    }
                    Some((start, end))
                },
                None => None,
            }
        },
    }
}

/// Reads a button from its single line: the `row`, `column`, `row_span`
/// and `column_span` attributes, and the text as its name.
fn parse_button(line: &Vec<char>) -> (r: Button)
    ensures
        r@ == button_of_line(line@),
{
    let mut button = Button {
        row: 1,
        column: 1,
        row_span: None,
        column_span: None,
        name: String::new(),
        file: None,
        default_image: None,
    };
    if let Some((lo, hi)) = attr_bounds(line, "row=\"") {
        button.row = match parse_i32_in(line, lo, hi) {
            Some(v) => v,
            None => 1,
        };
    }
    if let Some((lo, hi)) = attr_bounds(line, "column=\"") {
        button.column = match parse_i32_in(line, lo, hi) {
            Some(v) => v,
            None => 1,
        };
    }
    if let Some((lo, hi)) = attr_bounds(line, "row_span=\"") {
        button.row_span = parse_i32_in(line, lo, hi);
    }
    if let Some((lo, hi)) = attr_bounds(line, "column_span=\"") {
        button.column_span = parse_i32_in(line, lo, hi);
    }
    button.name = extract_text_content(line);
    button
}

/// Reads a document. Never fails: values that are not numbers fall back to
/// their defaults, unknown lines are skipped, and a block left open at the
/// end of the text keeps what it had read.
pub fn parse_vcp(content: &str) -> (r: Result<VcpDocument, String>)
    ensures
        r is Ok,
        r matches Ok(d) && d@ == parse_text(content@),
{
    let chars = chars_of(content);
    let raw = split_lines(&chars);
    let mut lines: Vec<Vec<char>> = Vec::new();
    let mut k: usize = 0;
    while k < raw.len()
        invariant
            k <= raw.len(),
            view_lines(raw@) == lines_of(content@),
            view_lines(lines@) =~= view_lines(raw@).take(k as int).map_values(
                |l: Seq<char>| trim(l),
            ),
        decreases raw.len() - k,
    {
        let ghost before = lines@;
        lines.push(trim_line(&raw[k]));
        proof {
            assert(view_lines(lines@) =~= view_lines(before).push(trim(view_lines(raw@)[k as int])));
            assert(view_lines(raw@).take(k + 1) =~= view_lines(raw@).take(k as int).push(
                view_lines(raw@)[k as int],
            ));
        }
        k = k + 1;
    }
    assert(view_lines(raw@).take(k as int) =~= view_lines(raw@));
    let ghost ls = view_lines(lines@);
    assert(ls == scanned_lines(content@));
    let mut doc = VcpDocument::default();
    let mut i: usize = 0;
    while i < lines.len()
        invariant
            i <= lines.len(),
            ls == view_lines(lines@),
            document_scan(ls, 0, default_document()) == document_scan(ls, i as nat, doc@),
        ensures
            document_scan(ls, 0, default_document()) == doc@,
        decreases lines.len() - i,
    {
        let line = &lines[i];
        if starts_with_str(line, "<background>") {
            doc.background = extract_text_content(line);
        } else if starts_with_str(line, "<column_count>") {
            doc.column_count = leaf_i32(line, 6);
        } else if starts_with_str(line, "<row_count>") {
            doc.row_count = leaf_i32(line, 14);
        } else if starts_with_str(line, "<border>") {
            let border = parse_border(&lines, &mut i);
            let ghost prev = doc@;
            doc.borders.push(border);
            assert(doc@.borders =~= prev.borders.push(border@));
            if i == lines.len() {
                assert(document_scan(ls, (i + 1) as nat, doc@) == doc@);
                assert(document_scan(ls, i as nat, doc@) == doc@);
                break;
            }
        } else if starts_with_str(line, "<image>") {
            let image = parse_image(&lines, &mut i);
            let ghost prev = doc@;
            doc.images.push(image);
            assert(doc@.images =~= prev.images.push(image@));
            if i == lines.len() {
                assert(document_scan(ls, (i + 1) as nat, doc@) == doc@);
                assert(document_scan(ls, i as nat, doc@) == doc@);
                break;
            }
        } else if starts_with_str(line, "<button ") {
            let button = parse_button(line);
            let ghost prev = doc@;
            doc.buttons.push(button);
            assert(doc@.buttons =~= prev.buttons.push(button@));
        } else if starts_with_str(line, "<on_click>") {
            doc.on_click = Some(parse_on_click(&lines, &mut i));
            if i == lines.len() {
                assert(document_scan(ls, (i + 1) as nat, doc@) == doc@);
                assert(document_scan(ls, i as nat, doc@) == doc@);
                break;
            }
        } else if starts_with_str(line, "<on_hover>") {
            doc.on_hover = Some(parse_on_hover(&lines, &mut i));
            if i == lines.len() {
                assert(document_scan(ls, (i + 1) as nat, doc@) == doc@);
                assert(document_scan(ls, i as nat, doc@) == doc@);
                break;
            }
        }
        i = i + 1;
    }
    Ok(doc)
}

} // verus!
