//! How leniently the reader treats text it does not expect: values that are
//! not numbers, lines it does not know, and blocks that are never closed.
use vstd::prelude::*;

use crate::models::{BorderModel, DocumentModel, ImageModel, PlcWordModel, StyleModel};
use crate::parser::{
    border_line, border_scan, default_border, default_plc_word, document_scan, image_scan,
    plc_word_line, plc_word_scan, style_scan,
};
use crate::round_trip::{
    lemma_border_tags, lemma_document_tags, lemma_plc_word_tags, lemma_tag_prefix,
    lemma_text_leaf,
};
use crate::serializer::text_leaf;
use crate::text::{parse_i32, starts_with};

verus! {

/// A number field whose text is not a number keeps its default: a border's
/// `row_start` line with such a text gives 1. A PLC word's `percentage` is
/// true exactly when its text is `true`, and false when the line is absent.
pub proof fn lemma_default_substitution(b: BorderModel, v: Seq<char>, p: PlcWordModel, w: Seq<char>)
    requires
        parse_i32(v) is None,
    ensures
        border_line(b, text_leaf("<row_start>"@, v, "</row_start>"@)).row_start == 1,
        plc_word_line(p, text_leaf("<percentage>"@, w, "</percentage>"@)).percentage == (w
            == "true"@),
        default_plc_word().percentage == false,
{
    lemma_border_tags();
    lemma_plc_word_tags();
    lemma_text_leaf("<row_start>"@, v, "</row_start>"@);
    lemma_text_leaf("<percentage>"@, w, "</percentage>"@);
}

/// A tag that the top level of the reader acts on.
pub open spec fn top_level_tag(l: Seq<char>) -> bool {
    starts_with(l, "<background>"@) || starts_with(l, "<column_count>"@) || starts_with(
        l,
        "<row_count>"@,
    ) || starts_with(l, "<border>"@) || starts_with(l, "<image>"@) || starts_with(l, "<button "@)
        || starts_with(l, "<on_click>"@) || starts_with(l, "<on_hover>"@)
}

/// A tag that the reader acts on inside a border block.
pub open spec fn border_tag(l: Seq<char>) -> bool {
    starts_with(l, "</border>"@) || starts_with(l, "<plc_word>"@) || starts_with(
        l,
        "<row_start>"@,
    ) || starts_with(l, "<column_start>"@) || starts_with(l, "<row_span>"@) || starts_with(
        l,
        "<column_span>"@,
    ) || starts_with(l, "<fill>"@) || starts_with(l, "<outline_color>"@) || starts_with(
        l,
        "<outline_thickness>"@,
    )
}

/// A tag that the reader acts on inside a PLC-word block.
pub open spec fn plc_word_tag(l: Seq<char>) -> bool {
    starts_with(l, "</plc_word>"@) || starts_with(l, "<number>"@) || starts_with(l, "<color>"@)
        || starts_with(l, "<fontsize>"@) || starts_with(l, "<font>"@) || starts_with(
        l,
        "<fontstyle>"@,
    ) || starts_with(l, "<verticalalignment>"@) || starts_with(l, "<horizontalalignment>"@)
        || starts_with(l, "<marginbottom>"@) || starts_with(l, "<percentage>"@)
}

/// A tag that the reader acts on inside an image block.
pub open spec fn image_tag(l: Seq<char>) -> bool {
    starts_with(l, "</image>"@) || starts_with(l, "<row_start>"@) || starts_with(
        l,
        "<column_start>"@,
    ) || starts_with(l, "<row_span>"@) || starts_with(l, "<column_span>"@) || starts_with(
        l,
        "<path>"@,
    )
}

/// A tag that the reader acts on inside a style block closed by `close`.
pub open spec fn style_tag(l: Seq<char>, close: Seq<char>) -> bool {
    starts_with(l, close) || starts_with(l, "<opacity>"@) || starts_with(l, "<outline_color>"@)
}

/// A line the reader does not know, at the top level or inside any block,
/// changes nothing: the scan goes on at the next line with the same value.
pub proof fn lemma_unknown_line_skipped(
    ls: Seq<Seq<char>>,
    i: nat,
    d: DocumentModel,
    b: BorderModel,
    p: PlcWordModel,
    m: ImageModel,
    s: StyleModel,
    close: Seq<char>,
)
    requires
        i < ls.len(),
    ensures
        !top_level_tag(ls[i as int]) ==> document_scan(ls, i, d) == document_scan(ls, i + 1, d),
        !border_tag(ls[i as int]) ==> border_scan(ls, i, b) == border_scan(ls, i + 1, b),
        !plc_word_tag(ls[i as int]) ==> plc_word_scan(ls, i, p) == plc_word_scan(ls, i + 1, p),
        !image_tag(ls[i as int]) ==> image_scan(ls, i, m) == image_scan(ls, i + 1, m),
        !style_tag(ls[i as int], close) ==> style_scan(ls, i, s, close) == style_scan(
            ls,
            i + 1,
            s,
            close,
        ),
{
}

proof fn lemma_border_scan_runs_out(ls: Seq<Seq<char>>, i: nat, b: BorderModel)
    requires
        i <= ls.len(),
        forall|j: int| i <= j < ls.len() ==> !starts_with(#[trigger] ls[j], "</border>"@),
    ensures
        border_scan(ls, i, b).1 == ls.len(),
    decreases ls.len() - i,
{
    if i < ls.len() {
        if starts_with(ls[i as int], "<plc_word>"@) {
            let (p, j) = plc_word_scan(ls, i + 1, default_plc_word());
            crate::parser::lemma_plc_word_scan_index(ls, i + 1, default_plc_word());
            if j < ls.len() {
                lemma_border_scan_runs_out(ls, j + 1, BorderModel { plc_word: Some(p), ..b });
            }
        } else {
            lemma_border_scan_runs_out(ls, i + 1, border_line(b, ls[i as int]));
        }
    }
}

/// A border block that is never closed takes every line after its opening
/// one, and the document keeps the border as far as it was read.
pub proof fn lemma_truncated_border(ls: Seq<Seq<char>>, i: nat, d: DocumentModel)
    requires
        i < ls.len(),
        starts_with(ls[i as int], "<border>"@),
        forall|j: int| i < j < ls.len() ==> !starts_with(#[trigger] ls[j], "</border>"@),
    ensures
        border_scan(ls, i + 1, default_border()).1 == ls.len(),
        document_scan(ls, i, d) == (DocumentModel {
            borders: d.borders.push(border_scan(ls, i + 1, default_border()).0),
            ..d
        }),
{
    lemma_border_scan_runs_out(ls, i + 1, default_border());
    lemma_document_tags();
    let l = ls[i as int];
    assert(l =~= "<border>"@ + l.subrange("<border>"@.len() as int, l.len() as int));
    lemma_tag_prefix("<border>"@, l.subrange("<border>"@.len() as int, l.len() as int));
    assert(!starts_with(l, "<background>"@));
    assert(!starts_with(l, "<column_count>"@));
    assert(!starts_with(l, "<row_count>"@));
    let b = border_scan(ls, i + 1, default_border()).0;
    let after = DocumentModel { borders: d.borders.push(b), ..d };
    assert(document_scan(ls, (ls.len() + 1) as nat, after) == after);
}

} // verus!
