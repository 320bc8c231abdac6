//! Reading back what was written: the lines of a written document, and
//! what the reader makes of each of them.
use vstd::prelude::*;

use crate::models::{
    default_click, default_document, default_hover, BorderModel, ButtonModel, DocumentModel,
    ImageModel, PlcWordModel, StyleModel,
};
use crate::parser::{
    attr_text, border_scan, button_of_line, coord_attr, default_border, default_image, default_plc_word,
    document_scan, image_scan, parse_text, plc_word_scan, scanned_lines, span_attr, style_scan,
};
use crate::serializer::{
    border_fields_layout, border_layout, borders_layout, button_line, buttons_layout,
    document_layout, header_layout, image_layout, images_layout, indent, int_leaf,
    plc_word_layout, render, serialize_text, style_layout, text_leaf,
};
use crate::text::{
    all_digits, bool_text, digit_char, digit_value, digits_value, find_char_from, find_from,
    i32_or, i32_text, is_digit, is_ws, leaf_end, leaf_start, leaf_text, lemma_split_lf_len,
    lines_of, nat_digits,
    lemma_find_char_from_bounds, lemma_find_from_bounds, occurs_at, parse_i32, rfind_char_in, split_lf, starts_with, strip_cr, trim, trim_start,
};

verus! {

/// A line body as the writer makes them: one line, opened by `<` and
/// closed by `>`.
pub open spec fn written_body(body: Seq<char>) -> bool {
    &&& body.len() > 0
    &&& body[0] == '<'
    &&& body.last() == '>'
    &&& one_line(body)
}

/// The bodies of a layout, without indentation.
pub open spec fn bodies(layout: Seq<(nat, Seq<char>)>) -> Seq<Seq<char>> {
    layout.map_values(|l: (nat, Seq<char>)| l.1)
}

proof fn lemma_split_lf_extend(x: Seq<char>, l: Seq<char>)
    requires
        forall|k: int| 0 <= k < l.len() ==> l[k] != '\n',
    ensures
        split_lf(x + l).len() == split_lf(x).len(),
        split_lf(x + l) == split_lf(x).update(
            split_lf(x).len() - 1,
            split_lf(x).last() + l,
        ),
    decreases l.len(),
{
    lemma_split_lf_len(x);
    if l.len() == 0 {
        assert(x + l =~= x);
        assert(split_lf(x).last() + l =~= split_lf(x).last());
        assert(split_lf(x).update(split_lf(x).len() - 1, split_lf(x).last()) =~= split_lf(x));
    } else {
        let l0 = l.drop_last();
        lemma_split_lf_extend(x, l0);
        assert((x + l).drop_last() =~= x + l0);
        assert((x + l).last() == l.last());
        assert(l[l.len() - 1] != '\n');
        let r = split_lf(x + l0);
        let n = split_lf(x).len();
        assert(r.last() == split_lf(x).last() + l0);
        assert(split_lf(x + l) == r.update(r.len() - 1, r.last().push(l.last())));
        assert((split_lf(x).last() + l0).push(l.last()) =~= split_lf(x).last() + l);
        assert(split_lf(x + l) =~= split_lf(x).update(
            split_lf(x).len() - 1,
            split_lf(x).last() + l,
        ));
    }
}

/// The text lines of a layout, with indentation.
pub open spec fn text_lines(layout: Seq<(nat, Seq<char>)>) -> Seq<Seq<char>> {
    layout.map_values(|l: (nat, Seq<char>)| indent(l.0) + l.1)
}

proof fn lemma_split_lf_render(layout: Seq<(nat, Seq<char>)>)
    requires
        forall|k: int| 0 <= k < layout.len() ==> written_body(#[trigger] layout[k].1),
    ensures
        split_lf(render(layout)) == text_lines(layout).push(Seq::empty()),
    decreases layout.len(),
{
    if layout.len() == 0 {
        assert(split_lf(render(layout)) =~= text_lines(layout).push(Seq::empty()));
    } else {
        let front = layout.drop_last();
        let l = layout.last();
        assert(written_body(layout[layout.len() - 1].1));
        lemma_split_lf_render(front);
        let body = indent(l.0) + l.1;
        assert forall|k: int| 0 <= k < body.len() implies body[k] != '\n' by {
            if k >= indent(l.0).len() {
                assert(body[k] == l.1[k - indent(l.0).len()]);
            }
        }
        lemma_split_lf_extend(render(front), body);
        let with_body = render(front) + body;
        assert(render(layout) =~= with_body.push('\n'));
        assert(render(layout).drop_last() =~= with_body);
        assert(split_lf(render(layout)) == split_lf(with_body).push(Seq::empty()));
        let n = text_lines(front).len() as int;
        assert(text_lines(front).push(Seq::empty()).update(n, Seq::<char>::empty() + body)
            =~= text_lines(layout));
        assert(split_lf(render(layout)) =~= text_lines(layout).push(Seq::empty()));
    }
}

proof fn lemma_trim_start_spaces(n: nat, body: Seq<char>)
    requires
        body.len() > 0,
        !is_ws(body[0]),
    ensures
        trim_start(Seq::new(n, |k: int| ' ') + body) == body,
    decreases n,
{
    let s = Seq::new(n, |k: int| ' ') + body;
    if n == 0 {
        assert(s =~= body);
    } else {
        assert(s.drop_first() =~= Seq::new((n - 1) as nat, |k: int| ' ') + body);
        lemma_trim_start_spaces((n - 1) as nat, body);
    }
}

proof fn lemma_trim_written(depth: nat, body: Seq<char>)
    requires
        written_body(body),
    ensures
        trim(indent(depth) + body) == body,
{
    lemma_trim_start_spaces(4 * depth, body);
    assert(trim_start(body) == body);
}

/// The reader sees exactly the bodies of the lines that the writer wrote.
pub proof fn lemma_scanned_render(layout: Seq<(nat, Seq<char>)>)
    requires
        forall|k: int| 0 <= k < layout.len() ==> written_body(#[trigger] layout[k].1),
    ensures
        scanned_lines(render(layout)) == bodies(layout),
{
    lemma_split_lf_render(layout);
    let p = split_lf(render(layout));
    let tl = text_lines(layout);
    assert(p.drop_last() =~= tl);
    assert forall|k: int| 0 <= k < tl.len() implies strip_cr(#[trigger] tl[k]) == tl[k] by {
        assert(written_body(layout[k].1));
        assert(tl[k].last() == layout[k].1.last());
    }
    assert(tl.map_values(|l: Seq<char>| strip_cr(l)) =~= tl);
    assert(lines_of(render(layout)) == tl);
    assert forall|k: int| 0 <= k < tl.len() implies trim(#[trigger] tl[k]) == layout[k].1 by {
        lemma_trim_written(layout[k].0, layout[k].1);
    }
    assert(scanned_lines(render(layout)) =~= bodies(layout));
}

// ---------------------------------------------------------------------------
// Numbers
// ---------------------------------------------------------------------------

proof fn lemma_nat_digits(m: nat)
    ensures
        nat_digits(m).len() >= 1,
        all_digits(nat_digits(m)),
        digits_value(nat_digits(m)) == m,
    decreases m,
{
    if m >= 10 {
        lemma_nat_digits(m / 10);
        let s = nat_digits(m / 10);
        let t = nat_digits(m);
        assert(t.drop_last() =~= s);
        assert forall|k: int| 0 <= k < t.len() implies is_digit(#[trigger] t[k]) by {
            if k < s.len() {
                assert(t[k] == s[k]);
            }
        }
        lemma_digit_char(m % 10);
        assert(t.last() == digit_char(m % 10));
        assert(digits_value(t) == 10 * digits_value(s) + digit_value(t.last()));
        assert(m == 10 * (m / 10) + m % 10);
    } else {
        lemma_digit_char(m);
        let t = nat_digits(m);
        assert(t.drop_last() =~= Seq::<char>::empty());
        assert(digits_value(t.drop_last()) == 0);
        assert(digits_value(t) == digit_value(t.last()));
    }
}

proof fn lemma_digit_char(d: nat)
    requires
        d < 10,
    ensures
        digit_value(digit_char(d)) == d,
        is_digit(digit_char(d)),
{
}

/// Writing an `i32` in decimal and reading it back gives it again.
pub proof fn lemma_i32_text_parses(n: i32)
    ensures
        parse_i32(i32_text(n)) == Some(n),
        i32_text(n).len() >= 1,
        forall|k: int| 0 <= k < i32_text(n).len() ==> is_digit(#[trigger] i32_text(n)[k]) || (k
            == 0 && i32_text(n)[k] == '-'),
{
    let t = i32_text(n);
    if n < 0 {
        let m = (-n) as nat;
        lemma_nat_digits(m);
        assert(t.drop_first() =~= nat_digits(m));
        assert forall|k: int| 0 <= k < t.len() implies is_digit(#[trigger] t[k]) || (k == 0
            && t[k] == '-') by {
            if k > 0 {
                assert(t[k] == nat_digits(m)[k - 1]);
            }
        }
    } else {
        lemma_nat_digits(n as nat);
        assert(is_digit(t[0]));
    }
}

// ---------------------------------------------------------------------------
// Leaf lines
// ---------------------------------------------------------------------------

/// An opening or closing tag: `<`, a name without `>`, then `>`.
#[verifier::opaque]
pub open spec fn tag_shaped(t: Seq<char>) -> bool {
    &&& t.len() >= 2
    &&& t[0] == '<'
    &&& t.last() == '>'
    &&& forall|k: int| 0 <= k < t.len() - 1 ==> t[k] != '>'
    &&& one_line(t)
}

/// No line feed in `s`.
pub open spec fn one_line(s: Seq<char>) -> bool {
    forall|k: int| 0 <= k < s.len() ==> s[k] != '\n'
}

/// A closing tag: `<`, then no other `<`.
#[verifier::opaque]
pub open spec fn close_shaped(c: Seq<char>) -> bool {
    &&& c.len() >= 1
    &&& c[0] == '<'
    &&& c.last() == '>'
    &&& forall|k: int| 1 <= k < c.len() ==> c[k] != '<'
    &&& one_line(c)
}

/// A line that begins with the tag `o` begins with no other tag.
pub proof fn lemma_tag_prefix(o: Seq<char>, r: Seq<char>)
    requires
        tag_shaped(o),
    ensures
        starts_with(o + r, o),
        forall|p: Seq<char>| tag_shaped(p) && #[trigger] starts_with(o + r, p) ==> p == o,
{
    reveal(tag_shaped);
    reveal(close_shaped);
    let s = o + r;
    assert forall|k: int| 0 <= k < o.len() implies s[k] == o[k] by {}
    assert forall|p: Seq<char>| tag_shaped(p) && #[trigger] starts_with(s, p) implies p == o by {
        if p.len() < o.len() {
            assert(s[p.len() - 1] == p[p.len() - 1]);
            assert(s[p.len() - 1] == o[p.len() - 1]);
        } else if p.len() > o.len() {
            assert(s[o.len() - 1] == p[o.len() - 1]);
            assert(s[o.len() - 1] == o[o.len() - 1]);
        } else {
            assert forall|k: int| 0 <= k < p.len() implies p[k] == o[k] by {
                assert(s[k] == p[k]);
            }
            assert(p =~= o);
        }
    }
}

/// A line that begins with `q` begins with what `q` begins with.
pub proof fn lemma_prefix_within(q: Seq<char>, r: Seq<char>, p: Seq<char>)
    requires
        p.len() <= q.len(),
    ensures
        starts_with(q + r, p) == starts_with(q, p),
{
    if starts_with(q, p) {
        assert forall|k: int| 0 <= k < p.len() implies (q + r)[k] == p[k] by {
            assert((q + r)[k] == q[k]);
        }
    }
    if starts_with(q + r, p) {
        assert forall|k: int| 0 <= k < p.len() implies q[k] == p[k] by {
            assert((q + r)[k] == q[k]);
        }
    }
}

proof fn lemma_find_char_first(s: Seq<char>, c: char, i: int, k: int)
    requires
        0 <= i <= k < s.len(),
        s[k] == c,
        forall|j: int| i <= j < k ==> s[j] != c,
    ensures
        find_char_from(s, c, i) == Some(k),
    decreases k - i,
{
    if i < k {
        lemma_find_char_first(s, c, i + 1, k);
    }
}

proof fn lemma_rfind_char_last(s: Seq<char>, c: char, lo: int, hi: int, k: int)
    requires
        0 <= lo <= k < hi <= s.len(),
        s[k] == c,
        forall|j: int| k < j < hi ==> s[j] != c,
    ensures
        rfind_char_in(s, c, lo, hi) == Some(k),
    decreases hi - k,
{
    if k < hi - 1 {
        lemma_rfind_char_last(s, c, lo, hi - 1, k);
    }
}

/// The text of `o v c` is `v`, whatever `v` holds.
pub proof fn lemma_leaf_text(o: Seq<char>, v: Seq<char>, c: Seq<char>)
    requires
        tag_shaped(o),
        close_shaped(c),
    ensures
        leaf_text(o + v + c) == v,
{
    reveal(tag_shaped);
    reveal(close_shaped);
    let s = o + v + c;
    let a = o.len() as int;
    let e = a + v.len();
    assert(s[a - 1] == '>');
    assert forall|j: int| 0 <= j < a - 1 implies s[j] != '>' by {
        assert(s[j] == o[j]);
    }
    lemma_find_char_first(s, '>', 0, a - 1);
    assert(leaf_start(s) == a);
    assert(s[e] == c[0]);
    assert forall|j: int| e < j < s.len() implies s[j] != '<' by {
        assert(s[j] == c[j - e]);
    }
    lemma_rfind_char_last(s, '<', a, s.len() as int, e);
    assert(leaf_end(s) == e);
    assert(s.subrange(a, e) =~= v);
}

/// What the reader makes of a line `o v c`.
pub proof fn lemma_text_leaf(o: Seq<char>, v: Seq<char>, c: Seq<char>)
    requires
        tag_shaped(o),
        close_shaped(c),
    ensures
        leaf_text(text_leaf(o, v, c)) == v,
        starts_with(text_leaf(o, v, c), o),
        forall|p: Seq<char>| tag_shaped(p) && #[trigger] starts_with(text_leaf(o, v, c), p) ==> p
            == o,
{
    lemma_leaf_text(o, v, c);
    assert(text_leaf(o, v, c) =~= o + (v + c));
    lemma_tag_prefix(o, v + c);
}

/// What the reader makes of a line `o n c` with `n` written in decimal.
pub proof fn lemma_int_leaf(o: Seq<char>, n: i32, c: Seq<char>)
    requires
        tag_shaped(o),
        close_shaped(c),
    ensures
        leaf_text(int_leaf(o, n, c)) == i32_text(n),
        forall|d: i32| #[trigger] i32_or(leaf_text(int_leaf(o, n, c)), d) == n,
        starts_with(int_leaf(o, n, c), o),
        forall|p: Seq<char>| tag_shaped(p) && #[trigger] starts_with(int_leaf(o, n, c), p) ==> p
            == o,
{
    lemma_text_leaf(o, i32_text(n), c);
    lemma_i32_text_parses(n);
}

/// What the reader makes of a line holding just the tag `o`.
pub proof fn lemma_tag_line(o: Seq<char>)
    requires
        tag_shaped(o),
    ensures
        starts_with(o, o),
        forall|p: Seq<char>| tag_shaped(p) && #[trigger] starts_with(o, p) ==> p == o,
{
    lemma_tag_prefix(o, Seq::empty());
    assert(o + Seq::<char>::empty() =~= o);
}

// ---------------------------------------------------------------------------
// Blocks
// ---------------------------------------------------------------------------

/// The lines at `i` in `ls` are `block`.
pub open spec fn holds_at(ls: Seq<Seq<char>>, i: int, block: Seq<Seq<char>>) -> bool {
    &&& 0 <= i
    &&& i + block.len() <= ls.len()
    &&& forall|k: int| 0 <= k < block.len() ==> ls[i + k] == #[trigger] block[k]
}

/// The tags of a PLC-word block.
pub(crate) proof fn lemma_plc_word_tags()
    ensures
        tag_shaped("</plc_word>"@),
        "</plc_word>"@ != "<fontstyle>"@,
        "true"@ != "false"@,
        tag_shaped("<number>"@),
        close_shaped("</number>"@),
        "<number>"@.len() == 8,
        tag_shaped("<color>"@),
        close_shaped("</color>"@),
        "<color>"@.len() == 7,
        tag_shaped("<fontsize>"@),
        close_shaped("</fontsize>"@),
        "<fontsize>"@.len() == 10,
        tag_shaped("<font>"@),
        close_shaped("</font>"@),
        "<font>"@.len() == 6,
        tag_shaped("<fontstyle>"@),
        close_shaped("</fontstyle>"@),
        "<fontstyle>"@.len() == 11,
        tag_shaped("<verticalalignment>"@),
        close_shaped("</verticalalignment>"@),
        "<verticalalignment>"@.len() == 19,
        tag_shaped("<horizontalalignment>"@),
        close_shaped("</horizontalalignment>"@),
        "<horizontalalignment>"@.len() == 21,
        tag_shaped("<marginbottom>"@),
        close_shaped("</marginbottom>"@),
        "<marginbottom>"@.len() == 14,
        tag_shaped("<percentage>"@),
        close_shaped("</percentage>"@),
        "<percentage>"@.len() == 12,
        "</plc_word>"@.len() == 11,
{
    reveal(tag_shaped);
    reveal(close_shaped);
    reveal_strlit("</plc_word>");
    reveal_strlit("true");
    reveal_strlit("false");
    reveal_strlit("<number>");
    reveal_strlit("<color>");
    reveal_strlit("<fontsize>");
    reveal_strlit("<font>");
    reveal_strlit("<fontstyle>");
    reveal_strlit("<verticalalignment>");
    reveal_strlit("<horizontalalignment>");
    reveal_strlit("<marginbottom>");
    reveal_strlit("<percentage>");
    reveal_strlit("</number>");
    reveal_strlit("</color>");
    reveal_strlit("</fontsize>");
    reveal_strlit("</font>");
    reveal_strlit("</fontstyle>");
    reveal_strlit("</verticalalignment>");
    reveal_strlit("</horizontalalignment>");
    reveal_strlit("</marginbottom>");
    reveal_strlit("</percentage>");
    assert("</plc_word>"@[1] != "<fontstyle>"@[1]);
    assert("true"@.len() != "false"@.len());
}

proof fn lemma_plc_word_block(ls: Seq<Seq<char>>, i: nat, p: PlcWordModel)
    requires
        holds_at(ls, i as int, bodies(plc_word_layout(p))),
    ensures
        plc_word_scan(ls, i + 1, default_plc_word()) == (p, (i + 10) as nat),
{
    lemma_plc_word_tags();
    let b = bodies(plc_word_layout(p));
    assert(b.len() == 11);
    assert(ls[i + 0 as int] == b[0]);
    assert(ls[i + 1 as int] == b[1]);
    assert(ls[i + 2 as int] == b[2]);
    assert(ls[i + 3 as int] == b[3]);
    assert(ls[i + 4 as int] == b[4]);
    assert(ls[i + 5 as int] == b[5]);
    assert(ls[i + 6 as int] == b[6]);
    assert(ls[i + 7 as int] == b[7]);
    assert(ls[i + 8 as int] == b[8]);
    assert(ls[i + 9 as int] == b[9]);
    assert(ls[i + 10 as int] == b[10]);
    lemma_tag_line("</plc_word>"@);
    lemma_int_leaf("<number>"@, p.number, "</number>"@);
    lemma_text_leaf("<color>"@, p.color, "</color>"@);
    lemma_int_leaf("<fontsize>"@, p.fontsize, "</fontsize>"@);
    lemma_text_leaf("<font>"@, p.font, "</font>"@);
    lemma_text_leaf("<fontstyle>"@, p.fontstyle, "</fontstyle>"@);
    lemma_text_leaf("<verticalalignment>"@, p.verticalalignment, "</verticalalignment>"@);
    lemma_text_leaf("<horizontalalignment>"@, p.horizontalalignment, "</horizontalalignment>"@);
    lemma_int_leaf("<marginbottom>"@, p.marginbottom, "</marginbottom>"@);
    lemma_text_leaf("<percentage>"@, bool_text(p.percentage), "</percentage>"@);
    let x0 = default_plc_word();
    let x1 = PlcWordModel { number: p.number, ..x0 };
    assert(plc_word_scan(ls, i + 1, x0) == plc_word_scan(ls, i + 2, x1));
    let x2 = PlcWordModel { color: p.color, ..x1 };
    assert(plc_word_scan(ls, i + 2, x1) == plc_word_scan(ls, i + 3, x2));
    let x3 = PlcWordModel { fontsize: p.fontsize, ..x2 };
    assert(plc_word_scan(ls, i + 3, x2) == plc_word_scan(ls, i + 4, x3));
    let x4 = PlcWordModel { font: p.font, ..x3 };
    assert(plc_word_scan(ls, i + 4, x3) == plc_word_scan(ls, i + 5, x4));
    let x5 = PlcWordModel { fontstyle: p.fontstyle, ..x4 };
    assert(plc_word_scan(ls, i + 5, x4) == plc_word_scan(ls, i + 6, x5));
    let x6 = PlcWordModel { verticalalignment: p.verticalalignment, ..x5 };
    assert(plc_word_scan(ls, i + 6, x5) == plc_word_scan(ls, i + 7, x6));
    let x7 = PlcWordModel { horizontalalignment: p.horizontalalignment, ..x6 };
    assert(plc_word_scan(ls, i + 7, x6) == plc_word_scan(ls, i + 8, x7));
    let x8 = PlcWordModel { marginbottom: p.marginbottom, ..x7 };
    assert(plc_word_scan(ls, i + 8, x7) == plc_word_scan(ls, i + 9, x8));
    let x9 = PlcWordModel { percentage: p.percentage, ..x8 };
    assert(plc_word_scan(ls, i + 9, x8) == plc_word_scan(ls, i + 10, x9));
    assert(plc_word_scan(ls, i + 10, x9) == (x9, (i + 10) as nat));
    assert(x9 == p);
}

/// The tags of a border block.
pub(crate) proof fn lemma_border_tags()
    ensures
        tag_shaped("</border>"@),
        tag_shaped("<plc_word>"@),
        tag_shaped("</plc_word>"@),
        "<plc_word>"@ != "<row_span>"@,
        "</border>"@.len() == 9,
        "<plc_word>"@.len() == 10,
        "</plc_word>"@.len() == 11,
        tag_shaped("<column_span>"@),
        close_shaped("</column_span>"@),
        "<column_span>"@.len() == 13,
        tag_shaped("<column_start>"@),
        close_shaped("</column_start>"@),
        "<column_start>"@.len() == 14,
        tag_shaped("<fill>"@),
        close_shaped("</fill>"@),
        "<fill>"@.len() == 6,
        tag_shaped("<row_span>"@),
        close_shaped("</row_span>"@),
        "<row_span>"@.len() == 10,
        tag_shaped("<row_start>"@),
        close_shaped("</row_start>"@),
        "<row_start>"@.len() == 11,
        tag_shaped("<outline_color>"@),
        close_shaped("</outline_color>"@),
        "<outline_color>"@.len() == 15,
        tag_shaped("<outline_thickness>"@),
        close_shaped("</outline_thickness>"@),
        "<outline_thickness>"@.len() == 19,
{
    reveal(tag_shaped);
    reveal(close_shaped);
    reveal_strlit("<border>");
    reveal_strlit("</border>");
    reveal_strlit("<plc_word>");
    reveal_strlit("</plc_word>");
    reveal_strlit("<column_span>");
    reveal_strlit("<column_start>");
    reveal_strlit("<fill>");
    reveal_strlit("<row_span>");
    reveal_strlit("<row_start>");
    reveal_strlit("<outline_color>");
    reveal_strlit("<outline_thickness>");
    reveal_strlit("</column_span>");
    reveal_strlit("</column_start>");
    reveal_strlit("</fill>");
    reveal_strlit("</row_span>");
    reveal_strlit("</row_start>");
    reveal_strlit("</outline_color>");
    reveal_strlit("</outline_thickness>");
    assert("<plc_word>"@[1] != "<row_span>"@[1]);
}

proof fn lemma_border_fields(ls: Seq<Seq<char>>, i: nat, b: BorderModel)
    requires
        i + 8 <= ls.len(),
        forall|k: int| 0 <= k < 7 ==> ls[i as int + 1 + k] == #[trigger] border_fields_layout(b)[k].1,
    ensures
        border_scan(ls, i + 1, default_border()) == border_scan(
            ls,
            i + 8,
            BorderModel { plc_word: None, ..b },
        ),
{
    lemma_border_tags();
    let f = border_fields_layout(b);
    assert(ls[i + 1 + 0 as int] == f[0].1);
    assert(ls[i + 1 + 1 as int] == f[1].1);
    assert(ls[i + 1 + 2 as int] == f[2].1);
    assert(ls[i + 1 + 3 as int] == f[3].1);
    assert(ls[i + 1 + 4 as int] == f[4].1);
    assert(ls[i + 1 + 5 as int] == f[5].1);
    assert(ls[i + 1 + 6 as int] == f[6].1);
    lemma_int_leaf("<column_span>"@, b.column_span, "</column_span>"@);
    lemma_int_leaf("<column_start>"@, b.column_start, "</column_start>"@);
    lemma_text_leaf("<fill>"@, b.fill, "</fill>"@);
    lemma_int_leaf("<row_span>"@, b.row_span, "</row_span>"@);
    lemma_int_leaf("<row_start>"@, b.row_start, "</row_start>"@);
    lemma_text_leaf("<outline_color>"@, b.outline_color, "</outline_color>"@);
    lemma_int_leaf("<outline_thickness>"@, b.outline_thickness, "</outline_thickness>"@);
    let x0 = default_border();
    let x1 = BorderModel { column_span: b.column_span, ..x0 };
    assert(border_scan(ls, i + 1, x0) == border_scan(ls, i + 2, x1));
    let x2 = BorderModel { column_start: b.column_start, ..x1 };
    assert(border_scan(ls, i + 2, x1) == border_scan(ls, i + 3, x2));
    let x3 = BorderModel { fill: b.fill, ..x2 };
    assert(border_scan(ls, i + 3, x2) == border_scan(ls, i + 4, x3));
    let x4 = BorderModel { row_span: b.row_span, ..x3 };
    assert(border_scan(ls, i + 4, x3) == border_scan(ls, i + 5, x4));
    let x5 = BorderModel { row_start: b.row_start, ..x4 };
    assert(border_scan(ls, i + 5, x4) == border_scan(ls, i + 6, x5));
    let x6 = BorderModel { outline_color: b.outline_color, ..x5 };
    assert(border_scan(ls, i + 6, x5) == border_scan(ls, i + 7, x6));
    let x7 = BorderModel { outline_thickness: b.outline_thickness, ..x6 };
    assert(border_scan(ls, i + 7, x6) == border_scan(ls, i + 8, x7));
    assert(x7 == BorderModel { plc_word: None, ..b });
}

proof fn lemma_border_block(ls: Seq<Seq<char>>, i: nat, b: BorderModel)
    requires
        holds_at(ls, i as int, bodies(border_layout(b))),
    ensures
        border_scan(ls, i + 1, default_border()) == (b, (i + border_layout(b).len() - 1) as nat),
{
    let bl = bodies(border_layout(b));
    let f = border_fields_layout(b);
    assert(bl.len() == border_layout(b).len());
    assert(f.len() == 7);
    assert forall|k: int| 0 <= k < 7 implies ls[i as int + 1 + k] == #[trigger] f[k].1 by {
        assert(bl[1 + k] == f[k].1);
    }
    lemma_border_fields(ls, i, b);
    let x7 = BorderModel { plc_word: None, ..b };
    lemma_border_tags();
    lemma_tag_line("</border>"@);
    match b.plc_word {
        Some(p) => {
            let pl = bodies(plc_word_layout(p));
            assert(bl.len() == 20);
            assert forall|k: int| 0 <= k < pl.len() implies ls[i as int + 8 + k] == #[trigger] pl[k] by {
                assert(bl[8 + k] == pl[k]);
            }
            assert(holds_at(ls, i + 8 as int, pl));
            lemma_plc_word_block(ls, (i + 8) as nat, p);
            assert(ls[i + 8 as int] == pl[0]);
            lemma_tag_line("<plc_word>"@);
            assert(ls[i + 19 as int] == bl[19]);
            assert(border_scan(ls, i + 8, x7) == border_scan(
                ls,
                i + 19,
                BorderModel { plc_word: Some(p), ..x7 },
            ));
            assert(BorderModel { plc_word: Some(p), ..x7 } == b);
        },
        None => {
            assert(bl.len() == 9);
            assert(ls[i + 8 as int] == bl[8]);
            assert(x7 == b);
        },
    }
}

/// The tags of an image block.
proof fn lemma_image_tags()
    ensures
        tag_shaped("</image>"@),
        "</image>"@.len() == 8,
        tag_shaped("<column_span>"@),
        close_shaped("</column_span>"@),
        "<column_span>"@.len() == 13,
        tag_shaped("<column_start>"@),
        close_shaped("</column_start>"@),
        "<column_start>"@.len() == 14,
        tag_shaped("<row_span>"@),
        close_shaped("</row_span>"@),
        "<row_span>"@.len() == 10,
        tag_shaped("<row_start>"@),
        close_shaped("</row_start>"@),
        "<row_start>"@.len() == 11,
        tag_shaped("<path>"@),
        close_shaped("</path>"@),
        "<path>"@.len() == 6,
{
    reveal(tag_shaped);
    reveal(close_shaped);
    reveal_strlit("</image>");
    reveal_strlit("<column_span>");
    reveal_strlit("<column_start>");
    reveal_strlit("<row_span>");
    reveal_strlit("<row_start>");
    reveal_strlit("<path>");
    reveal_strlit("</column_span>");
    reveal_strlit("</column_start>");
    reveal_strlit("</row_span>");
    reveal_strlit("</row_start>");
    reveal_strlit("</path>");
}

proof fn lemma_image_block(ls: Seq<Seq<char>>, i: nat, m: ImageModel)
    requires
        holds_at(ls, i as int, bodies(image_layout(m))),
    ensures
        image_scan(ls, i + 1, default_image()) == (m, (i + 6) as nat),
{
    lemma_image_tags();
    let bl = bodies(image_layout(m));
    assert(bl.len() == 7);
    assert(ls[i + 0 as int] == bl[0]);
    assert(ls[i + 1 as int] == bl[1]);
    assert(ls[i + 2 as int] == bl[2]);
    assert(ls[i + 3 as int] == bl[3]);
    assert(ls[i + 4 as int] == bl[4]);
    assert(ls[i + 5 as int] == bl[5]);
    assert(ls[i + 6 as int] == bl[6]);
    lemma_int_leaf("<column_span>"@, m.column_span, "</column_span>"@);
    lemma_int_leaf("<column_start>"@, m.column_start, "</column_start>"@);
    lemma_int_leaf("<row_span>"@, m.row_span, "</row_span>"@);
    lemma_int_leaf("<row_start>"@, m.row_start, "</row_start>"@);
    lemma_text_leaf("<path>"@, m.path, "</path>"@);
    lemma_tag_line("</image>"@);
    let x0 = default_image();
    let x1 = ImageModel { column_span: m.column_span, ..x0 };
    assert(image_scan(ls, i + 1, x0) == image_scan(ls, i + 2, x1));
    let x2 = ImageModel { column_start: m.column_start, ..x1 };
    assert(image_scan(ls, i + 2, x1) == image_scan(ls, i + 3, x2));
    let x3 = ImageModel { row_span: m.row_span, ..x2 };
    assert(image_scan(ls, i + 3, x2) == image_scan(ls, i + 4, x3));
    let x4 = ImageModel { row_start: m.row_start, ..x3 };
    assert(image_scan(ls, i + 4, x3) == image_scan(ls, i + 5, x4));
    let x5 = ImageModel { path: m.path, ..x4 };
    assert(image_scan(ls, i + 5, x4) == image_scan(ls, i + 6, x5));
    assert(x5 == m);
}

/// The leaf tags of a style block.
proof fn lemma_style_tags()
    ensures
        tag_shaped("<opacity>"@),
        close_shaped("</opacity>"@),
        "<opacity>"@.len() == 9,
        tag_shaped("<outline_color>"@),
        close_shaped("</outline_color>"@),
        "<outline_color>"@.len() == 15,
        tag_shaped("<on_click>"@),
        tag_shaped("</on_click>"@),
        "</on_click>"@.len() == 11,
        tag_shaped("<on_hover>"@),
        tag_shaped("</on_hover>"@),
        "</on_hover>"@.len() == 11,
{
    reveal(tag_shaped);
    reveal(close_shaped);
    reveal_strlit("<opacity>");
    reveal_strlit("</opacity>");
    reveal_strlit("<outline_color>");
    reveal_strlit("</outline_color>");
    reveal_strlit("<on_click>");
    reveal_strlit("</on_click>");
    reveal_strlit("<on_hover>");
    reveal_strlit("</on_hover>");
}

proof fn lemma_style_block(
    ls: Seq<Seq<char>>,
    i: nat,
    s: StyleModel,
    dflt: StyleModel,
    open: Seq<char>,
    close: Seq<char>,
)
    requires
        tag_shaped(close),
        close.len() == 11,
        holds_at(ls, i as int, bodies(style_layout(Some(s), open, close))),
    ensures
        style_scan(ls, i + 1, dflt, close) == (s, (i + 3) as nat),
{
    lemma_style_tags();
    let bl = bodies(style_layout(Some(s), open, close));
    assert(bl.len() == 4);
    assert(ls[i + 1 as int] == bl[1]);
    assert(ls[i + 2 as int] == bl[2]);
    assert(ls[i + 3 as int] == bl[3]);
    lemma_int_leaf("<opacity>"@, s.opacity, "</opacity>"@);
    lemma_text_leaf("<outline_color>"@, s.outline_color, "</outline_color>"@);
    lemma_tag_line(close);
    let x1 = StyleModel { opacity: s.opacity, ..dflt };
    let x2 = StyleModel { outline_color: s.outline_color, ..x1 };
    assert(style_scan(ls, i + 1, dflt, close) == style_scan(ls, i + 2, x1, close));
    assert(style_scan(ls, i + 2, x1, close) == style_scan(ls, i + 3, x2, close));
    assert(x2 == s);
}

// ---------------------------------------------------------------------------
// Written lines
// ---------------------------------------------------------------------------

proof fn lemma_one_line_concat(a: Seq<char>, b: Seq<char>)
    requires
        one_line(a),
        one_line(b),
    ensures
        one_line(a + b),
{
    assert forall|k: int| 0 <= k < (a + b).len() implies (a + b)[k] != '\n' by {
        if k >= a.len() {
            assert((a + b)[k] == b[k - a.len()]);
        }
    }
}

proof fn lemma_written_leaf(o: Seq<char>, v: Seq<char>, c: Seq<char>)
    requires
        tag_shaped(o),
        close_shaped(c),
        one_line(v),
    ensures
        written_body(o + v + c),
{
    reveal(tag_shaped);
    reveal(close_shaped);
    lemma_one_line_concat(o, v);
    lemma_one_line_concat(o + v, c);
    assert((o + v + c)[0] == o[0]);
    assert((o + v + c).last() == c.last());
}

proof fn lemma_written_tag(o: Seq<char>)
    requires
        tag_shaped(o),
    ensures
        written_body(o),
{
    reveal(tag_shaped);
    reveal(close_shaped);
}

proof fn lemma_i32_one_line(n: i32)
    ensures
        one_line(i32_text(n)),
{
    lemma_i32_text_parses(n);
    assert forall|k: int| 0 <= k < i32_text(n).len() implies i32_text(n)[k] != '\n' by {
        assert(is_digit(i32_text(n)[k]) || i32_text(n)[k] == '-');
    }
}

// ---------------------------------------------------------------------------
// The top level
// ---------------------------------------------------------------------------

/// The tags that the top level of the reader tests.
pub(crate) proof fn lemma_document_tags()
    ensures
        tag_shaped("<vcp_skin>"@),
        tag_shaped("</vcp_skin>"@),
        tag_shaped("<background>"@),
        close_shaped("</background>"@),
        tag_shaped("<column_count>"@),
        close_shaped("</column_count>"@),
        tag_shaped("<row_count>"@),
        close_shaped("</row_count>"@),
        tag_shaped("<border>"@),
        tag_shaped("<image>"@),
        tag_shaped("<on_click>"@),
        tag_shaped("<on_hover>"@),
        "<vcp_skin>"@.len() == 10,
        "</vcp_skin>"@.len() == 11,
        "<background>"@.len() == 12,
        "<column_count>"@.len() == 14,
        "<row_count>"@.len() == 11,
        "<border>"@.len() == 8,
        "<image>"@.len() == 7,
        "<on_click>"@.len() == 10,
        "<on_hover>"@.len() == 10,
        "<vcp_skin>"@ != "<on_click>"@,
        "<vcp_skin>"@ != "<on_hover>"@,
        "<on_hover>"@ != "<on_click>"@,
        "</vcp_skin>"@ != "<row_count>"@,
        !starts_with("<vcp_skin>"@, "<button "@),
        !starts_with("</vcp_skin>"@, "<button "@),
        !starts_with("<on_click>"@, "<button "@),
        !starts_with("<on_hover>"@, "<button "@),
        "<column_count>"@[1] == 'c',
{
    reveal(tag_shaped);
    reveal(close_shaped);
    reveal_strlit("<vcp_skin>");
    reveal_strlit("</vcp_skin>");
    reveal_strlit("<background>");
    reveal_strlit("</background>");
    reveal_strlit("<column_count>");
    reveal_strlit("</column_count>");
    reveal_strlit("<row_count>");
    reveal_strlit("</row_count>");
    reveal_strlit("<border>");
    reveal_strlit("<image>");
    reveal_strlit("<on_click>");
    reveal_strlit("<on_hover>");
    reveal_strlit("<button ");
    assert("<vcp_skin>"@[1] != "<on_click>"@[1]);
    assert("<vcp_skin>"@[1] != "<on_hover>"@[1]);
    assert("<on_hover>"@[4] != "<on_click>"@[4]);
    assert("</vcp_skin>"@[1] != "<row_count>"@[1]);
    assert("<vcp_skin>"@[1] != "<button "@[1]);
    assert("</vcp_skin>"@[1] != "<button "@[1]);
    assert("<on_click>"@[1] != "<button "@[1]);
    assert("<on_hover>"@[1] != "<button "@[1]);
}

/// A button that survives being written and read: no sidecar fields (they
/// are never written), a one-line name, and, for a span the button lacks, a
/// name from which that span attribute would not be read.
pub open spec fn button_round_trips(b: ButtonModel) -> bool {
    &&& b.file is None
    &&& b.default_image is None
    &&& one_line(b.name)
    &&& b.row_span is None ==> span_attr(b.name, "row_span=\""@) is None
    &&& b.column_span is None ==> span_attr(b.name, "column_span=\""@) is None
}

/// No `c` in `s`.
pub open spec fn lacks(s: Seq<char>, c: char) -> bool {
    forall|k: int| 0 <= k < s.len() ==> s[k] != c
}

proof fn lemma_not_occurs(s: Seq<char>, p: Seq<char>, j: int, m: int)
    requires
        0 <= m < p.len(),
        0 <= j,
        j + m < s.len(),
        s[j + m] != p[m],
    ensures
        !occurs_at(s, p, j),
{
    if occurs_at(s, p, j) {
        assert(s.subrange(j, j + p.len())[m] == s[j + m]);
    }
}

proof fn lemma_find_first(s: Seq<char>, p: Seq<char>, i: int, k: int)
    requires
        0 <= i <= k,
        occurs_at(s, p, k),
        forall|j: int| i <= j < k ==> !occurs_at(s, p, j),
    ensures
        find_from(s, p, i) == Some(k),
    decreases k - i,
{
    if i < k {
        lemma_find_first(s, p, i + 1, k);
    }
}

proof fn lemma_i32_text_lacks(n: i32, c: char)
    requires
        !is_digit(c),
        c != '-',
    ensures
        lacks(i32_text(n), c),
{
    lemma_i32_text_parses(n);
}

pub open spec fn shifted(o: Option<int>, d: int) -> Option<int> {
    match o {
        Some(k) => Some(k + d),
        None => None,
    }
}

proof fn lemma_find_in_name(line: Seq<char>, hl: int, name: Seq<char>, tail: Seq<char>, key: Seq<char>, i: int)
    requires
        0 <= hl <= i,
        line.len() == hl + name.len() + tail.len(),
        forall|t: int| 0 <= t < name.len() ==> line[hl + t] == name[t],
        forall|t: int| 0 <= t < tail.len() ==> line[hl + name.len() + t] == tail[t],
        key.len() >= 1,
        tail.len() >= 1,
        lacks(tail, key[0]),
        forall|t: int| 0 <= t < key.len() ==> key[t] != tail[0],
    ensures
        find_from(line, key, i) == shifted(find_from(name, key, i - hl), hl),
    decreases line.len() + 1 - i,
{
    let hn = hl + name.len();
    if i > line.len() - key.len() {
    } else {
        let in_line = occurs_at(line, key, i);
        let in_name = occurs_at(name, key, i - hl);
        if i + key.len() <= hn {
            assert(line.subrange(i, i + key.len()) =~= name.subrange(i - hl, i - hl + key.len()));
        } else if i < hn {
            assert(line[hn] == tail[0]);
            lemma_not_occurs(line, key, i, hn - i);
        } else {
            assert(line[i] == tail[i - hn]);
            lemma_not_occurs(line, key, i, 0);
        }
        assert(in_line == in_name);
        if !in_line {
            lemma_find_in_name(line, hl, name, tail, key, i + 1);
        }
    }
}

proof fn lemma_find_char_in_name(line: Seq<char>, hl: int, name: Seq<char>, tail: Seq<char>, x: int)
    requires
        0 <= hl <= x,
        line.len() == hl + name.len() + tail.len(),
        forall|t: int| 0 <= t < name.len() ==> line[hl + t] == name[t],
        forall|t: int| 0 <= t < tail.len() ==> line[hl + name.len() + t] == tail[t],
        lacks(tail, '"'),
    ensures
        find_char_from(line, '"', x) == shifted(find_char_from(name, '"', x - hl), hl),
    decreases line.len() - x,
{
    if x < line.len() {
        if x >= hl + name.len() {
            assert(line[x] == tail[x - hl - name.len()]);
        }
        if line[x] != '"' {
            lemma_find_char_in_name(line, hl, name, tail, x + 1);
        }
    }
}

proof fn lemma_find_skip(s: Seq<char>, p: Seq<char>, i: int, k: int)
    requires
        0 <= i <= k,
        forall|j: int| i <= j < k ==> !occurs_at(s, p, j),
    ensures
        find_from(s, p, i) == find_from(s, p, k),
    decreases k - i,
{
    if i < k {
        lemma_find_skip(s, p, i + 1, k);
    }
}

/// In a button line whose head holds no `key`, the attribute `key` is
/// read from the name alone.
proof fn lemma_attr_in_name(
    line: Seq<char>,
    head: Seq<char>,
    name: Seq<char>,
    tail: Seq<char>,
    key: Seq<char>,
    at: int,
    m: int,
)
    requires
        line == head + name + tail,
        key.len() >= 1,
        0 <= m < key.len(),
        forall|j: int| 0 <= j < head.len() && j != at ==> head[j] != key[0],
        0 <= at < head.len() ==> at + m < head.len() && head[at + m] != key[m],
        tail.len() >= 1,
        lacks(tail, key[0]),
        lacks(tail, '"'),
        forall|t: int| 0 <= t < key.len() ==> key[t] != tail[0],
    ensures
        attr_text(line, key) == attr_text(name, key),
{
    let hl = head.len() as int;
    assert forall|j: int| 0 <= j < hl implies !occurs_at(line, key, j) by {
        if j == at {
            assert(line[j + m] == head[j + m]);
            lemma_not_occurs(line, key, j, m);
        } else {
            assert(line[j] == head[j]);
            lemma_not_occurs(line, key, j, 0);
        }
    }
    lemma_find_skip(line, key, 0, hl);
    assert forall|t: int| 0 <= t < name.len() implies line[hl + t] == name[t] by {}
    assert forall|t: int| 0 <= t < tail.len() implies line[hl + name.len() + t] == tail[t] by {}
    lemma_find_in_name(line, hl, name, tail, key, hl);
    match find_from(name, key, 0) {
        None => {},
        Some(k) => {
            lemma_find_from_bounds(name, key, 0);
            let st = k + key.len();
            lemma_find_char_in_name(line, hl, name, tail, st + hl);
            match find_char_from(name, '"', st) {
                None => {},
                Some(e) => {
                    lemma_find_char_from_bounds(name, '"', st);
                    assert(line.subrange(st + hl, e + hl) =~= name.subrange(st, e));
                },
            }
        },
    }
}

pub open spec fn row_span_attr(b: ButtonModel) -> Seq<char> {
    match b.row_span {
        Some(v) => " row_span=\""@ + i32_text(v) + "\""@,
        None => Seq::empty(),
    }
}

pub open spec fn column_span_attr(b: ButtonModel) -> Seq<char> {
    match b.column_span {
        Some(v) => " column_span=\""@ + i32_text(v) + "\""@,
        None => Seq::empty(),
    }
}

/// A button line up to its first `>`, that `>` excluded.
pub open spec fn button_head(b: ButtonModel) -> Seq<char> {
    "<button row=\""@ + i32_text(b.row) + "\" column=\""@ + i32_text(b.column) + "\""@
        + row_span_attr(b) + column_span_attr(b)
}

proof fn lemma_lacks_concat(x: Seq<char>, y: Seq<char>, c: char)
    requires
        lacks(x, c),
        lacks(y, c),
    ensures
        lacks(x + y, c),
{
    assert forall|k: int| 0 <= k < (x + y).len() implies (x + y)[k] != c by {
        if k >= x.len() {
            assert((x + y)[k] == y[k - x.len()]);
        }
    }
}

/// The characters that a button head lacks.
proof fn lemma_button_head_lacks(b: ButtonModel, c: char)
    requires
        c == '>' || c == '\n',
    ensures
        lacks(button_head(b), c),
        button_line(b) == button_head(b) + ">"@ + b.name + "</button>"@,
        button_head(b).len() >= 26,
        button_head(b)[0] == '<',
{
    reveal_strlit("<button row=\"");
    reveal_strlit("\" column=\"");
    reveal_strlit("\"");
    reveal_strlit(" row_span=\"");
    reveal_strlit(" column_span=\"");
    lemma_i32_text_lacks(b.row, c);
    lemma_i32_text_lacks(b.column, c);
    lemma_i32_text_parses(b.row);
    lemma_i32_text_parses(b.column);
    let a = "<button row=\""@;
    let rt = i32_text(b.row);
    let bq = "\" column=\""@;
    let ct = i32_text(b.column);
    let d = "\""@;
    let rs = row_span_attr(b);
    let cs = column_span_attr(b);
    match b.row_span {
        Some(v) => {
            lemma_i32_text_lacks(v, c);
            lemma_lacks_concat(" row_span=\""@, i32_text(v), c);
            lemma_lacks_concat(" row_span=\""@ + i32_text(v), d, c);
        },
        None => {},
    }
    match b.column_span {
        Some(v) => {
            lemma_i32_text_lacks(v, c);
            lemma_lacks_concat(" column_span=\""@, i32_text(v), c);
            lemma_lacks_concat(" column_span=\""@ + i32_text(v), d, c);
        },
        None => {},
    }
    lemma_lacks_concat(a, rt, c);
    lemma_lacks_concat(a + rt, bq, c);
    lemma_lacks_concat(a + rt + bq, ct, c);
    lemma_lacks_concat(a + rt + bq + ct, d, c);
    lemma_lacks_concat(a + rt + bq + ct + d, rs, c);
    lemma_lacks_concat(a + rt + bq + ct + d + rs, cs, c);
    assert(button_line(b) =~= button_head(b) + ">"@ + b.name + "</button>"@);
}

/// The shape of a button line, as the top level of the reader sees it.
proof fn lemma_button_shape(b: ButtonModel)
    requires
        one_line(b.name),
    ensures
        leaf_text(button_line(b)) == b.name,
        written_body(button_line(b)),
        starts_with(button_line(b), "<button "@),
        forall|p: Seq<char>| tag_shaped(p) && p.len() <= 14 ==> !#[trigger] starts_with(
            button_line(b),
            p,
        ),
{
    reveal(tag_shaped);
    reveal(close_shaped);
    reveal_strlit(">");
    reveal_strlit("</button>");
    reveal_strlit("<button ");
    reveal_strlit("<button row=\"");
    lemma_button_head_lacks(b, '>');
    lemma_button_head_lacks(b, '\n');
    let q = button_head(b);
    let head = q + ">"@;
    let f = "</button>"@;
    let line = button_line(b);
    assert(line =~= head + b.name + f);
    assert(head[head.len() - 1] == '>');
    assert forall|k: int| 0 <= k < head.len() - 1 implies head[k] != '>' by {
        assert(head[k] == q[k]);
    }
    lemma_lacks_concat(q, ">"@, '\n');
    assert(tag_shaped(head));
    assert(close_shaped(f));
    lemma_leaf_text(head, b.name, f);
    lemma_one_line_concat(head, b.name);
    lemma_one_line_concat(head + b.name, f);
    assert(line[0] == '<');
    assert(line.last() == '>');
    let a = "<button row=\""@;
    assert(starts_with(a, "<button "@));
    assert(q =~= a + (q.subrange(13, q.len() as int)));
    assert(line =~= a + (q.subrange(13, q.len() as int) + ">"@ + b.name + f));
    lemma_prefix_within(a, q.subrange(13, q.len() as int) + ">"@ + b.name + f, "<button "@);
    assert forall|p: Seq<char>| tag_shaped(p) && p.len() <= 14 implies !#[trigger] starts_with(
        line,
        p,
    ) by {
        if starts_with(line, p) {
            assert(line[p.len() - 1] == p[p.len() - 1]);
            assert(line[p.len() - 1] == q[p.len() - 1]);
        }
    }
}

/// The `row` attribute of a written button line.
proof fn lemma_button_row(b: ButtonModel)
    ensures
        coord_attr(button_line(b), "row=\""@) == b.row,
{
    reveal_strlit("<button row=\"");
    reveal_strlit("\" column=\"");
    reveal_strlit("row=\"");
    let line = button_line(b);
    let a = "<button row=\""@;
    let rt = i32_text(b.row);
    let bq = "\" column=\""@;
    let key = "row=\""@;
    let rest = i32_text(b.column) + "\""@ + row_span_attr(b) + column_span_attr(b) + ">"@ + b.name
        + "</button>"@;
    assert(line =~= a + rt + bq + rest);
    lemma_i32_text_parses(b.row);
    lemma_i32_text_lacks(b.row, '"');
    assert forall|j: int| 0 <= j < 8 implies !occurs_at(line, key, j) by {
        assert(line[j] == a[j]);
        lemma_not_occurs(line, key, j, 0);
    }
    assert(line.subrange(8, 13) =~= key);
    lemma_find_first(line, key, 0, 8);
    let e = 13 + rt.len() as int;
    assert(line[e] == bq[0]);
    assert forall|j: int| 13 <= j < e implies line[j] != '"' by {
        assert(line[j] == rt[j - 13]);
    }
    lemma_find_char_first(line, '"', 13, e);
    assert(line.subrange(13, e) =~= rt);
}

/// The `column` attribute of a written button line.
proof fn lemma_button_column(b: ButtonModel)
    ensures
        coord_attr(button_line(b), "column=\""@) == b.column,
{
    reveal_strlit("<button row=\"");
    reveal_strlit("\" column=\"");
    reveal_strlit("\"");
    reveal_strlit("column=\"");
    let line = button_line(b);
    let a = "<button row=\""@;
    let rt = i32_text(b.row);
    let bq = "\" column=\""@;
    let ct = i32_text(b.column);
    let d = "\""@;
    let key = "column=\""@;
    let rest = row_span_attr(b) + column_span_attr(b) + ">"@ + b.name + "</button>"@;
    assert(line =~= a + rt + bq + ct + d + rest);
    lemma_i32_text_parses(b.column);
    lemma_i32_text_lacks(b.row, 'c');
    lemma_i32_text_lacks(b.column, '"');
    let k = 15 + rt.len() as int;
    assert forall|j: int| 0 <= j < k implies !occurs_at(line, key, j) by {
        if j < 13 {
            assert(line[j] == a[j]);
        } else if j < 13 + rt.len() {
            assert(line[j] == rt[j - 13]);
        } else {
            assert(line[j] == bq[j - 13 - rt.len()]);
        }
        lemma_not_occurs(line, key, j, 0);
    }
    assert(line.subrange(k, k + 8) =~= key);
    lemma_find_first(line, key, 0, k);
    let st = k + 8;
    let e = st + ct.len() as int;
    assert(line[e] == d[0]);
    assert forall|j: int| st <= j < e implies line[j] != '"' by {
        assert(line[j] == ct[j - st]);
    }
    lemma_find_char_first(line, '"', st, e);
    assert(line.subrange(st, e) =~= ct);
}

/// The `row_span` attribute of a written button line.
#[verifier::rlimit(60)]
proof fn lemma_button_row_span(b: ButtonModel)
    requires
        button_round_trips(b),
    ensures
        span_attr(button_line(b), "row_span=\""@) == b.row_span,
{
    reveal_strlit("<button row=\"");
    reveal_strlit("\" column=\"");
    reveal_strlit("\"");
    reveal_strlit(" row_span=\"");
    reveal_strlit(" column_span=\"");
    reveal_strlit("row_span=\"");
    reveal_strlit(">");
    reveal_strlit("</button>");
    let line = button_line(b);
    let a = "<button row=\""@;
    let rt = i32_text(b.row);
    let bq = "\" column=\""@;
    let ct = i32_text(b.column);
    let d = "\""@;
    let key = "row_span=\""@;
    lemma_i32_text_lacks(b.row, 'r');
    lemma_i32_text_lacks(b.column, 'r');
    let mid = rt + bq + ct + d;
    lemma_lacks_concat(rt, bq, 'r');
    lemma_lacks_concat(rt + bq, ct, 'r');
    lemma_lacks_concat(rt + bq + ct, d, 'r');
    assert(a[11] != key[3]);
    match b.row_span {
        Some(v) => {
            let vt = i32_text(v);
            let rest = column_span_attr(b) + ">"@ + b.name + "</button>"@;
            assert(line =~= a + mid + " row_span=\""@ + vt + d + rest);
            lemma_i32_text_parses(v);
            lemma_i32_text_lacks(v, '"');
            let k = 13 + mid.len() as int + 1;
            assert forall|j: int| 0 <= j < k implies !occurs_at(line, key, j) by {
                if j < 13 {
                    assert(line[j] == a[j]);
                    if j == 8 {
                        assert(line[11] == a[11]);
                        lemma_not_occurs(line, key, j, 3);
                    } else {
                        lemma_not_occurs(line, key, j, 0);
                    }
                } else if j < 13 + mid.len() {
                    assert(line[j] == mid[j - 13]);
                    lemma_not_occurs(line, key, j, 0);
                } else {
                    assert(line[j] == ' ');
                    lemma_not_occurs(line, key, j, 0);
                }
            }
            assert(line.subrange(k, k + 10) =~= key);
            lemma_find_first(line, key, 0, k);
            let st = k + 10;
            let e = st + vt.len() as int;
            assert(line[e] == d[0]);
            assert forall|j: int| st <= j < e implies line[j] != '"' by {
                assert(line[j] == vt[j - st]);
            }
            lemma_find_char_first(line, '"', st, e);
            assert(line.subrange(st, e) =~= vt);
        },
        None => {
            let cs = column_span_attr(b);
            match b.column_span {
                Some(w) => {
                    lemma_i32_text_lacks(w, 'r');
                    lemma_lacks_concat(" column_span=\""@, i32_text(w), 'r');
                    lemma_lacks_concat(" column_span=\""@ + i32_text(w), d, 'r');
                },
                None => {},
            }
            lemma_lacks_concat(mid, cs, 'r');
            lemma_lacks_concat(mid + cs, ">"@, 'r');
            let head = a + (mid + cs + ">"@);
            assert(line =~= head + b.name + "</button>"@);
            assert forall|j: int| 0 <= j < head.len() && j != 8 implies head[j] != key[0] by {
                if j >= 13 {
                    assert(head[j] == (mid + cs + ">"@)[j - 13]);
                }
            }
            lemma_attr_in_name(line, head, b.name, "</button>"@, key, 8, 3);
        },
    }
}

/// The `column_span` attribute of a written button line.
#[verifier::rlimit(60)]
proof fn lemma_button_column_span(b: ButtonModel)
    requires
        button_round_trips(b),
    ensures
        span_attr(button_line(b), "column_span=\""@) == b.column_span,
{
    reveal_strlit("<button row=\"");
    reveal_strlit("\" column=\"");
    reveal_strlit("\"");
    reveal_strlit(" row_span=\"");
    reveal_strlit(" column_span=\"");
    reveal_strlit("column_span=\"");
    reveal_strlit(">");
    reveal_strlit("</button>");
    let line = button_line(b);
    let a = "<button row=\""@;
    let rt = i32_text(b.row);
    let bq = "\" column=\""@;
    let ct = i32_text(b.column);
    let d = "\""@;
    let rs = row_span_attr(b);
    let key = "column_span=\""@;
    lemma_i32_text_lacks(b.row, 'c');
    lemma_i32_text_lacks(b.column, 'c');
    match b.row_span {
        Some(w) => {
            lemma_i32_text_lacks(w, 'c');
            lemma_lacks_concat(" row_span=\""@, i32_text(w), 'c');
            lemma_lacks_concat(" row_span=\""@ + i32_text(w), d, 'c');
        },
        None => {},
    }
    let after = ct + d + rs;
    lemma_lacks_concat(ct, d, 'c');
    lemma_lacks_concat(ct + d, rs, 'c');
    let at = 15 + rt.len() as int;
    assert(bq[8] != key[6]);
    match b.column_span {
        Some(v) => {
            let vt = i32_text(v);
            let rest = ">"@ + b.name + "</button>"@;
            assert(line =~= a + rt + bq + after + " column_span=\""@ + vt + d + rest);
            lemma_i32_text_parses(v);
            lemma_i32_text_lacks(v, '"');
            let k = 13 + rt.len() as int + 10 + after.len() as int + 1;
            assert forall|j: int| 0 <= j < k implies !occurs_at(line, key, j) by {
                if j < 13 {
                    assert(line[j] == a[j]);
                    lemma_not_occurs(line, key, j, 0);
                } else if j < 13 + rt.len() {
                    assert(line[j] == rt[j - 13]);
                    lemma_not_occurs(line, key, j, 0);
                } else if j < 23 + rt.len() {
                    assert(line[j] == bq[j - 13 - rt.len()]);
                    if j == at {
                        assert(line[j + 6] == bq[8]);
                        lemma_not_occurs(line, key, j, 6);
                    } else {
                        lemma_not_occurs(line, key, j, 0);
                    }
                } else if j < 23 + rt.len() + after.len() {
                    assert(line[j] == after[j - 23 - rt.len()]);
                    lemma_not_occurs(line, key, j, 0);
                } else {
                    assert(line[j] == ' ');
                    lemma_not_occurs(line, key, j, 0);
                }
            }
            assert(line.subrange(k, k + 13) =~= key);
            lemma_find_first(line, key, 0, k);
            let st = k + 13;
            let e = st + vt.len() as int;
            assert(line[e] == d[0]);
            assert forall|j: int| st <= j < e implies line[j] != '"' by {
                assert(line[j] == vt[j - st]);
            }
            lemma_find_char_first(line, '"', st, e);
            assert(line.subrange(st, e) =~= vt);
        },
        None => {
            lemma_lacks_concat(after, ">"@, 'c');
            let head = a + rt + bq + (after + ">"@);
            assert(line =~= head + b.name + "</button>"@);
            assert forall|j: int| 0 <= j < head.len() && j != at implies head[j] != key[0] by {
                if j < 13 {
                    assert(head[j] == a[j]);
                } else if j < 13 + rt.len() {
                    assert(head[j] == rt[j - 13]);
                } else if j < 23 + rt.len() {
                    assert(head[j] == bq[j - 13 - rt.len()]);
                } else {
                    assert(head[j] == (after + ">"@)[j - 23 - rt.len()]);
                }
            }
            assert(head[at + 6] == bq[8]);
            lemma_attr_in_name(line, head, b.name, "</button>"@, key, at, 6);
        },
    }
}

/// What the top level of the reader makes of a written button line.
proof fn lemma_button_line(b: ButtonModel)
    requires
        button_round_trips(b),
    ensures
        button_of_line(button_line(b)) == b,
        written_body(button_line(b)),
        starts_with(button_line(b), "<button "@),
        forall|p: Seq<char>| tag_shaped(p) && p.len() <= 14 ==> !#[trigger] starts_with(
            button_line(b),
            p,
        ),
{
    lemma_button_shape(b);
    lemma_button_row(b);
    lemma_button_column(b);
    lemma_button_row_span(b);
    lemma_button_column_span(b);
}

proof fn lemma_document_borders(ls: Seq<Seq<char>>, i: nat, bs: Seq<BorderModel>, x: DocumentModel)
    requires
        holds_at(ls, i as int, bodies(borders_layout(bs))),
    ensures
        document_scan(ls, i, x) == document_scan(
            ls,
            i + borders_layout(bs).len(),
            DocumentModel { borders: x.borders + bs, ..x },
        ),
    decreases bs.len(),
{
    if bs.len() == 0 {
        assert(x.borders + bs =~= x.borders);
        assert(DocumentModel { borders: x.borders + bs, ..x } == x);
    } else {
        let front = bs.drop_last();
        let b = bs.last();
        let lf = borders_layout(front);
        let lb = border_layout(b);
        assert(borders_layout(bs) == lf + lb);
        let all = bodies(borders_layout(bs));
        assert forall|k: int| 0 <= k < bodies(lf).len() implies ls[i + k] == #[trigger] bodies(lf)[k] by {
            assert(all[k] == bodies(lf)[k]);
        }
        lemma_document_borders(ls, i, front, x);
        let j = (i + lf.len()) as nat;
        assert forall|k: int| 0 <= k < bodies(lb).len() implies ls[j + k] == #[trigger] bodies(lb)[k] by {
            assert(all[lf.len() + k] == bodies(lb)[k]);
        }
        lemma_border_block(ls, j, b);
        lemma_document_tags();
        assert(ls[j as int] == bodies(lb)[0]);
        lemma_tag_line("<border>"@);
        let y = DocumentModel { borders: x.borders + front, ..x };
        assert(document_scan(ls, j, y) == document_scan(
            ls,
            j + lb.len(),
            DocumentModel { borders: y.borders.push(b), ..y },
        ));
        assert(y.borders.push(b) =~= x.borders + bs);
    }
}

proof fn lemma_document_images(ls: Seq<Seq<char>>, i: nat, ms: Seq<ImageModel>, x: DocumentModel)
    requires
        holds_at(ls, i as int, bodies(images_layout(ms))),
    ensures
        document_scan(ls, i, x) == document_scan(
            ls,
            i + images_layout(ms).len(),
            DocumentModel { images: x.images + ms, ..x },
        ),
    decreases ms.len(),
{
    if ms.len() == 0 {
        assert(x.images + ms =~= x.images);
        assert(DocumentModel { images: x.images + ms, ..x } == x);
    } else {
        let front = ms.drop_last();
        let m = ms.last();
        let lf = images_layout(front);
        let lm = image_layout(m);
        assert(images_layout(ms) == lf + lm);
        let all = bodies(images_layout(ms));
        assert forall|k: int| 0 <= k < bodies(lf).len() implies ls[i + k] == #[trigger] bodies(lf)[k] by {
            assert(all[k] == bodies(lf)[k]);
        }
        lemma_document_images(ls, i, front, x);
        let j = (i + lf.len()) as nat;
        assert forall|k: int| 0 <= k < bodies(lm).len() implies ls[j + k] == #[trigger] bodies(lm)[k] by {
            assert(all[lf.len() + k] == bodies(lm)[k]);
        }
        lemma_image_block(ls, j, m);
        lemma_document_tags();
        assert(ls[j as int] == bodies(lm)[0]);
        lemma_tag_line("<image>"@);
        let y = DocumentModel { images: x.images + front, ..x };
        assert(document_scan(ls, j, y) == document_scan(
            ls,
            j + lm.len(),
            DocumentModel { images: y.images.push(m), ..y },
        ));
        assert(y.images.push(m) =~= x.images + ms);
    }
}

proof fn lemma_document_buttons(ls: Seq<Seq<char>>, i: nat, bs: Seq<ButtonModel>, x: DocumentModel)
    requires
        holds_at(ls, i as int, bodies(buttons_layout(bs))),
        forall|k: int| 0 <= k < bs.len() ==> button_round_trips(#[trigger] bs[k]),
    ensures
        document_scan(ls, i, x) == document_scan(
            ls,
            i + buttons_layout(bs).len(),
            DocumentModel { buttons: x.buttons + bs, ..x },
        ),
    decreases bs.len(),
{
    if bs.len() == 0 {
        assert(x.buttons + bs =~= x.buttons);
        assert(DocumentModel { buttons: x.buttons + bs, ..x } == x);
    } else {
        let front = bs.drop_last();
        let b = bs.last();
        let lf = buttons_layout(front);
        assert(buttons_layout(bs) == lf.push((1nat, button_line(b))));
        let all = bodies(buttons_layout(bs));
        assert forall|k: int| 0 <= k < bodies(lf).len() implies ls[i + k] == #[trigger] bodies(lf)[k] by {
            assert(all[k] == bodies(lf)[k]);
        }
        assert forall|k: int| 0 <= k < front.len() implies button_round_trips(#[trigger] front[k]) by {
            assert(front[k] == bs[k]);
        }
        lemma_document_buttons(ls, i, front, x);
        let j = (i + lf.len()) as nat;
        assert(ls[j as int] == all[lf.len() as int]);
        assert(ls[j as int] == button_line(b));
        assert(button_round_trips(bs[bs.len() - 1]));
        lemma_button_line(b);
        lemma_document_tags();
        let y = DocumentModel { buttons: x.buttons + front, ..x };
        assert(document_scan(ls, j, y) == document_scan(
            ls,
            j + 1,
            DocumentModel { buttons: y.buttons.push(b), ..y },
        ));
        assert(y.buttons.push(b) =~= x.buttons + bs);
    }
}

/// Every line of `layout` is one the writer makes.
pub open spec fn all_written(layout: Seq<(nat, Seq<char>)>) -> bool {
    forall|k: int| 0 <= k < layout.len() ==> written_body(#[trigger] layout[k].1)
}

proof fn lemma_all_written_concat(a: Seq<(nat, Seq<char>)>, b: Seq<(nat, Seq<char>)>)
    requires
        all_written(a),
        all_written(b),
    ensures
        all_written(a + b),
{
    assert forall|k: int| 0 <= k < (a + b).len() implies written_body(#[trigger] (a + b)[k].1) by {
        if k < a.len() {
            assert((a + b)[k] == a[k]);
        } else {
            assert((a + b)[k] == b[k - a.len()]);
        }
    }
}

proof fn lemma_holds_concat(ls: Seq<Seq<char>>, i: int, a: Seq<(nat, Seq<char>)>, b: Seq<(nat, Seq<char>)>)
    requires
        holds_at(ls, i, bodies(a + b)),
    ensures
        holds_at(ls, i, bodies(a)),
        holds_at(ls, i + a.len(), bodies(b)),
{
    let ab = bodies(a + b);
    assert forall|k: int| 0 <= k < bodies(a).len() implies ls[i + k] == #[trigger] bodies(a)[k] by {
        assert(ab[k] == bodies(a)[k]);
    }
    assert forall|k: int| 0 <= k < bodies(b).len() implies ls[i + a.len() + k] == #[trigger] bodies(b)[k] by {
        assert(ab[a.len() + k] == bodies(b)[k]);
    }
}

/// The strings of a PLC word are single lines.
pub open spec fn plc_word_one_line(p: PlcWordModel) -> bool {
    &&& one_line(p.color)
    &&& one_line(p.font)
    &&& one_line(p.fontstyle)
    &&& one_line(p.verticalalignment)
    &&& one_line(p.horizontalalignment)
}

/// The strings of a border are single lines.
pub open spec fn border_one_line(b: BorderModel) -> bool {
    &&& one_line(b.fill)
    &&& one_line(b.outline_color)
    &&& b.plc_word matches Some(p) ==> plc_word_one_line(p)
}

proof fn lemma_bool_text_one_line(v: bool)
    ensures
        one_line(bool_text(v)),
{
    reveal_strlit("true");
    reveal_strlit("false");
}

proof fn lemma_plc_word_written(p: PlcWordModel)
    requires
        plc_word_one_line(p),
    ensures
        all_written(plc_word_layout(p)),
{
    lemma_plc_word_tags();
    lemma_border_tags();
    let l = plc_word_layout(p);
    lemma_i32_one_line(p.number);
    lemma_written_leaf("<number>"@, i32_text(p.number), "</number>"@);
    lemma_written_leaf("<color>"@, p.color, "</color>"@);
    lemma_i32_one_line(p.fontsize);
    lemma_written_leaf("<fontsize>"@, i32_text(p.fontsize), "</fontsize>"@);
    lemma_written_leaf("<font>"@, p.font, "</font>"@);
    lemma_written_leaf("<fontstyle>"@, p.fontstyle, "</fontstyle>"@);
    lemma_written_leaf("<verticalalignment>"@, p.verticalalignment, "</verticalalignment>"@);
    lemma_written_leaf("<horizontalalignment>"@, p.horizontalalignment, "</horizontalalignment>"@);
    lemma_i32_one_line(p.marginbottom);
    lemma_written_leaf("<marginbottom>"@, i32_text(p.marginbottom), "</marginbottom>"@);
    lemma_bool_text_one_line(p.percentage);
    lemma_written_leaf("<percentage>"@, bool_text(p.percentage), "</percentage>"@);
    lemma_written_tag("<plc_word>"@);
    lemma_written_tag("</plc_word>"@);
    assert forall|k: int| 0 <= k < l.len() implies written_body(#[trigger] l[k].1) by {
    }
}

proof fn lemma_border_written(b: BorderModel)
    requires
        border_one_line(b),
    ensures
        all_written(border_layout(b)),
{
    lemma_border_tags();
    lemma_document_tags();
    lemma_i32_one_line(b.column_span);
    lemma_written_leaf("<column_span>"@, i32_text(b.column_span), "</column_span>"@);
    lemma_i32_one_line(b.column_start);
    lemma_written_leaf("<column_start>"@, i32_text(b.column_start), "</column_start>"@);
    lemma_written_leaf("<fill>"@, b.fill, "</fill>"@);
    lemma_i32_one_line(b.row_span);
    lemma_written_leaf("<row_span>"@, i32_text(b.row_span), "</row_span>"@);
    lemma_i32_one_line(b.row_start);
    lemma_written_leaf("<row_start>"@, i32_text(b.row_start), "</row_start>"@);
    lemma_written_leaf("<outline_color>"@, b.outline_color, "</outline_color>"@);
    lemma_i32_one_line(b.outline_thickness);
    lemma_written_leaf("<outline_thickness>"@, i32_text(b.outline_thickness), "</outline_thickness>"@);
    lemma_written_tag("<border>"@);
    lemma_written_tag("</border>"@);
    let f = border_fields_layout(b);
    assert forall|k: int| 0 <= k < f.len() implies written_body(#[trigger] f[k].1) by {}
    let head = seq![(1nat, "<border>"@)];
    let tail = seq![(1nat, "</border>"@)];
    assert(all_written(head));
    assert(all_written(tail));
    let plc = match b.plc_word {
        Some(p) => plc_word_layout(p),
        None => Seq::empty(),
    };
    match b.plc_word {
        Some(p) => {
            lemma_plc_word_written(p);
        },
        None => {},
    }
    assert(all_written(plc));
    lemma_all_written_concat(head, f);
    lemma_all_written_concat(head + f, plc);
    lemma_all_written_concat(head + f + plc, tail);
}

proof fn lemma_image_written(m: ImageModel)
    requires
        one_line(m.path),
    ensures
        all_written(image_layout(m)),
{
    lemma_image_tags();
    lemma_document_tags();
    lemma_i32_one_line(m.column_span);
    lemma_written_leaf("<column_span>"@, i32_text(m.column_span), "</column_span>"@);
    lemma_i32_one_line(m.column_start);
    lemma_written_leaf("<column_start>"@, i32_text(m.column_start), "</column_start>"@);
    lemma_i32_one_line(m.row_span);
    lemma_written_leaf("<row_span>"@, i32_text(m.row_span), "</row_span>"@);
    lemma_i32_one_line(m.row_start);
    lemma_written_leaf("<row_start>"@, i32_text(m.row_start), "</row_start>"@);
    lemma_written_leaf("<path>"@, m.path, "</path>"@);
    lemma_written_tag("<image>"@);
    lemma_written_tag("</image>"@);
    let l = image_layout(m);
    assert forall|k: int| 0 <= k < l.len() implies written_body(#[trigger] l[k].1) by {}
}

proof fn lemma_style_written(s: Option<StyleModel>, open: Seq<char>, close: Seq<char>)
    requires
        tag_shaped(open),
        tag_shaped(close),
        s matches Some(v) ==> one_line(v.outline_color),
    ensures
        all_written(style_layout(s, open, close)),
{
    lemma_style_tags();
    lemma_written_tag(open);
    lemma_written_tag(close);
    match s {
        Some(v) => {
            lemma_i32_one_line(v.opacity);
            lemma_written_leaf("<opacity>"@, i32_text(v.opacity), "</opacity>"@);
            lemma_written_leaf("<outline_color>"@, v.outline_color, "</outline_color>"@);
            let l = style_layout(s, open, close);
            assert forall|k: int| 0 <= k < l.len() implies written_body(#[trigger] l[k].1) by {}
        },
        None => {},
    }
}

proof fn lemma_borders_written(bs: Seq<BorderModel>)
    requires
        forall|k: int| 0 <= k < bs.len() ==> border_one_line(#[trigger] bs[k]),
    ensures
        all_written(borders_layout(bs)),
    decreases bs.len(),
{
    if bs.len() > 0 {
        let front = bs.drop_last();
        assert forall|k: int| 0 <= k < front.len() implies border_one_line(#[trigger] front[k]) by {
            assert(front[k] == bs[k]);
        }
        lemma_borders_written(front);
        assert(border_one_line(bs[bs.len() - 1]));
        lemma_border_written(bs.last());
        lemma_all_written_concat(borders_layout(front), border_layout(bs.last()));
    }
}

proof fn lemma_images_written(ms: Seq<ImageModel>)
    requires
        forall|k: int| 0 <= k < ms.len() ==> one_line(#[trigger] ms[k].path),
    ensures
        all_written(images_layout(ms)),
    decreases ms.len(),
{
    if ms.len() > 0 {
        let front = ms.drop_last();
        assert forall|k: int| 0 <= k < front.len() implies one_line(#[trigger] front[k].path) by {
            assert(front[k] == ms[k]);
        }
        lemma_images_written(front);
        assert(one_line(ms[ms.len() - 1].path));
        lemma_image_written(ms.last());
        lemma_all_written_concat(images_layout(front), image_layout(ms.last()));
    }
}

proof fn lemma_buttons_written(bs: Seq<ButtonModel>)
    requires
        forall|k: int| 0 <= k < bs.len() ==> button_round_trips(#[trigger] bs[k]),
    ensures
        all_written(buttons_layout(bs)),
    decreases bs.len(),
{
    if bs.len() > 0 {
        let front = bs.drop_last();
        assert forall|k: int| 0 <= k < front.len() implies button_round_trips(#[trigger] front[k]) by {
            assert(front[k] == bs[k]);
        }
        lemma_buttons_written(front);
        assert(button_round_trips(bs[bs.len() - 1]));
        lemma_button_line(bs.last());
        let l = buttons_layout(bs);
        assert(l == buttons_layout(front).push((1nat, button_line(bs.last()))));
        assert forall|k: int| 0 <= k < l.len() implies written_body(#[trigger] l[k].1) by {
            if k < l.len() - 1 {
                assert(l[k] == buttons_layout(front)[k]);
            }
        }
    }
}

/// A document that survives being written and read: both styles present
/// (a document without them reads back with the defaults), every string on
/// one line, and every button as `button_round_trips` says.
pub open spec fn round_trips(d: DocumentModel) -> bool {
    &&& d.on_click matches Some(c) && one_line(c.outline_color)
    &&& d.on_hover matches Some(h) && one_line(h.outline_color)
    &&& one_line(d.background)
    &&& forall|k: int| 0 <= k < d.borders.len() ==> border_one_line(#[trigger] d.borders[k])
    &&& forall|k: int| 0 <= k < d.images.len() ==> one_line(#[trigger] d.images[k].path)
    &&& forall|k: int| 0 <= k < d.buttons.len() ==> button_round_trips(#[trigger] d.buttons[k])
}

proof fn lemma_document_written(d: DocumentModel)
    requires
        round_trips(d),
    ensures
        all_written(document_layout(d)),
{
    lemma_document_tags();
    lemma_style_tags();
    lemma_written_tag("<vcp_skin>"@);
    lemma_written_tag("</vcp_skin>"@);
    lemma_written_leaf("<background>"@, d.background, "</background>"@);
    lemma_i32_one_line(d.column_count);
    lemma_written_leaf("<column_count>"@, i32_text(d.column_count), "</column_count>"@);
    lemma_i32_one_line(d.row_count);
    lemma_written_leaf("<row_count>"@, i32_text(d.row_count), "</row_count>"@);
    let h = header_layout(d);
    assert forall|k: int| 0 <= k < h.len() implies written_body(#[trigger] h[k].1) by {}
    lemma_borders_written(d.borders);
    lemma_images_written(d.images);
    lemma_style_written(d.on_click, "<on_click>"@, "</on_click>"@);
    lemma_style_written(d.on_hover, "<on_hover>"@, "</on_hover>"@);
    lemma_buttons_written(d.buttons);
    let f = seq![(0nat, "</vcp_skin>"@)];
    assert(all_written(f));
    let bl = borders_layout(d.borders);
    let il = images_layout(d.images);
    let cl = style_layout(d.on_click, "<on_click>"@, "</on_click>"@);
    let hl = style_layout(d.on_hover, "<on_hover>"@, "</on_hover>"@);
    let btl = buttons_layout(d.buttons);
    lemma_all_written_concat(h, bl);
    lemma_all_written_concat(h + bl, il);
    lemma_all_written_concat(h + bl + il, cl);
    lemma_all_written_concat(h + bl + il + cl, hl);
    lemma_all_written_concat(h + bl + il + cl + hl, btl);
    lemma_all_written_concat(h + bl + il + cl + hl + btl, f);
}

proof fn lemma_header_scan(ls: Seq<Seq<char>>, d: DocumentModel)
    requires
        holds_at(ls, 0, bodies(header_layout(d))),
    ensures
        document_scan(ls, 0, default_document()) == document_scan(
            ls,
            4,
            DocumentModel {
                background: d.background,
                column_count: d.column_count,
                row_count: d.row_count,
                ..default_document()
            },
        ),
{
    let h = bodies(header_layout(d));
    assert(ls[0] == h[0]);
    assert(ls[1] == h[1]);
    assert(ls[2] == h[2]);
    assert(ls[3] == h[3]);
    lemma_document_tags();
    let x0 = default_document();
    lemma_tag_line("<vcp_skin>"@);
    assert(document_scan(ls, 0, x0) == document_scan(ls, 1, x0));
    lemma_text_leaf("<background>"@, d.background, "</background>"@);
    let x1 = DocumentModel { background: d.background, ..x0 };
    assert(document_scan(ls, 1, x0) == document_scan(ls, 2, x1));
    lemma_int_leaf("<column_count>"@, d.column_count, "</column_count>"@);
    let x2 = DocumentModel { column_count: d.column_count, ..x1 };
    assert(document_scan(ls, 2, x1) == document_scan(ls, 3, x2));
    lemma_int_leaf("<row_count>"@, d.row_count, "</row_count>"@);
    let x3 = DocumentModel { row_count: d.row_count, ..x2 };
    assert(document_scan(ls, 3, x2) == document_scan(ls, 4, x3));
}

proof fn lemma_styles_scan(ls: Seq<Seq<char>>, i: nat, c: StyleModel, h: StyleModel, x: DocumentModel)
    requires
        holds_at(ls, i as int, bodies(style_layout(Some(c), "<on_click>"@, "</on_click>"@))),
        holds_at(ls, i + 4 as int, bodies(style_layout(Some(h), "<on_hover>"@, "</on_hover>"@))),
    ensures
        document_scan(ls, i, x) == document_scan(
            ls,
            i + 8,
            DocumentModel { on_click: Some(c), on_hover: Some(h), ..x },
        ),
{
    lemma_document_tags();
    lemma_style_tags();
    let cb = bodies(style_layout(Some(c), "<on_click>"@, "</on_click>"@));
    let hb = bodies(style_layout(Some(h), "<on_hover>"@, "</on_hover>"@));
    assert(ls[i as int] == cb[0]);
    assert(ls[i + 4 as int] == hb[0]);
    lemma_tag_line("<on_click>"@);
    lemma_style_block(ls, i, c, default_click(), "<on_click>"@, "</on_click>"@);
    let x1 = DocumentModel { on_click: Some(c), ..x };
    assert(document_scan(ls, i, x) == document_scan(ls, i + 4, x1));
    lemma_tag_line("<on_hover>"@);
    lemma_style_block(ls, (i + 4) as nat, h, default_hover(), "<on_hover>"@, "</on_hover>"@);
    let x2 = DocumentModel { on_hover: Some(h), ..x1 };
    assert(document_scan(ls, (i + 4) as nat, x1) == document_scan(ls, i + 8, x2));
}

proof fn lemma_footer_scan(ls: Seq<Seq<char>>, i: nat, x: DocumentModel)
    requires
        i + 1 == ls.len(),
        ls[i as int] == "</vcp_skin>"@,
    ensures
        document_scan(ls, i, x) == x,
{
    lemma_document_tags();
    lemma_tag_line("</vcp_skin>"@);
    assert(document_scan(ls, i, x) == document_scan(ls, i + 1, x));
}

/// Writing a document and reading the text back gives the same document,
/// field for field and in the same order, for every document that
/// `round_trips` admits.
#[verifier::rlimit(60)]
pub proof fn lemma_parse_serialize_round_trip(d: DocumentModel)
    requires
        round_trips(d),
    ensures
        parse_text(serialize_text(d)) == d,
{
    let layout = document_layout(d);
    lemma_document_written(d);
    lemma_scanned_render(layout);
    let ls = bodies(layout);
    assert(scanned_lines(serialize_text(d)) == ls);
    assert(holds_at(ls, 0, ls));

    let h = header_layout(d);
    let bl = borders_layout(d.borders);
    let il = images_layout(d.images);
    let cl = style_layout(d.on_click, "<on_click>"@, "</on_click>"@);
    let hl = style_layout(d.on_hover, "<on_hover>"@, "</on_hover>"@);
    let btl = buttons_layout(d.buttons);
    let f = seq![(0nat, "</vcp_skin>"@)];
    lemma_holds_concat(ls, 0, h + bl + il + cl + hl + btl, f);
    lemma_holds_concat(ls, 0, h + bl + il + cl + hl, btl);
    lemma_holds_concat(ls, 0, h + bl + il + cl, hl);
    lemma_holds_concat(ls, 0, h + bl + il, cl);
    lemma_holds_concat(ls, 0, h + bl, il);
    lemma_holds_concat(ls, 0, h, bl);

    lemma_header_scan(ls, d);
    let x3 = DocumentModel {
        background: d.background,
        column_count: d.column_count,
        row_count: d.row_count,
        ..default_document()
    };
    lemma_document_borders(ls, 4, d.borders, x3);
    let i4 = (4 + bl.len()) as nat;
    let x4 = DocumentModel { borders: x3.borders + d.borders, ..x3 };
    lemma_document_images(ls, i4, d.images, x4);
    let i5 = (i4 + il.len()) as nat;
    let x5 = DocumentModel { images: x4.images + d.images, ..x4 };
    lemma_styles_scan(ls, i5, d.on_click->0, d.on_hover->0, x5);
    let i7 = (i5 + 8) as nat;
    let x7 = DocumentModel { on_click: d.on_click, on_hover: d.on_hover, ..x5 };
    lemma_document_buttons(ls, i7, d.buttons, x7);
    let i8 = (i7 + btl.len()) as nat;
    let x8 = DocumentModel { buttons: x7.buttons + d.buttons, ..x7 };
    assert(ls[i8 as int] == bodies(f)[0]);
    lemma_footer_scan(ls, i8, x8);
    assert(x3.borders + d.borders =~= d.borders);
    assert(x4.images + d.images =~= d.images);
    assert(x7.buttons + d.buttons =~= d.buttons);
    assert(x8 == d);
}

} // verus!
