use vcp_skin::{parse_vcp, serialize_vcp, Button, OnClick, VcpDocument};

fn parse(text: &str) -> VcpDocument {
    parse_vcp(text).unwrap()
}

#[test]
fn empty_text_gives_the_default_document() {
    assert_eq!(parse(""), VcpDocument::default());
}

#[test]
fn root_leaves_are_read_and_defaulted() {
    let doc = parse("<vcp_skin>\n  <background>#123456</background>\n  <column_count>9</column_count>\n  <row_count>x</row_count>\n</vcp_skin>\n");
    assert_eq!(doc.background, "#123456");
    assert_eq!(doc.column_count, 9);
    assert_eq!(doc.row_count, 14);
}

#[test]
fn non_number_row_start_defaults_to_one() {
    let doc = parse("<border>\n<row_start>notanumber</row_start>\n<column_start>4</column_start>\n</border>\n");
    assert_eq!(doc.borders.len(), 1);
    assert_eq!(doc.borders[0].row_start, 1);
    assert_eq!(doc.borders[0].column_start, 4);
}

#[test]
fn percentage_is_true_only_for_exact_true() {
    let text = |v: &str| {
        format!("<border>\n<plc_word>\n<percentage>{}</percentage>\n</plc_word>\n</border>\n", v)
    };
    assert!(parse(&text("true")).borders[0].plc_word.as_ref().unwrap().percentage);
    assert!(!parse(&text("TRUE")).borders[0].plc_word.as_ref().unwrap().percentage);
    assert!(!parse(&text("1")).borders[0].plc_word.as_ref().unwrap().percentage);
    let absent = parse("<border>\n<plc_word>\n<number>3</number>\n</plc_word>\n</border>\n");
    let plc = absent.borders[0].plc_word.as_ref().unwrap();
    assert!(!plc.percentage);
    assert_eq!(plc.number, 3);
    assert_eq!(plc.font, "Arial");
    assert_eq!(plc.fontsize, 12);
}

#[test]
fn unknown_tags_are_ignored() {
    let plain = "<vcp_skin>\n<background>red</background>\n<border>\n<fill>blue</fill>\n</border>\n</vcp_skin>\n";
    let noisy = "<vcp_skin>\n<mystery>7</mystery>\n<background>red</background>\n<border>\n<sparkle>yes</sparkle>\n<fill>blue</fill>\n</border>\n<future_block>\n</future_block>\n</vcp_skin>\n";
    assert_eq!(parse(noisy), parse(plain));
    assert_eq!(parse(plain).borders[0].fill, "blue");
}

#[test]
fn truncated_border_keeps_what_it_read() {
    let doc = parse("<border>\n<row_start>3</row_start>\n<fill>green</fill>\n<image>\n<path>x.svg</path>\n");
    assert_eq!(doc.borders.len(), 1);
    assert_eq!(doc.borders[0].row_start, 3);
    assert_eq!(doc.borders[0].fill, "green");
    assert_eq!(doc.borders[0].column_span, 1);
    assert!(doc.images.is_empty());
}

#[test]
fn truncated_plc_word_ends_the_border() {
    let doc = parse("<border>\n<fill>red</fill>\n<plc_word>\n<number>5</number>\n");
    assert_eq!(doc.borders.len(), 1);
    assert_eq!(doc.borders[0].fill, "red");
    assert_eq!(doc.borders[0].plc_word.as_ref().unwrap().number, 5);
}

#[test]
fn button_attributes_and_name() {
    let doc = parse("    <button row=\"3\" column=\"4\" row_span=\"2\">Go</button>\n<button column=\"x\" column_span=\"y\">Stop</button>\n");
    assert_eq!(doc.buttons.len(), 2);
    assert_eq!(
        doc.buttons[0],
        Button {
            row: 3,
            column: 4,
            row_span: Some(2),
            column_span: None,
            name: "Go".to_string(),
            file: None,
            default_image: None,
        }
    );
    assert_eq!(doc.buttons[1].row, 1);
    assert_eq!(doc.buttons[1].column, 1);
    assert_eq!(doc.buttons[1].column_span, None);
    assert_eq!(doc.buttons[1].name, "Stop");
}

#[test]
fn style_blocks_replace_the_defaults() {
    let doc = parse("<on_click>\n<opacity>40</opacity>\n</on_click>\n");
    assert_eq!(doc.on_click, Some(OnClick { opacity: 40, outline_color: "#000000".to_string() }));
    assert_eq!(doc.on_hover.as_ref().unwrap().opacity, 100);
    assert_eq!(doc.on_hover.as_ref().unwrap().outline_color, "#ffffff");
}

#[test]
fn crlf_lines_and_indentation() {
    let doc = parse("<vcp_skin>\r\n\t <column_count> 7</column_count>\r\n   <row_count>+8</row_count>  \r\n</vcp_skin>");
    assert_eq!(doc.column_count, 6);
    assert_eq!(doc.row_count, 8);
}

#[test]
fn numbers_out_of_range_fall_back() {
    let doc = parse("<column_count>2147483648</column_count>\n<row_count>-2147483648</row_count>\n");
    assert_eq!(doc.column_count, 6);
    assert_eq!(doc.row_count, i32::MIN);
}

#[test]
fn leaf_without_closing_tag_takes_the_rest() {
    let doc = parse("<background>plain\n");
    assert_eq!(doc.background, "plain");
}

#[test]
fn serialized_border_uses_canonical_order() {
    let text = "<vcp_skin>\n<border>\n<outline_thickness>3</outline_thickness>\n<row_start>2</row_start>\n<fill>red</fill>\n</border>\n</vcp_skin>\n";
    let mut doc = parse(text);
    doc.on_click = None;
    doc.on_hover = None;
    let out = serialize_vcp(&doc);
    let expected = "<vcp_skin>\n    <background>#E9E0B7</background>\n    <column_count>6</column_count>\n    <row_count>14</row_count>\n    <border>\n        <column_span>1</column_span>\n        <column_start>1</column_start>\n        <fill>red</fill>\n        <row_span>1</row_span>\n        <row_start>2</row_start>\n        <outline_color>#000000</outline_color>\n        <outline_thickness>3</outline_thickness>\n    </border>\n</vcp_skin>\n";
    assert_eq!(out, expected);
}

#[test]
fn serialized_default_document() {
    let out = serialize_vcp(&VcpDocument::default());
    let expected = "<vcp_skin>\n    <background>#E9E0B7</background>\n    <column_count>6</column_count>\n    <row_count>14</row_count>\n    <on_click>\n        <opacity>100</opacity>\n        <outline_color>#000000</outline_color>\n    </on_click>\n    <on_hover>\n        <opacity>100</opacity>\n        <outline_color>#ffffff</outline_color>\n    </on_hover>\n</vcp_skin>\n";
    assert_eq!(out, expected);
}

#[test]
fn serialized_button_with_spans() {
    let mut doc = VcpDocument::default();
    doc.on_click = None;
    doc.on_hover = None;
    doc.buttons.push(Button {
        row: -2,
        column: 3,
        row_span: None,
        column_span: Some(4),
        name: "A & B".to_string(),
        file: Some("ignored.xml".to_string()),
        default_image: None,
    });
    let out = serialize_vcp(&doc);
    assert!(out.contains("    <button row=\"-2\" column=\"3\" column_span=\"4\">A & B</button>\n"));
    assert!(!out.contains("ignored"));
}

#[test]
fn styles_absent_read_back_as_defaults() {
    let mut doc = VcpDocument::default();
    doc.on_click = None;
    let back = parse(&serialize_vcp(&doc));
    assert_eq!(back.on_click, VcpDocument::default().on_click);
}

#[test]
fn button_name_that_looks_like_a_span() {
    let mut doc = VcpDocument::default();
    doc.buttons.push(Button {
        row: 1,
        column: 1,
        row_span: None,
        column_span: None,
        name: "row_span=\"x\" here".to_string(),
        file: None,
        default_image: None,
    });
    assert_eq!(parse(&serialize_vcp(&doc)), doc);
    doc.buttons[0].name = "row_span=\"5\"".to_string();
    let back = parse(&serialize_vcp(&doc));
    assert_eq!(back.buttons[0].row_span, Some(5));
}
