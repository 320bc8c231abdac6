use vcp_skin::{parse_vcp, serialize_vcp, Border, Button, Image, OnClick, OnHover, PlcWord, VcpDocument};

fn sample_document() -> VcpDocument {
    let mut doc = VcpDocument::default();
    doc.background = "#112233".to_string();
    doc.column_count = 8;
    doc.row_count = -3;
    doc.borders.push(Border {
        row_start: 2,
        column_start: 3,
        row_span: 4,
        column_span: 5,
        fill: "Transparent".to_string(),
        outline_color: "#abcdef".to_string(),
        outline_thickness: 2,
        plc_word: Some(PlcWord {
            number: 42,
            color: "red".to_string(),
            fontsize: 14,
            font: "Courier New".to_string(),
            fontstyle: "bold".to_string(),
            verticalalignment: "top".to_string(),
            horizontalalignment: "left".to_string(),
            marginbottom: 3,
            percentage: true,
        }),
    });
    doc.borders.push(Border {
        row_start: i32::MIN,
        column_start: i32::MAX,
        row_span: 0,
        column_span: 1,
        fill: "#000".to_string(),
        outline_color: "a<b>c".to_string(),
        outline_thickness: 0,
        plc_word: None,
    });
    doc.images.push(Image {
        row_start: 1,
        column_start: 2,
        row_span: 3,
        column_span: 4,
        path: "images/logo.svg".to_string(),
    });
    doc.on_click = Some(OnClick { opacity: 50, outline_color: "#010101".to_string() });
    doc.on_hover = Some(OnHover { opacity: 75, outline_color: "#020202".to_string() });
    doc.buttons.push(Button {
        row: 1,
        column: 2,
        row_span: Some(2),
        column_span: None,
        name: "Start".to_string(),
        file: None,
        default_image: None,
    });
    doc.buttons.push(Button {
        row: 5,
        column: 6,
        row_span: None,
        column_span: Some(3),
        name: "Stop <now>".to_string(),
        file: None,
        default_image: None,
    });
    doc
}

#[test]
fn round_trip_keeps_every_field() {
    let doc = sample_document();
    let text = serialize_vcp(&doc);
    let back = parse_vcp(&text).unwrap();
    assert_eq!(back, doc);
}

#[test]
fn default_document_values() {
    let doc = VcpDocument::default();
    assert_eq!(doc.background, "#E9E0B7");
    assert_eq!(doc.column_count, 6);
    assert_eq!(doc.row_count, 14);
    assert_eq!(doc.on_click, Some(OnClick { opacity: 100, outline_color: "#000000".to_string() }));
    assert_eq!(doc.on_hover, Some(OnHover { opacity: 100, outline_color: "#ffffff".to_string() }));
    assert!(doc.borders.is_empty());
    assert!(doc.images.is_empty());
    assert!(doc.buttons.is_empty());
}
