use vcp_skin::export::{looks_like_svg, machine_content};
use vcp_skin::sidecar::{
    enrich_button, enrich_document, extract_default_image, sidecar_file_name, sidecar_path,
    sidecar_paths, vcp_root,
};
use vcp_skin::{parse_vcp, Sidecar};

#[test]
fn root_is_above_a_skins_folder() {
    assert_eq!(vcp_root("/data/vcp/skins/main.vcp"), Ok("/data/vcp".to_string()));
    assert_eq!(vcp_root("/data/vcp/main.vcp"), Ok("/data/vcp".to_string()));
    assert_eq!(vcp_root("/"), Err("Failed to get parent directory".to_string()));
}

#[test]
fn sidecar_names_and_paths() {
    assert_eq!(sidecar_file_name("foo"), "foo.xml");
    assert_eq!(sidecar_path("/data/vcp", "foo"), "/data/vcp/Buttons/foo/foo.xml");
}

#[test]
fn default_image_is_trimmed_first_value() {
    assert_eq!(
        extract_default_image("<b><default_image> icon.svg </default_image><default_image>x</default_image></b>"),
        Some("icon.svg".to_string())
    );
    assert_eq!(extract_default_image("<default_image>   </default_image>"), None);
    assert_eq!(extract_default_image("<default_image>icon.svg"), None);
    assert_eq!(extract_default_image("<name>foo</name>"), None);
}

#[test]
fn sidecar_enrichment_sets_file_and_default_image() {
    let mut doc = parse_vcp("<button row=\"1\" column=\"1\">foo</button>\n<button row=\"2\" column=\"1\">bar</button>\n<button row=\"3\" column=\"1\"></button>\n").unwrap();
    let paths = sidecar_paths(&doc, "/skin/root");
    assert_eq!(
        paths,
        vec![
            Some("/skin/root/Buttons/foo/foo.xml".to_string()),
            Some("/skin/root/Buttons/bar/bar.xml".to_string()),
            None
        ]
    );
    let probes = vec![
        Sidecar::Found("<vcp_button><default_image>icon.svg</default_image></vcp_button>".to_string()),
        Sidecar::Missing,
        Sidecar::Missing,
    ];
    enrich_document(&mut doc, &probes);
    assert_eq!(doc.buttons[0].file, Some("foo.xml".to_string()));
    assert_eq!(doc.buttons[0].default_image, Some("icon.svg".to_string()));
    assert_eq!(doc.buttons[1].file, None);
    assert_eq!(doc.buttons[1].default_image, None);
    assert_eq!(doc.buttons[2].file, None);
}

#[test]
fn unreadable_sidecar_sets_only_the_file() {
    let mut doc = parse_vcp("<button row=\"1\" column=\"1\">foo</button>\n").unwrap();
    let mut button = doc.buttons.remove(0);
    enrich_button(&mut button, &Sidecar::Unreadable);
    assert_eq!(button.file, Some("foo.xml".to_string()));
    assert_eq!(button.default_image, None);
}

#[test]
fn image_paths_point_at_the_machine() {
    let text = "<image>\n<path>images/a.svg</path>\n</image>\n<path>other/b.svg</path>\n<path>images/c.svg</path>\n";
    assert_eq!(
        machine_content(text, "C:\\cnc\\data"),
        "<image>\n<path>C:/cnc/data/images/a.svg</path>\n</image>\n<path>other/b.svg</path>\n<path>C:/cnc/data/images/c.svg</path>\n"
    );
}

#[test]
fn svg_detection() {
    assert!(looks_like_svg("  <?xml version=\"1.0\"?><svg></svg>"));
    assert!(looks_like_svg("\n<svg xmlns=\"x\"></svg>"));
    assert!(!looks_like_svg("hello <svg>"));
    assert!(!looks_like_svg(""));
}
