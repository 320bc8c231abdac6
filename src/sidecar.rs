//! Enriching buttons from their sidecar files. A skin's root directory is
//! the directory of the skin file, or the one above it when that is named
//! `skins`; the sidecar of button `n` is `<root>/Buttons/n/n.xml`. Looking
//! at the disk is left to the caller, who hands back what it found.
use vstd::prelude::*;

use crate::models::{opt_string_view, Button, ButtonModel, VcpDocument};
use crate::text::{
    chars_of, find_from, find_str, lemma_find_from_bounds, slice_chars, slice_equals, string_of,
    trim, trim_line,
};

verus! {

/// The parent directory of a path, as `std::path::Path::parent` gives it.
pub uninterp spec fn parent_of(path: Seq<char>) -> Option<Seq<char>>;

/// The last component of a path, as `std::path::Path::file_name` gives it.
pub uninterp spec fn file_name_of(path: Seq<char>) -> Option<Seq<char>>;

/// `base` joined with `part`, as `std::path::Path::join` gives it.
pub uninterp spec fn joined(base: Seq<char>, part: Seq<char>) -> Seq<char>;

/// Relies on `std::path::Path::parent`: the path without its last component.
#[verifier::external_body]
fn parent_dir(path: &str) -> (r: Option<String>)
    ensures
        opt_string_view(r) == parent_of(path@),
{
    match std::path::Path::new(path).parent() {
        Some(p) => Some(p.to_string_lossy().into_owned()),
        None => None,
    }
}

/// Relies on `std::path::Path::file_name`: the last component of the path.
#[verifier::external_body]
fn file_name(path: &str) -> (r: Option<String>)
    ensures
        opt_string_view(r) == file_name_of(path@),
{
    match std::path::Path::new(path).file_name() {
        Some(n) => Some(n.to_string_lossy().into_owned()),
        None => None,
    }
}

/// Relies on `std::path::Path::join`: `part` appended to `base` as a path.
#[verifier::external_body]
fn join_path(base: &str, part: &str) -> (r: String)
    ensures
        r@ == joined(base@, part@),
{
    std::path::Path::new(base).join(part).to_string_lossy().into_owned()
}

/// The root directory of the skin stored at `path`.
pub open spec fn root_of(path: Seq<char>) -> Result<Seq<char>, Seq<char>> {
    match parent_of(path) {
        None => Err("Failed to get parent directory"@),
        Some(p) => if file_name_of(p) == Some("skins"@) {
            match parent_of(p) {
                None => Err("Failed to get VCP root directory"@),
                Some(g) => Ok(g),
            }
        } else {
            Ok(p)
        },
    }
}

/// The root directory of the skin stored at `path`: its directory, or the
/// directory above when that one is named `skins`.
pub fn vcp_root(path: &str) -> (r: Result<String, String>)
    ensures
        match r {
            Ok(root) => root_of(path@) == Ok::<Seq<char>, Seq<char>>(root@),
            Err(e) => root_of(path@) == Err::<Seq<char>, Seq<char>>(e@),
        },
{
    match parent_dir(path) {
        None => Err(String::from_str("Failed to get parent directory")),
        Some(parent) => {
            let in_skins = match file_name(parent.as_str()) {
                Some(n) => {
                    let v = chars_of(n.as_str());
                    assert(v@.subrange(0, v@.len() as int) =~= n@);
                    slice_equals(&v, 0, v.len(), "skins")
                },
                None => false,
            };
            assert(in_skins == (file_name_of(parent@) == Some("skins"@)));
            if in_skins {
                match parent_dir(parent.as_str()) {
                    None => Err(String::from_str("Failed to get VCP root directory")),
                    Some(root) => Ok(root),
                }
            } else {
                Ok(parent)
            }
        },
    }
}

/// The name of the sidecar file of button `name`.
pub open spec fn sidecar_name_of(name: Seq<char>) -> Seq<char> {
    name + ".xml"@
}

/// The path of the sidecar file of button `name` under `root`.
pub open spec fn sidecar_path_of(root: Seq<char>, name: Seq<char>) -> Seq<char> {
    joined(joined(joined(root, "Buttons"@), name), sidecar_name_of(name))
}

/// `<name>.xml`.
pub fn sidecar_file_name(name: &str) -> (r: String)
    ensures
        r@ == sidecar_name_of(name@),
{
    let mut r = String::from_str(name);
    r.append(".xml");
    r
}

/// `<root>/Buttons/<name>/<name>.xml`.
pub fn sidecar_path(root: &str, name: &str) -> (r: String)
    ensures
        r@ == sidecar_path_of(root@, name@),
{
    let buttons = join_path(root, "Buttons");
    let folder = join_path(buttons.as_str(), name);
    let file = sidecar_file_name(name);
    join_path(folder.as_str(), file.as_str())
}

/// The default image that a sidecar names: the trimmed text between the
/// first `<default_image>` and the next `</default_image>`, unless empty.
pub open spec fn default_image_of(xml: Seq<char>) -> Option<Seq<char>> {
    match find_from(xml, "<default_image>"@, 0) {
        None => None,
        Some(k) => {
            let start = k + "<default_image>"@.len();
            match find_from(xml, "</default_image>"@, start) {
                None => None,
                Some(e) => {
                    let v = trim(xml.subrange(start, e));
                    if v.len() == 0 {
                        None
                    } else {
                        Some(v)
                    }
                },
            }
        },
    }
}

/// The default image that the sidecar text `xml` names, if any.
pub fn extract_default_image(xml: &str) -> (r: Option<String>)
    ensures
        opt_string_view(r) == default_image_of(xml@),
{
    let chars = chars_of(xml);
    match find_str(&chars, "<default_image>", 0) {
        None => None,
        Some(k) => {
            let n = "<default_image>".unicode_len();
            proof {
                lemma_find_from_bounds(chars@, "<default_image>"@, 0);
            }
            let len = chars.len();
            assert(k + n <= len);
            let start = k + n;
            match find_str(&chars, "</default_image>", start) {
                None => None,
                Some(e) => {
                    proof {
                        lemma_find_from_bounds(chars@, "</default_image>"@, start as int);
                    }
                    let inner = slice_chars(&chars, start, e);
                    let v = trim_line(&inner);
                    if v.len() == 0 {
                        None
                    } else {
                        Some(string_of(&v, 0, v.len()))
                    }
                },
            }
        },
    }
}

/// What the caller found for one button's sidecar file.
pub enum Sidecar {
    /// No file at the sidecar path (or the button has no name).
    Missing,
    /// The file exists but could not be read.
    Unreadable,
    /// The file exists and holds this text.
    Found(String),
}

/// A button after its sidecar was looked for. A button without a name is
/// never looked up. A sidecar that exists sets `file`; one that could be
/// read and names a default image sets `default_image` too.
pub open spec fn enriched(b: ButtonModel, probe: Sidecar) -> ButtonModel {
    if b.name.len() == 0 {
        b
    } else {
        match probe {
            Sidecar::Missing => b,
            Sidecar::Unreadable => ButtonModel { file: Some(sidecar_name_of(b.name)), ..b },
            Sidecar::Found(text) => ButtonModel {
                file: Some(sidecar_name_of(b.name)),
                default_image: match default_image_of(text@) {
                    Some(v) => Some(v),
                    None => b.default_image,
                },
                ..b
            },
        }
    }
}

/// Applies what was found for a button's sidecar file to the button.
pub fn enrich_button(button: &mut Button, probe: &Sidecar)
    ensures
        final(button)@ == enriched(old(button)@, *probe),
{
    if button.name.as_str().unicode_len() == 0 {
        return;
    }
    match probe {
        Sidecar::Missing => {},
        Sidecar::Unreadable => {
            button.file = Some(sidecar_file_name(button.name.as_str()));
        },
        Sidecar::Found(text) => {
            button.file = Some(sidecar_file_name(button.name.as_str()));
            match extract_default_image(text.as_str()) {
                Some(v) => {
                    button.default_image = Some(v);
                },
                None => {},
            }
        },
    }
}

/// For each button in order, the path of its sidecar file under `root`;
/// none for a button without a name.
pub fn sidecar_paths(doc: &VcpDocument, root: &str) -> (r: Vec<Option<String>>)
    ensures
        r.len() == doc.buttons.len(),
        forall|k: int|
            0 <= k < r.len() ==> opt_string_view(#[trigger] r@[k]) == if doc.buttons@[k].name@.len()
                == 0 {
                None
            } else {
                Some(sidecar_path_of(root@, doc.buttons@[k].name@))
            },
{
    let mut r: Vec<Option<String>> = Vec::new();
    let mut k: usize = 0;
    while k < doc.buttons.len()
        invariant
            k <= doc.buttons.len(),
            r.len() == k,
            forall|j: int|
                0 <= j < k ==> opt_string_view(#[trigger] r@[j]) == if doc.buttons@[j].name@.len()
                    == 0 {
                    None
                } else {
                    Some(sidecar_path_of(root@, doc.buttons@[j].name@))
                },
        decreases doc.buttons.len() - k,
    {
        let name = doc.buttons[k].name.as_str();
        if name.unicode_len() == 0 {
            r.push(None);
        } else {
            r.push(Some(sidecar_path(root, name)));
        }
        k = k + 1;
    }
    r
}

fn copy_string(s: &Option<String>) -> (r: Option<String>)
    ensures
        opt_string_view(r) == opt_string_view(*s),
{
    match s {
        Some(v) => Some(v.clone()),
        None => None,
    }
}

fn copy_button(b: &Button) -> (r: Button)
    ensures
        r@ == b@,
{
    Button {
        row: b.row,
        column: b.column,
        row_span: b.row_span,
        column_span: b.column_span,
        name: b.name.clone(),
        file: copy_string(&b.file),
        default_image: copy_string(&b.default_image),
    }
}

/// Applies to each button, in order, what was found for its sidecar file.
pub fn enrich_document(doc: &mut VcpDocument, probes: &Vec<Sidecar>)
    requires
        probes.len() == old(doc).buttons.len(),
    ensures
        final(doc).buttons.len() == old(doc).buttons.len(),
        forall|k: int|
            0 <= k < final(doc).buttons.len() ==> #[trigger] final(doc).buttons@[k]@ == enriched(
                old(doc).buttons@[k]@,
                probes@[k],
            ),
        final(doc).background == old(doc).background,
        final(doc).column_count == old(doc).column_count,
        final(doc).row_count == old(doc).row_count,
        final(doc).on_click == old(doc).on_click,
        final(doc).on_hover == old(doc).on_hover,
        final(doc).borders == old(doc).borders,
        final(doc).images == old(doc).images,
{
    let mut k: usize = 0;
    while k < doc.buttons.len()
        invariant
            k <= doc.buttons.len(),
            probes.len() == doc.buttons.len(),
            doc.buttons.len() == old(doc).buttons.len(),
            forall|j: int|
                0 <= j < k ==> #[trigger] doc.buttons@[j]@ == enriched(
                    old(doc).buttons@[j]@,
                    probes@[j],
                ),
            forall|j: int| k <= j < doc.buttons.len() ==> #[trigger] doc.buttons@[j] == old(
                doc,
            ).buttons@[j],
            doc.background == old(doc).background,
            doc.column_count == old(doc).column_count,
            doc.row_count == old(doc).row_count,
            doc.on_click == old(doc).on_click,
            doc.on_hover == old(doc).on_hover,
            doc.borders == old(doc).borders,
            doc.images == old(doc).images,
        decreases doc.buttons.len() - k,
    {
        let mut button = copy_button(&doc.buttons[k]);
        enrich_button(&mut button, &probes[k]);
        doc.buttons.set(k, button);
        k = k + 1;
    }
}

} // verus!
