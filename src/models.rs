//! The in-memory document and the mathematical model of each of its parts.
use vstd::prelude::*;

verus! {

/// A rectangle of the grid drawn with a fill and an outline.
#[derive(Debug, Clone, PartialEq)]
pub struct Border {
    pub row_start: i32,
    pub column_start: i32,
    pub row_span: i32,
    pub column_span: i32,
    pub fill: String,
    pub outline_color: String,
    pub outline_thickness: i32,
    pub plc_word: Option<PlcWord>,
}

/// A text overlay of a border, showing the value of one PLC word.
#[derive(Debug, Clone, PartialEq)]
pub struct PlcWord {
    pub number: i32,
    pub color: String,
    pub fontsize: i32,
    pub font: String,
    pub fontstyle: String,
    pub verticalalignment: String,
    pub horizontalalignment: String,
    pub marginbottom: i32,
    pub percentage: bool,
}

/// A picture placed on a rectangle of the grid.
#[derive(Debug, Clone, PartialEq)]
pub struct Image {
    pub row_start: i32,
    pub column_start: i32,
    pub row_span: i32,
    pub column_span: i32,
    pub path: String,
}

/// A button on the grid. `file` and `default_image` come from the
/// button's sidecar file, never from the skin text itself.
#[derive(Debug, Clone, PartialEq)]
pub struct Button {
    pub row: i32,
    pub column: i32,
    pub row_span: Option<i32>,
    pub column_span: Option<i32>,
    pub name: String,
    pub file: Option<String>,
    pub default_image: Option<String>,
}

/// How a button looks while pressed.
#[derive(Debug, Clone, PartialEq)]
pub struct OnClick {
    pub opacity: i32,
    pub outline_color: String,
}

/// How a button looks while the pointer is over it.
#[derive(Debug, Clone, PartialEq)]
pub struct OnHover {
    pub opacity: i32,
    pub outline_color: String,
}

/// One skin: grid size, background, styles, and the ordered borders,
/// images and buttons.
#[derive(Debug, Clone, PartialEq)]
pub struct VcpDocument {
    pub background: String,
    pub column_count: i32,
    pub row_count: i32,
    pub on_click: Option<OnClick>,
    pub on_hover: Option<OnHover>,
    pub borders: Vec<Border>,
    pub images: Vec<Image>,
    pub buttons: Vec<Button>,
}

// ---------------------------------------------------------------------------
// Models
// ---------------------------------------------------------------------------

pub struct PlcWordModel {
    pub number: i32,
    pub color: Seq<char>,
    pub fontsize: i32,
    pub font: Seq<char>,
    pub fontstyle: Seq<char>,
    pub verticalalignment: Seq<char>,
    pub horizontalalignment: Seq<char>,
    pub marginbottom: i32,
    pub percentage: bool,
}

pub struct BorderModel {
    pub row_start: i32,
    pub column_start: i32,
    pub row_span: i32,
    pub column_span: i32,
    pub fill: Seq<char>,
    pub outline_color: Seq<char>,
    pub outline_thickness: i32,
    pub plc_word: Option<PlcWordModel>,
}

pub struct ImageModel {
    pub row_start: i32,
    pub column_start: i32,
    pub row_span: i32,
    pub column_span: i32,
    pub path: Seq<char>,
}

pub struct ButtonModel {
    pub row: i32,
    pub column: i32,
    pub row_span: Option<i32>,
    pub column_span: Option<i32>,
    pub name: Seq<char>,
    pub file: Option<Seq<char>>,
    pub default_image: Option<Seq<char>>,
}

/// The model of both `OnClick` and `OnHover`.
pub struct StyleModel {
    pub opacity: i32,
    pub outline_color: Seq<char>,
}

pub struct DocumentModel {
    pub background: Seq<char>,
    pub column_count: i32,
    pub row_count: i32,
    pub on_click: Option<StyleModel>,
    pub on_hover: Option<StyleModel>,
    pub borders: Seq<BorderModel>,
    pub images: Seq<ImageModel>,
    pub buttons: Seq<ButtonModel>,
}

pub open spec fn opt_string_view(o: Option<String>) -> Option<Seq<char>> {
    match o {
        Some(s) => Some(s@),
        None => None,
    }
}

impl View for PlcWord {
    type V = PlcWordModel;

    open spec fn view(&self) -> PlcWordModel {
        PlcWordModel {
            number: self.number,
            color: self.color@,
            fontsize: self.fontsize,
            font: self.font@,
            fontstyle: self.fontstyle@,
            verticalalignment: self.verticalalignment@,
            horizontalalignment: self.horizontalalignment@,
            marginbottom: self.marginbottom,
            percentage: self.percentage,
        }
    }
}

impl View for Border {
    type V = BorderModel;

    open spec fn view(&self) -> BorderModel {
        BorderModel {
            row_start: self.row_start,
            column_start: self.column_start,
            row_span: self.row_span,
            column_span: self.column_span,
            fill: self.fill@,
            outline_color: self.outline_color@,
            outline_thickness: self.outline_thickness,
            plc_word: match self.plc_word {
                Some(p) => Some(p@),
                None => None,
            },
        }
    }
}

impl View for Image {
    type V = ImageModel;

    open spec fn view(&self) -> ImageModel {
        ImageModel {
            row_start: self.row_start,
            column_start: self.column_start,
            row_span: self.row_span,
            column_span: self.column_span,
            path: self.path@,
        }
    }
}

impl View for Button {
    type V = ButtonModel;

    open spec fn view(&self) -> ButtonModel {
        ButtonModel {
            row: self.row,
            column: self.column,
            row_span: self.row_span,
            column_span: self.column_span,
            name: self.name@,
            file: opt_string_view(self.file),
            default_image: opt_string_view(self.default_image),
        }
    }
}

impl View for OnClick {
    type V = StyleModel;

    open spec fn view(&self) -> StyleModel {
        StyleModel { opacity: self.opacity, outline_color: self.outline_color@ }
    }
}

impl View for OnHover {
    type V = StyleModel;

    open spec fn view(&self) -> StyleModel {
        StyleModel { opacity: self.opacity, outline_color: self.outline_color@ }
    }
}

impl View for VcpDocument {
    type V = DocumentModel;

    open spec fn view(&self) -> DocumentModel {
        DocumentModel {
            background: self.background@,
            column_count: self.column_count,
            row_count: self.row_count,
            on_click: match self.on_click {
                Some(c) => Some(c@),
                None => None,
            },
            on_hover: match self.on_hover {
                Some(h) => Some(h@),
                None => None,
            },
            borders: self.borders@.map_values(|b: Border| b@),
            images: self.images@.map_values(|i: Image| i@),
            buttons: self.buttons@.map_values(|b: Button| b@),
        }
    }
}

// ---------------------------------------------------------------------------
// Defaults
// ---------------------------------------------------------------------------

/// The style a document has for pressed buttons unless the text gives one.
pub open spec fn default_click() -> StyleModel {
    StyleModel { opacity: 100, outline_color: "#000000"@ }
}

/// The style a document has for hovered buttons unless the text gives one.
pub open spec fn default_hover() -> StyleModel {
    StyleModel { opacity: 100, outline_color: "#ffffff"@ }
}

/// A new document: 6 columns by 14 rows on the standard background, both
/// styles present, nothing placed yet.
pub open spec fn default_document() -> DocumentModel {
    DocumentModel {
        background: "#E9E0B7"@,
        column_count: 6,
        row_count: 14,
        on_click: Some(default_click()),
        on_hover: Some(default_hover()),
        borders: Seq::empty(),
        images: Seq::empty(),
        buttons: Seq::empty(),
    }
}

impl Default for VcpDocument {
    fn default() -> (r: Self)
        ensures
            r@ == default_document(),
    {
        let r = VcpDocument {
            background: String::from_str("#E9E0B7"),
            column_count: 6,
            row_count: 14,
            on_click: Some(OnClick { opacity: 100, outline_color: String::from_str("#000000") }),
            on_hover: Some(OnHover { opacity: 100, outline_color: String::from_str("#ffffff") }),
            borders: Vec::new(),
            images: Vec::new(),
            buttons: Vec::new(),
        };
        assert(r@.borders =~= Seq::<BorderModel>::empty());
        assert(r@.images =~= Seq::<ImageModel>::empty());
        assert(r@.buttons =~= Seq::<ButtonModel>::empty());
        r
    }
}

} // verus!
