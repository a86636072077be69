//! Canvas Layout schema v2 — the unified `items[]` discriminated union and
//! its validation rules.
//!
//! The types here carry every field that validation and the session code
//! read. Canvas geometry (`x/y/w/h`, line end points, free-draw points,
//! connector waypoints, the viewport) is floating point and is held by the
//! serialisation layer next to these values; a free-draw item records here
//! how many points it has.
//!
//! Validation order:
//!   1. `schema_version == 2`
//!   2. group ids: UUID shape, uniqueness, label cap
//!   3. group parents refer to a known group id
//!   4. items in order: UUID shape, uniqueness, parent, label/description
//!      caps, then the per-variant payload rules.
//! The first failure is reported.

use vstd::prelude::*;
use crate::text::{byte_len, trims_to_empty, is_blank, utf8_len};
use vstd::utf8::encode_utf8;

verus! {

/// The schema version this module reads and writes.
pub const SCHEMA_VERSION: u32 = 2;

/// Maximum bytes for a `label` or `description` string.
pub const LABEL_DESCRIPTION_MAX_BYTES: usize = 4096;

/// Maximum bytes for a `text` payload.
pub const TEXT_PAYLOAD_MAX_BYTES: usize = 65536;

/// Maximum number of points in a `free_draw` item.
pub const FREE_DRAW_POINT_CAP: usize = 5000;

/// Maximum bytes for an inline-stored `document` item's `content`.
pub const DOCUMENT_INLINE_MAX_BYTES: usize = 65536;

/// Maximum bytes for a `SnippetEntry::key`.
pub const SNIPPET_KEY_MAX_BYTES: usize = 256;

/// Maximum bytes for a `SnippetEntry::body`.
pub const SNIPPET_BODY_MAX_BYTES: usize = 65536;

/// Maximum number of entries per `Snippets` item.
pub const SNIPPETS_ENTRIES_CAP: usize = 1000;

// ─────────────────────────────────────────────────────────────────────────
//  Small enums
// ─────────────────────────────────────────────────────────────────────────

/// Visibility of a group or item.
#[derive(Debug, Clone, Copy, PartialEq, Eq, Structural)]
pub enum Visibility {
    Visible,
    Hidden,
}

impl Default for Visibility {
    fn default() -> (r: Self)
        ensures
            r == Visibility::Visible,
    {
        Visibility::Visible
    }
}

/// Horizontal text alignment (default centre).
#[derive(Debug, Clone, Copy, PartialEq, Eq, Structural)]
pub enum TextAlign {
    Left,
    Center,
    Right,
}

impl Default for TextAlign {
    fn default() -> (r: Self)
        ensures
            r == TextAlign::Center,
    {
        TextAlign::Center
    }
}

/// Vertical text alignment (default middle).
#[derive(Debug, Clone, Copy, PartialEq, Eq, Structural)]
pub enum TextVerticalAlign {
    Top,
    Middle,
    Bottom,
}

impl Default for TextVerticalAlign {
    fn default() -> (r: Self)
        ensures
            r == TextVerticalAlign::Middle,
    {
        TextVerticalAlign::Middle
    }
}

/// 9-point connector anchor: 8 edges plus the centre.
#[derive(Debug, Clone, Copy, PartialEq, Eq, Structural)]
pub enum Anchor {
    N,
    NE,
    E,
    SE,
    S,
    SW,
    W,
    NW,
    Center,
}

/// Connector arrowhead direction mode.
#[derive(Debug, Clone, Copy, PartialEq, Eq, Structural)]
pub enum Direction {
    Uni,
    Bi,
    /// Wire form `"none"`: no arrowheads.
    NoArrow,
}

/// Per-end connector head marker.
#[derive(Debug, Clone, Copy, PartialEq, Eq, Structural)]
pub enum Head {
    Arrow,
    Circle,
    Diamond,
    /// Wire form `"none"`: no marker.
    NoMarker,
}

/// Connector routing style.
#[derive(Debug, Clone, Copy, PartialEq, Eq, Structural)]
pub enum Routing {
    Straight,
    Orthogonal,
    Bezier,
}

/// Connector stroke dash pattern (`None` in the item means solid).
#[derive(Debug, Clone, Copy, PartialEq, Eq, Structural)]
pub enum StrokeDash {
    Dash,
    Dot,
}

/// Figure stroke dash pattern (default solid).
#[derive(Debug, Clone, Copy, PartialEq, Eq, Structural)]
pub enum FigureStrokeDash {
    Solid,
    Dash,
    Dot,
    DashDot,
}

impl Default for FigureStrokeDash {
    fn default() -> (r: Self)
        ensures
            r == FigureStrokeDash::Solid,
    {
        FigureStrokeDash::Solid
    }
}

/// Text font weight (default normal).
#[derive(Debug, Clone, Copy, PartialEq, Eq, Structural)]
pub enum FontWeight {
    Light,
    Normal,
    Bold,
}

impl Default for FontWeight {
    fn default() -> (r: Self)
        ensures
            r == FontWeight::Normal,
    {
        FontWeight::Normal
    }
}

/// Font family bucket for text-bearing items (default sans).
#[derive(Debug, Clone, Copy, PartialEq, Eq, Structural)]
pub enum FontFamily {
    Sans,
    Serif,
    Mono,
}

impl Default for FontFamily {
    fn default() -> (r: Self)
        ensures
            r == FontFamily::Sans,
    {
        FontFamily::Sans
    }
}

/// Default for `fill_enabled` / `stroke_enabled` on rect and ellipse.
pub fn default_true() -> (b: bool)
    ensures
        b,
{
    true
}

/// Default embedded-text font size on rect and ellipse.
pub fn default_font_size() -> (n: u32)
    ensures
        n == 14,
{
    14
}

/// Default box stroke width on text items.
pub fn default_stroke_width() -> (n: u32)
    ensures
        n == 2,
{
    2
}

// ─────────────────────────────────────────────────────────────────────────
//  Layout, groups, items
// ─────────────────────────────────────────────────────────────────────────

/// Group node.
#[derive(Debug, Clone, PartialEq)]
pub struct Group {
    pub id: String,
    pub parent_id: Option<String>,
    pub label: String,
    pub color: Option<String>,
    pub visibility: Visibility,
    pub locked: bool,
    pub order: i32,
}

/// Fields common to every canvas item (geometry aside).
#[derive(Debug, Clone, PartialEq)]
pub struct ItemCommon {
    pub id: String,
    pub parent_id: Option<String>,
    pub z: i32,
    pub visibility: Visibility,
    pub locked: bool,
    pub label: String,
    pub description: String,
    pub minimized: bool,
}

/// One (key, body) pair of a snippets item.
#[derive(Debug, Clone, PartialEq)]
pub struct SnippetEntry {
    pub id: String,
    pub key: String,
    pub body: String,
}

/// Canvas item, discriminated by kind.
#[derive(Debug, Clone, PartialEq)]
pub enum Item {
    Terminal { common: ItemCommon },
    Text {
        common: ItemCommon,
        text: String,
        font_size: u32,
        text_align: TextAlign,
        text_vertical_align: TextVerticalAlign,
        color: String,
        font_weight: FontWeight,
        italic: bool,
        underline: bool,
        strikethrough: bool,
        font_family: FontFamily,
        stroke: String,
        fill: String,
        stroke_width: u32,
        fill_enabled: bool,
        stroke_enabled: bool,
        corner_rounded: bool,
        stroke_dash: Option<FigureStrokeDash>,
        label_auto: Option<bool>,
    },
    Note { common: ItemCommon, title: String, body: String, color: String },
    Rect {
        common: ItemCommon,
        stroke: String,
        fill: String,
        stroke_width: u32,
        fill_enabled: bool,
        stroke_enabled: bool,
        corner_rounded: bool,
        stroke_dash: Option<FigureStrokeDash>,
        text: String,
        font_size: u32,
        color: String,
        text_align: TextAlign,
        text_vertical_align: TextVerticalAlign,
        font_weight: FontWeight,
        italic: bool,
        underline: bool,
        strikethrough: bool,
        font_family: FontFamily,
        label_auto: Option<bool>,
    },
    Ellipse {
        common: ItemCommon,
        stroke: String,
        fill: String,
        stroke_width: u32,
        fill_enabled: bool,
        stroke_enabled: bool,
        stroke_dash: Option<FigureStrokeDash>,
        text: String,
        font_size: u32,
        color: String,
        text_align: TextAlign,
        text_vertical_align: TextVerticalAlign,
        font_weight: FontWeight,
        italic: bool,
        underline: bool,
        strikethrough: bool,
        font_family: FontFamily,
        label_auto: Option<bool>,
    },
    Line {
        common: ItemCommon,
        stroke: String,
        stroke_width: u32,
        stroke_dash: Option<FigureStrokeDash>,
    },
    FreeDraw { common: ItemCommon, stroke: String, stroke_width: u32, point_count: usize },
    Image {
        common: ItemCommon,
        asset_id: String,
        mime: String,
        original_w: Option<u32>,
        original_h: Option<u32>,
    },
    Document {
        common: ItemCommon,
        asset_id: Option<String>,
        mime: String,
        file_name: String,
        size_bytes: u64,
        content: Option<String>,
    },
    FilePath { common: ItemCommon, path: String, kind: Option<String> },
    Connector {
        common: ItemCommon,
        from_id: String,
        to_id: String,
        from_anchor: Anchor,
        to_anchor: Anchor,
        direction: Direction,
        stroke: String,
        stroke_width: u32,
        stroke_dash: Option<StrokeDash>,
        head_from: Head,
        head_to: Head,
        routing: Routing,
    },
    Snippets { common: ItemCommon, entries: Vec<SnippetEntry> },
}

impl Item {
    /// The common fields of any variant.
    pub open spec fn spec_common(self) -> ItemCommon {
        match self {
            Item::Terminal { common } => common,
            Item::Text { common, .. } => common,
            Item::Note { common, .. } => common,
            Item::Rect { common, .. } => common,
            Item::Ellipse { common, .. } => common,
            Item::Line { common, .. } => common,
            Item::FreeDraw { common, .. } => common,
            Item::Image { common, .. } => common,
            Item::Document { common, .. } => common,
            Item::FilePath { common, .. } => common,
            Item::Connector { common, .. } => common,
            Item::Snippets { common, .. } => common,
        }
    }

    /// Borrow the common fields regardless of variant.
    pub fn common(&self) -> (c: &ItemCommon)
        ensures
            *c == self.spec_common(),
    {
        match self {
            Item::Terminal { common } => common,
            Item::Text { common, .. } => common,
            Item::Note { common, .. } => common,
            Item::Rect { common, .. } => common,
            Item::Ellipse { common, .. } => common,
            Item::Line { common, .. } => common,
            Item::FreeDraw { common, .. } => common,
            Item::Image { common, .. } => common,
            Item::Document { common, .. } => common,
            Item::FilePath { common, .. } => common,
            Item::Connector { common, .. } => common,
            Item::Snippets { common, .. } => common,
        }
    }

    /// The id of the item.
    pub open spec fn spec_id(self) -> Seq<char> {
        self.spec_common().id@
    }
}

/// Body of a session record (schema v2), viewport aside.
#[derive(Debug, Clone, PartialEq)]
pub struct Layout {
    pub schema_version: u32,
    pub groups: Vec<Group>,
    pub items: Vec<Item>,
}

impl Layout {
    /// Empty v2 layout — used for newly created sessions.
    pub fn empty() -> (l: Self)
        ensures
            l.schema_version == SCHEMA_VERSION,
            l.groups@.len() == 0,
            l.items@.len() == 0,
            spec_validate(l) == Ok::<(), ValidationError>(()),
    {
        let l = Layout { schema_version: SCHEMA_VERSION, groups: Vec::new(), items: Vec::new() };
        assert(first_failure(0, group_checks(l.groups@)) is None);
        assert(first_failure(0, group_parent_checks(l.groups@)) is None);
        assert(first_failure(0, item_checks(l.items@, l.groups@)) is None);
        l
    }
}

// ─────────────────────────────────────────────────────────────────────────
//  Validation errors
// ─────────────────────────────────────────────────────────────────────────

/// Structured validation failure; each maps to HTTP 400 with `code()`.
#[derive(Debug, Clone, PartialEq, Eq)]
pub enum ValidationError {
    BadSchemaVersion { expected: u32, actual: u32 },
    BadItemId(String),
    BadGroupId(String),
    DanglingItemParent { parent: String },
    DanglingGroupParent { parent: String },
    DuplicateGroupId(String),
    DuplicateItemId(String),
    LabelTooLong,
    DescriptionTooLong,
    TextTooLong,
    FreeDrawTooManyPoints,
    DocumentMissingSource,
    DocumentBothSources,
    DocumentInlineTooLong,
    ConnectorEndpointMissing,
    ConnectorInvalidEndpoint,
    ConnectorSelfLoop,
    StrokeWidthOutOfRange { width: u32 },
    TextFontSizeOutOfRange { font_size: u32 },
    BadSnippetEntryId(String),
    SnippetKeyEmpty,
    SnippetKeyTooLong,
    SnippetBodyTooLong,
    SnippetsEntriesTooMany,
    DuplicateSnippetEntryId(String),
}

impl ValidationError {
    /// The stable machine-readable code of each variant.
    pub open spec fn spec_code(self) -> Seq<char> {
        match self {
            ValidationError::BadSchemaVersion { .. } => "bad_schema_version"@,
            ValidationError::BadItemId(_) => "bad_item_id"@,
            ValidationError::BadGroupId(_) => "bad_group_id"@,
            ValidationError::DanglingItemParent { .. } => "dangling_item_parent"@,
            ValidationError::DanglingGroupParent { .. } => "dangling_group_parent"@,
            ValidationError::DuplicateGroupId(_) => "duplicate_group_id"@,
            ValidationError::DuplicateItemId(_) => "duplicate_item_id"@,
            ValidationError::LabelTooLong => "label_too_long"@,
            ValidationError::DescriptionTooLong => "description_too_long"@,
            ValidationError::TextTooLong => "text_too_long"@,
            ValidationError::FreeDrawTooManyPoints => "free_draw_too_many_points"@,
            ValidationError::DocumentMissingSource => "document_missing_source"@,
            ValidationError::DocumentBothSources => "document_both_sources"@,
            ValidationError::DocumentInlineTooLong => "document_inline_too_long"@,
            ValidationError::ConnectorEndpointMissing => "connector_endpoint_missing"@,
            ValidationError::ConnectorInvalidEndpoint => "connector_invalid_endpoint"@,
            ValidationError::ConnectorSelfLoop => "connector_self_loop"@,
            ValidationError::StrokeWidthOutOfRange { .. } => "stroke_width_out_of_range"@,
            ValidationError::TextFontSizeOutOfRange { .. } => "text_font_size_out_of_range"@,
            ValidationError::BadSnippetEntryId(_) => "bad_snippet_entry_id"@,
            ValidationError::SnippetKeyEmpty => "snippet_key_empty"@,
            ValidationError::SnippetKeyTooLong => "snippet_key_too_long"@,
            ValidationError::SnippetBodyTooLong => "snippet_body_too_long"@,
            ValidationError::SnippetsEntriesTooMany => "snippets_entries_too_many"@,
            ValidationError::DuplicateSnippetEntryId(_) => "duplicate_snippet_entry_id"@,
        }
    }

    /// The position of the variant in the declaration, payload ignored.
    pub open spec fn kind_index(self) -> int {
        match self {
            ValidationError::BadSchemaVersion { .. } => 0,
            ValidationError::BadItemId(_) => 1,
            ValidationError::BadGroupId(_) => 2,
            ValidationError::DanglingItemParent { .. } => 3,
            ValidationError::DanglingGroupParent { .. } => 4,
            ValidationError::DuplicateGroupId(_) => 5,
            ValidationError::DuplicateItemId(_) => 6,
            ValidationError::LabelTooLong => 7,
            ValidationError::DescriptionTooLong => 8,
            ValidationError::TextTooLong => 9,
            ValidationError::FreeDrawTooManyPoints => 10,
            ValidationError::DocumentMissingSource => 11,
            ValidationError::DocumentBothSources => 12,
            ValidationError::DocumentInlineTooLong => 13,
            ValidationError::ConnectorEndpointMissing => 14,
            ValidationError::ConnectorInvalidEndpoint => 15,
            ValidationError::ConnectorSelfLoop => 16,
            ValidationError::StrokeWidthOutOfRange { .. } => 17,
            ValidationError::TextFontSizeOutOfRange { .. } => 18,
            ValidationError::BadSnippetEntryId(_) => 19,
            ValidationError::SnippetKeyEmpty => 20,
            ValidationError::SnippetKeyTooLong => 21,
            ValidationError::SnippetBodyTooLong => 22,
            ValidationError::SnippetsEntriesTooMany => 23,
            ValidationError::DuplicateSnippetEntryId(_) => 24,
        }
    }

    /// Stable machine-readable code surfaced in HTTP error envelopes.
    pub fn code(&self) -> (s: &'static str)
        ensures
            s@ == self.spec_code(),
    {
        match self {
            ValidationError::BadSchemaVersion { .. } => "bad_schema_version",
            ValidationError::BadItemId(_) => "bad_item_id",
            ValidationError::BadGroupId(_) => "bad_group_id",
            ValidationError::DanglingItemParent { .. } => "dangling_item_parent",
            ValidationError::DanglingGroupParent { .. } => "dangling_group_parent",
            ValidationError::DuplicateGroupId(_) => "duplicate_group_id",
            ValidationError::DuplicateItemId(_) => "duplicate_item_id",
            ValidationError::LabelTooLong => "label_too_long",
            ValidationError::DescriptionTooLong => "description_too_long",
            ValidationError::TextTooLong => "text_too_long",
            ValidationError::FreeDrawTooManyPoints => "free_draw_too_many_points",
            ValidationError::DocumentMissingSource => "document_missing_source",
            ValidationError::DocumentBothSources => "document_both_sources",
            ValidationError::DocumentInlineTooLong => "document_inline_too_long",
            ValidationError::ConnectorEndpointMissing => "connector_endpoint_missing",
            ValidationError::ConnectorInvalidEndpoint => "connector_invalid_endpoint",
            ValidationError::ConnectorSelfLoop => "connector_self_loop",
            ValidationError::StrokeWidthOutOfRange { .. } => "stroke_width_out_of_range",
            ValidationError::TextFontSizeOutOfRange { .. } => "text_font_size_out_of_range",
            ValidationError::BadSnippetEntryId(_) => "bad_snippet_entry_id",
            ValidationError::SnippetKeyEmpty => "snippet_key_empty",
            ValidationError::SnippetKeyTooLong => "snippet_key_too_long",
            ValidationError::SnippetBodyTooLong => "snippet_body_too_long",
            ValidationError::SnippetsEntriesTooMany => "snippets_entries_too_many",
            ValidationError::DuplicateSnippetEntryId(_) => "duplicate_snippet_entry_id",
        }
    }
}

/// The variant a code names (`-1` for any other text).
pub open spec fn kind_of_code(c: Seq<char>) -> int {
    if c == "bad_schema_version"@ {
        0
    } else if c == "bad_item_id"@ {
        1
    } else if c == "bad_group_id"@ {
        2
    } else if c == "dangling_item_parent"@ {
        3
    } else if c == "dangling_group_parent"@ {
        4
    } else if c == "duplicate_group_id"@ {
        5
    } else if c == "duplicate_item_id"@ {
        6
    } else if c == "label_too_long"@ {
        7
    } else if c == "description_too_long"@ {
        8
    } else if c == "text_too_long"@ {
        9
    } else if c == "free_draw_too_many_points"@ {
        10
    } else if c == "document_missing_source"@ {
        11
    } else if c == "document_both_sources"@ {
        12
    } else if c == "document_inline_too_long"@ {
        13
    } else if c == "connector_endpoint_missing"@ {
        14
    } else if c == "connector_invalid_endpoint"@ {
        15
    } else if c == "connector_self_loop"@ {
        16
    } else if c == "stroke_width_out_of_range"@ {
        17
    } else if c == "text_font_size_out_of_range"@ {
        18
    } else if c == "bad_snippet_entry_id"@ {
        19
    } else if c == "snippet_key_empty"@ {
        20
    } else if c == "snippet_key_too_long"@ {
        21
    } else if c == "snippet_body_too_long"@ {
        22
    } else if c == "snippets_entries_too_many"@ {
        23
    } else if c == "duplicate_snippet_entry_id"@ {
        24
    } else {
        -1
    }
}

proof fn lemma_kind_of_code(e: ValidationError)
    ensures
        kind_of_code(e.spec_code()) == e.kind_index(),
{
    reveal_strlit("bad_schema_version");
    reveal_strlit("bad_item_id");
    reveal_strlit("bad_group_id");
    reveal_strlit("dangling_item_parent");
    reveal_strlit("dangling_group_parent");
    reveal_strlit("duplicate_group_id");
    reveal_strlit("duplicate_item_id");
    reveal_strlit("label_too_long");
    reveal_strlit("description_too_long");
    reveal_strlit("text_too_long");
    reveal_strlit("free_draw_too_many_points");
    reveal_strlit("document_missing_source");
    reveal_strlit("document_both_sources");
    reveal_strlit("document_inline_too_long");
    reveal_strlit("connector_endpoint_missing");
    reveal_strlit("connector_invalid_endpoint");
    reveal_strlit("connector_self_loop");
    reveal_strlit("stroke_width_out_of_range");
    reveal_strlit("text_font_size_out_of_range");
    reveal_strlit("bad_snippet_entry_id");
    reveal_strlit("snippet_key_empty");
    reveal_strlit("snippet_key_too_long");
    reveal_strlit("snippet_body_too_long");
    reveal_strlit("snippets_entries_too_many");
    reveal_strlit("duplicate_snippet_entry_id");
    assert("bad_schema_version"@.len() == 18);
    assert("bad_item_id"@.len() == 11);
    assert("bad_group_id"@.len() == 12);
    assert("dangling_item_parent"@.len() == 20);
    assert("dangling_group_parent"@.len() == 21);
    assert("duplicate_group_id"@.len() == 18);
    assert("duplicate_item_id"@.len() == 17);
    assert("label_too_long"@.len() == 14);
    assert("description_too_long"@.len() == 20);
    assert("text_too_long"@.len() == 13);
    assert("free_draw_too_many_points"@.len() == 25);
    assert("document_missing_source"@.len() == 23);
    assert("document_both_sources"@.len() == 21);
    assert("document_inline_too_long"@.len() == 24);
    assert("connector_endpoint_missing"@.len() == 26);
    assert("connector_invalid_endpoint"@.len() == 26);
    assert("connector_self_loop"@.len() == 19);
    assert("stroke_width_out_of_range"@.len() == 25);
    assert("text_font_size_out_of_range"@.len() == 27);
    assert("bad_snippet_entry_id"@.len() == 20);
    assert("snippet_key_empty"@.len() == 17);
    assert("snippet_key_too_long"@.len() == 20);
    assert("snippet_body_too_long"@.len() == 21);
    assert("snippets_entries_too_many"@.len() == 25);
    assert("duplicate_snippet_entry_id"@.len() == 26);
    assert("duplicate_group_id"@[0] != "bad_schema_version"@[0]);
    assert("description_too_long"@[1] != "dangling_item_parent"@[1]);
    assert("document_both_sources"@[1] != "dangling_group_parent"@[1]);
    assert("connector_invalid_endpoint"@[10] != "connector_endpoint_missing"@[10]);
    assert("stroke_width_out_of_range"@[0] != "free_draw_too_many_points"@[0]);
    assert("bad_snippet_entry_id"@[0] != "dangling_item_parent"@[0]);
    assert("bad_snippet_entry_id"@[0] != "description_too_long"@[0]);
    assert("snippet_key_empty"@[0] != "duplicate_item_id"@[0]);
    assert("snippet_key_too_long"@[0] != "dangling_item_parent"@[0]);
    assert("snippet_key_too_long"@[0] != "description_too_long"@[0]);
    assert("snippet_key_too_long"@[0] != "bad_snippet_entry_id"@[0]);
    assert("snippet_body_too_long"@[0] != "dangling_group_parent"@[0]);
    assert("snippet_body_too_long"@[0] != "document_both_sources"@[0]);
    assert("snippets_entries_too_many"@[0] != "free_draw_too_many_points"@[0]);
    assert("snippets_entries_too_many"@[1] != "stroke_width_out_of_range"@[1]);
    assert("duplicate_snippet_entry_id"@[0] != "connector_endpoint_missing"@[0]);
    assert("duplicate_snippet_entry_id"@[0] != "connector_invalid_endpoint"@[0]);
    match e {
        ValidationError::BadSchemaVersion { .. } => {},
        ValidationError::BadItemId(_) => {},
        ValidationError::BadGroupId(_) => {},
        ValidationError::DanglingItemParent { .. } => {},
        ValidationError::DanglingGroupParent { .. } => {},
        ValidationError::DuplicateGroupId(_) => {},
        ValidationError::DuplicateItemId(_) => {},
        ValidationError::LabelTooLong => {},
        ValidationError::DescriptionTooLong => {},
        ValidationError::TextTooLong => {},
        ValidationError::FreeDrawTooManyPoints => {},
        ValidationError::DocumentMissingSource => {},
        ValidationError::DocumentBothSources => {},
        ValidationError::DocumentInlineTooLong => {},
        ValidationError::ConnectorEndpointMissing => {},
        ValidationError::ConnectorInvalidEndpoint => {},
        ValidationError::ConnectorSelfLoop => {},
        ValidationError::StrokeWidthOutOfRange { .. } => {},
        ValidationError::TextFontSizeOutOfRange { .. } => {},
        ValidationError::BadSnippetEntryId(_) => {},
        ValidationError::SnippetKeyEmpty => {},
        ValidationError::SnippetKeyTooLong => {},
        ValidationError::SnippetBodyTooLong => {},
        ValidationError::SnippetsEntriesTooMany => {},
        ValidationError::DuplicateSnippetEntryId(_) => {},
    }
}

/// Two validation errors have the same code exactly when they are the same
/// variant (payloads never matter), and every code is a non-empty string of
/// `a-z` and `_`.
pub proof fn lemma_validation_codes_distinct(e1: ValidationError, e2: ValidationError)
    ensures
        (e1.spec_code() == e2.spec_code()) <==> (e1.kind_index() == e2.kind_index()),
        e1.spec_code().len() > 0,
        forall|i: int|
            0 <= i < e1.spec_code().len() ==> ((97 <= #[trigger] e1.spec_code()[i] as u32 <= 122)
                || e1.spec_code()[i] == '_'),
{
    reveal_strlit("bad_schema_version");
    reveal_strlit("bad_item_id");
    reveal_strlit("bad_group_id");
    reveal_strlit("dangling_item_parent");
    reveal_strlit("dangling_group_parent");
    reveal_strlit("duplicate_group_id");
    reveal_strlit("duplicate_item_id");
    reveal_strlit("label_too_long");
    reveal_strlit("description_too_long");
    reveal_strlit("text_too_long");
    reveal_strlit("free_draw_too_many_points");
    reveal_strlit("document_missing_source");
    reveal_strlit("document_both_sources");
    reveal_strlit("document_inline_too_long");
    reveal_strlit("connector_endpoint_missing");
    reveal_strlit("connector_invalid_endpoint");
    reveal_strlit("connector_self_loop");
    reveal_strlit("stroke_width_out_of_range");
    reveal_strlit("text_font_size_out_of_range");
    reveal_strlit("bad_snippet_entry_id");
    reveal_strlit("snippet_key_empty");
    reveal_strlit("snippet_key_too_long");
    reveal_strlit("snippet_body_too_long");
    reveal_strlit("snippets_entries_too_many");
    reveal_strlit("duplicate_snippet_entry_id");
    lemma_kind_of_code(e1);
    lemma_kind_of_code(e2);
}

// ─────────────────────────────────────────────────────────────────────────
//  Validation rules (specification)
// ─────────────────────────────────────────────────────────────────────────

/// Lowercase hex digit byte.
pub open spec fn is_lower_hex_byte(x: u8) -> bool {
    (48 <= x <= 57) || (97 <= x <= 102)
}

/// Lowercase 8-4-4-4-12 hex shape on raw bytes.
pub open spec fn uuid_shape_bytes(b: Seq<u8>) -> bool {
    &&& b.len() == 36
    &&& forall|i: int|
        0 <= i < 36 ==> if i == 8 || i == 13 || i == 18 || i == 23 {
            #[trigger] b[i] == 45u8
        } else {
            is_lower_hex_byte(b[i])
        }
}

/// A string whose UTF-8 bytes have the lowercase UUID shape.
pub open spec fn is_uuid_text(s: Seq<char>) -> bool {
    uuid_shape_bytes(encode_utf8(s))
}

/// The first failure among checks `0..n`, in order.
pub open spec fn first_failure(n: nat, check: spec_fn(int) -> Option<ValidationError>) -> Option<
    ValidationError,
>
    decreases n,
{
    if n == 0 {
        None
    } else {
        match first_failure((n - 1) as nat, check) {
            Some(e) => Some(e),
            None => check(n - 1),
        }
    }
}

/// When checks before `i` pass and check `i` fails, the first failure
/// among any longer run of checks is that of `i`.
pub proof fn lemma_first_failure_stop(
    i: nat,
    n: nat,
    check: spec_fn(int) -> Option<ValidationError>,
    e: ValidationError,
)
    requires
        i < n,
        first_failure(i, check) is None,
        check(i as int) == Some(e),
    ensures
        first_failure(n, check) == Some(e),
    decreases n,
{
    if n > i + 1 {
        lemma_first_failure_stop(i, (n - 1) as nat, check, e);
    }
}

pub open spec fn stroke_width_error(w: u32) -> Option<ValidationError> {
    if w < 1 || w > 32 {
        Some(ValidationError::StrokeWidthOutOfRange { width: w })
    } else {
        None
    }
}

pub open spec fn font_size_error(f: u32) -> Option<ValidationError> {
    if f < 8 || f > 96 {
        Some(ValidationError::TextFontSizeOutOfRange { font_size: f })
    } else {
        None
    }
}

pub open spec fn text_cap_error(t: Seq<char>) -> Option<ValidationError> {
    if utf8_len(t) > TEXT_PAYLOAD_MAX_BYTES {
        Some(ValidationError::TextTooLong)
    } else {
        None
    }
}

/// The first of three optional failures.
pub open spec fn first_of(
    a: Option<ValidationError>,
    b: Option<ValidationError>,
    c: Option<ValidationError>,
) -> Option<ValidationError> {
    if a is Some {
        a
    } else if b is Some {
        b
    } else {
        c
    }
}

pub open spec fn has_group_id(groups: Seq<Group>, id: Seq<char>) -> bool {
    exists|j: int| 0 <= j < groups.len() && (#[trigger] groups[j]).id@ == id
}

/// Group `i`: id shape, uniqueness against earlier groups, label cap.
pub open spec fn group_check(groups: Seq<Group>, i: int) -> Option<ValidationError> {
    let g = groups[i];
    if !is_uuid_text(g.id@) {
        Some(ValidationError::BadGroupId(g.id))
    } else if exists|j: int| 0 <= j < i && (#[trigger] groups[j]).id@ == g.id@ {
        Some(ValidationError::DuplicateGroupId(g.id))
    } else if utf8_len(g.label@) > LABEL_DESCRIPTION_MAX_BYTES {
        Some(ValidationError::LabelTooLong)
    } else {
        None
    }
}

pub open spec fn group_checks(groups: Seq<Group>) -> spec_fn(int) -> Option<ValidationError> {
    |i: int| group_check(groups, i)
}

/// Group `i`: its parent, if any, is a known group id.
pub open spec fn group_parent_check(groups: Seq<Group>, i: int) -> Option<ValidationError> {
    match groups[i].parent_id {
        Some(p) => if !has_group_id(groups, p@) {
            Some(ValidationError::DanglingGroupParent { parent: p })
        } else {
            None
        },
        None => None,
    }
}

pub open spec fn group_parent_checks(groups: Seq<Group>) -> spec_fn(int) -> Option<
    ValidationError,
> {
    |i: int| group_parent_check(groups, i)
}

/// The last item of `items` with id `id` (later duplicates shadow earlier ones).
pub open spec fn lookup_last(items: Seq<Item>, id: Seq<char>) -> Option<Item>
    decreases items.len(),
{
    if items.len() == 0 {
        None
    } else if items.last().spec_id() == id {
        Some(items.last())
    } else {
        lookup_last(items.drop_last(), id)
    }
}

/// Snippet entry `k`: id shape, uniqueness within the item, key, body.
pub open spec fn entry_check(entries: Seq<SnippetEntry>, k: int) -> Option<ValidationError> {
    let e = entries[k];
    if !is_uuid_text(e.id@) {
        Some(ValidationError::BadSnippetEntryId(e.id))
    } else if exists|m: int| 0 <= m < k && (#[trigger] entries[m]).id@ == e.id@ {
        Some(ValidationError::DuplicateSnippetEntryId(e.id))
    } else if is_blank(e.key@) {
        Some(ValidationError::SnippetKeyEmpty)
    } else if utf8_len(e.key@) > SNIPPET_KEY_MAX_BYTES {
        Some(ValidationError::SnippetKeyTooLong)
    } else if utf8_len(e.body@) > SNIPPET_BODY_MAX_BYTES {
        Some(ValidationError::SnippetBodyTooLong)
    } else {
        None
    }
}

pub open spec fn entry_checks(entries: Seq<SnippetEntry>) -> spec_fn(int) -> Option<
    ValidationError,
> {
    |k: int| entry_check(entries, k)
}

/// The per-variant payload rules of one item of `items`.
pub open spec fn payload_check(items: Seq<Item>, it: Item) -> Option<ValidationError> {
    match it {
        Item::Text { text, font_size, stroke_width, .. } => first_of(
            text_cap_error(text@),
            font_size_error(font_size),
            stroke_width_error(stroke_width),
        ),
        Item::Rect { stroke_width, text, font_size, .. } => first_of(
            stroke_width_error(stroke_width),
            text_cap_error(text@),
            font_size_error(font_size),
        ),
        Item::Ellipse { stroke_width, text, font_size, .. } => first_of(
            stroke_width_error(stroke_width),
            text_cap_error(text@),
            font_size_error(font_size),
        ),
        Item::Line { stroke_width, .. } => stroke_width_error(stroke_width),
        Item::FreeDraw { point_count, .. } => if point_count > FREE_DRAW_POINT_CAP {
            Some(ValidationError::FreeDrawTooManyPoints)
        } else {
            None
        },
        Item::Document { asset_id, content, .. } => match (asset_id, content) {
            (None, None) => Some(ValidationError::DocumentMissingSource),
            (Some(_), Some(_)) => Some(ValidationError::DocumentBothSources),
            (None, Some(c)) => if utf8_len(c@) > DOCUMENT_INLINE_MAX_BYTES {
                Some(ValidationError::DocumentInlineTooLong)
            } else {
                None
            },
            (Some(_), None) => None,
        },
        Item::Connector { from_id, to_id, .. } => if from_id@ == to_id@ {
            Some(ValidationError::ConnectorSelfLoop)
        } else {
            match (lookup_last(items, from_id@), lookup_last(items, to_id@)) {
                (Some(f), Some(t)) => if f is Connector || t is Connector {
                    Some(ValidationError::ConnectorInvalidEndpoint)
                } else {
                    None
                },
                _ => Some(ValidationError::ConnectorEndpointMissing),
            }
        },
        Item::Snippets { entries, .. } => if entries@.len() > SNIPPETS_ENTRIES_CAP {
            Some(ValidationError::SnippetsEntriesTooMany)
        } else {
            first_failure(entries@.len(), entry_checks(entries@))
        },
        _ => None,
    }
}

/// Item `i`: id shape, uniqueness, parent, label/description caps, payload.
pub open spec fn item_check(items: Seq<Item>, groups: Seq<Group>, i: int) -> Option<
    ValidationError,
> {
    let c = items[i].spec_common();
    if !is_uuid_text(c.id@) {
        Some(ValidationError::BadItemId(c.id))
    } else if exists|j: int| 0 <= j < i && (#[trigger] items[j]).spec_id() == c.id@ {
        Some(ValidationError::DuplicateItemId(c.id))
    } else if c.parent_id is Some && !has_group_id(groups, c.parent_id->0@) {
        Some(ValidationError::DanglingItemParent { parent: c.parent_id->0 })
    } else if utf8_len(c.label@) > LABEL_DESCRIPTION_MAX_BYTES {
        Some(ValidationError::LabelTooLong)
    } else if utf8_len(c.description@) > LABEL_DESCRIPTION_MAX_BYTES {
        Some(ValidationError::DescriptionTooLong)
    } else {
        payload_check(items, items[i])
    }
}

pub open spec fn item_checks(items: Seq<Item>, groups: Seq<Group>) -> spec_fn(int) -> Option<
    ValidationError,
> {
    |i: int| item_check(items, groups, i)
}

/// The outcome `validate` owes for a layout: the first rule it breaks.
pub open spec fn spec_validate(l: Layout) -> Result<(), ValidationError> {
    let gs = l.groups@;
    let its = l.items@;
    if l.schema_version != SCHEMA_VERSION {
        Err(ValidationError::BadSchemaVersion { expected: SCHEMA_VERSION, actual: l.schema_version })
    } else if first_failure(gs.len(), group_checks(gs)) is Some {
        Err(first_failure(gs.len(), group_checks(gs))->0)
    } else if first_failure(gs.len(), group_parent_checks(gs)) is Some {
        Err(first_failure(gs.len(), group_parent_checks(gs))->0)
    } else if first_failure(its.len(), item_checks(its, gs)) is Some {
        Err(first_failure(its.len(), item_checks(its, gs))->0)
    } else {
        Ok(())
    }
}


// ─────────────────────────────────────────────────────────────────────────
//  What a valid layout is
// ─────────────────────────────────────────────────────────────────────────

/// The per-kind rules an item of a valid layout satisfies, stated on its
/// fields: figure strokes `1..=32`, text and embedded text within the byte
/// cap and font sizes `8..=96`, free drawings within the point cap, a
/// document with exactly one source (inline content within its cap), a
/// connector joining two distinct existing non-connector items, and
/// snippets within the entry cap with well-formed, distinct entries.
pub open spec fn item_obeys_rules(items: Seq<Item>, it: Item) -> bool {
    match it {
        Item::Text { text, font_size, stroke_width, .. } => utf8_len(text@)
            <= TEXT_PAYLOAD_MAX_BYTES && 8 <= font_size <= 96 && 1 <= stroke_width <= 32,
        Item::Rect { stroke_width, text, font_size, .. } => 1 <= stroke_width <= 32 && utf8_len(
            text@,
        ) <= TEXT_PAYLOAD_MAX_BYTES && 8 <= font_size <= 96,
        Item::Ellipse { stroke_width, text, font_size, .. } => 1 <= stroke_width <= 32
            && utf8_len(text@) <= TEXT_PAYLOAD_MAX_BYTES && 8 <= font_size <= 96,
        Item::Line { stroke_width, .. } => 1 <= stroke_width <= 32,
        Item::FreeDraw { point_count, .. } => point_count <= FREE_DRAW_POINT_CAP,
        Item::Document { asset_id, content, .. } => (asset_id is Some) != (content is Some) && (
        content matches Some(c) ==> utf8_len(c@) <= DOCUMENT_INLINE_MAX_BYTES),
        Item::Connector { from_id, to_id, .. } => from_id@ != to_id@ && (exists|j: int|
            0 <= j < items.len() && (#[trigger] items[j]).spec_id() == from_id@ && !(
            items[j] is Connector)) && (exists|j: int|
            0 <= j < items.len() && (#[trigger] items[j]).spec_id() == to_id@ && !(
            items[j] is Connector)),
        Item::Snippets { entries, .. } => entries@.len() <= SNIPPETS_ENTRIES_CAP && forall|k: int|
            0 <= k < entries@.len() ==> {
                let e = #[trigger] entries@[k];
                &&& is_uuid_text(e.id@)
                &&& forall|m: int| 0 <= m < k ==> (#[trigger] entries@[m]).id@ != e.id@
                &&& !is_blank(e.key@)
                &&& utf8_len(e.key@) <= SNIPPET_KEY_MAX_BYTES
                &&& utf8_len(e.body@) <= SNIPPET_BODY_MAX_BYTES
            },
        _ => true,
    }
}

/// Everything a valid layout satisfies: version 2; group ids UUID-shaped
/// and distinct, labels within the cap, parents known; item ids
/// UUID-shaped and distinct, parents known groups, labels and descriptions
/// within the cap, and each item obeying the rules of its kind.
pub open spec fn layout_obeys_rules(l: Layout) -> bool {
    let gs = l.groups@;
    let its = l.items@;
    &&& l.schema_version == 2
    &&& forall|i: int|
        0 <= i < gs.len() ==> {
            let g = #[trigger] gs[i];
            &&& is_uuid_text(g.id@)
            &&& forall|j: int| 0 <= j < i ==> (#[trigger] gs[j]).id@ != g.id@
            &&& utf8_len(g.label@) <= LABEL_DESCRIPTION_MAX_BYTES
            &&& (g.parent_id matches Some(p) ==> has_group_id(gs, p@))
        }
    &&& forall|i: int|
        0 <= i < its.len() ==> {
            let c = (#[trigger] its[i]).spec_common();
            &&& is_uuid_text(c.id@)
            &&& forall|j: int| 0 <= j < i ==> (#[trigger] its[j]).spec_id() != c.id@
            &&& (c.parent_id matches Some(p) ==> has_group_id(gs, p@))
            &&& utf8_len(c.label@) <= LABEL_DESCRIPTION_MAX_BYTES
            &&& utf8_len(c.description@) <= LABEL_DESCRIPTION_MAX_BYTES
            &&& item_obeys_rules(its, its[i])
        }
}

/// When no check among the first `n` fails, none of them fails.
pub proof fn lemma_first_failure_none(n: nat, check: spec_fn(int) -> Option<ValidationError>)
    requires
        first_failure(n, check) is None,
    ensures
        forall|i: int| 0 <= i < n ==> (#[trigger] check(i)) is None,
    decreases n,
{
    if n > 0 {
        lemma_first_failure_none((n - 1) as nat, check);
    }
}

proof fn lemma_lookup_last_found(items: Seq<Item>, id: Seq<char>)
    ensures
        lookup_last(items, id) matches Some(f) ==> exists|j: int|
            0 <= j < items.len() && items[j] == f && (#[trigger] items[j]).spec_id() == id,
    decreases items.len(),
{
    if items.len() > 0 {
        lemma_lookup_last_found(items.drop_last(), id);
        if items.last().spec_id() != id {
            match lookup_last(items.drop_last(), id) {
                Some(f) => {
                    let j = choose|j: int|
                        0 <= j < items.drop_last().len() && items.drop_last()[j] == f && (
                        #[trigger] items.drop_last()[j]).spec_id() == id;
                    assert(items[j] == items.drop_last()[j]);
                },
                None => {},
            }
        } else {
            assert(items[items.len() - 1] == items.last());
        }
    }
}

proof fn lemma_payload_ok(items: Seq<Item>, it: Item)
    requires
        payload_check(items, it) is None,
    ensures
        item_obeys_rules(items, it),
{
    match it {
        Item::Connector { from_id, to_id, .. } => {
            lemma_lookup_last_found(items, from_id@);
            lemma_lookup_last_found(items, to_id@);
        },
        Item::Snippets { entries, .. } => {
            lemma_first_failure_none(entries@.len(), entry_checks(entries@));
            assert forall|k: int| 0 <= k < entries@.len() implies {
                let e = #[trigger] entries@[k];
                &&& is_uuid_text(e.id@)
                &&& forall|m: int| 0 <= m < k ==> (#[trigger] entries@[m]).id@ != e.id@
                &&& !is_blank(e.key@)
                &&& utf8_len(e.key@) <= SNIPPET_KEY_MAX_BYTES
                &&& utf8_len(e.body@) <= SNIPPET_BODY_MAX_BYTES
            } by {
                assert(entry_checks(entries@)(k) is None);
            }
        },
        _ => {},
    }
}

/// A layout that validates satisfies every rule: in particular a line,
/// rect, ellipse or text item with a stroke width outside `1..=32` (or any
/// other broken rule) is never accepted.
pub proof fn lemma_valid_layout_obeys_rules(l: Layout)
    requires
        spec_validate(l) is Ok,
    ensures
        layout_obeys_rules(l),
{
    let gs = l.groups@;
    let its = l.items@;
    lemma_first_failure_none(gs.len(), group_checks(gs));
    lemma_first_failure_none(gs.len(), group_parent_checks(gs));
    lemma_first_failure_none(its.len(), item_checks(its, gs));
    assert forall|i: int| 0 <= i < gs.len() implies {
        let g = #[trigger] gs[i];
        &&& is_uuid_text(g.id@)
        &&& forall|j: int| 0 <= j < i ==> (#[trigger] gs[j]).id@ != g.id@
        &&& utf8_len(g.label@) <= LABEL_DESCRIPTION_MAX_BYTES
        &&& (g.parent_id matches Some(p) ==> has_group_id(gs, p@))
    } by {
        assert(group_checks(gs)(i) is None);
        assert(group_parent_checks(gs)(i) is None);
    }
    assert forall|i: int| 0 <= i < its.len() implies {
        let c = (#[trigger] its[i]).spec_common();
        &&& is_uuid_text(c.id@)
        &&& forall|j: int| 0 <= j < i ==> (#[trigger] its[j]).spec_id() != c.id@
        &&& (c.parent_id matches Some(p) ==> has_group_id(gs, p@))
        &&& utf8_len(c.label@) <= LABEL_DESCRIPTION_MAX_BYTES
        &&& utf8_len(c.description@) <= LABEL_DESCRIPTION_MAX_BYTES
        &&& item_obeys_rules(its, its[i])
    } by {
        assert(item_checks(its, gs)(i) is None);
        lemma_payload_ok(its, its[i]);
    }
}

// ─────────────────────────────────────────────────────────────────────────
//  Validation (implementation)
// ─────────────────────────────────────────────────────────────────────────

/// Shared text-payload byte cap check.
pub fn check_text_cap(text: &str) -> (r: Result<(), ValidationError>)
    ensures
        r == (match text_cap_error(text@) {
            Some(e) => Err(e),
            None => Ok(()),
        }),
{
    if byte_len(text) > TEXT_PAYLOAD_MAX_BYTES {
        return Err(ValidationError::TextTooLong);
    }
    Ok(())
}

/// Shared font-size range check (8..=96).
pub fn check_font_size(font_size: u32) -> (r: Result<(), ValidationError>)
    ensures
        r == (match font_size_error(font_size) {
            Some(e) => Err(e),
            None => Ok(()),
        }),
{
    if font_size < 8 || font_size > 96 {
        return Err(ValidationError::TextFontSizeOutOfRange { font_size });
    }
    Ok(())
}

/// Shared figure stroke-width range check (1..=32).
pub fn check_stroke_width(width: u32) -> (r: Result<(), ValidationError>)
    ensures
        r == (match stroke_width_error(width) {
            Some(e) => Err(e),
            None => Ok(()),
        }),
{
    if width < 1 || width > 32 {
        return Err(ValidationError::StrokeWidthOutOfRange { width });
    }
    Ok(())
}

/// Lowercase 8-4-4-4-12 hex check on the bytes of `s`.
pub fn is_uuid_shape(s: &str) -> (b: bool)
    ensures
        b == is_uuid_text(s@),
{
    let bytes = s.as_bytes();
    if bytes.len() != 36 {
        return false;
    }
    let mut i: usize = 0;
    while i < 36
        invariant
            i <= 36,
            bytes@ == encode_utf8(s@),
            bytes@.len() == 36,
            forall|k: int|
                0 <= k < i ==> if k == 8 || k == 13 || k == 18 || k == 23 {
                    #[trigger] bytes@[k] == 45u8
                } else {
                    is_lower_hex_byte(bytes@[k])
                },
        decreases 36 - i,
    {
        let x = bytes[i];
        if i == 8 || i == 13 || i == 18 || i == 23 {
            if x != 45u8 {
                return false;
            }
        } else if !((48u8 <= x && x <= 57u8) || (97u8 <= x && x <= 102u8)) {
            return false;
        }
        i = i + 1;
    }
    true
}

fn opt_err(r: Result<(), ValidationError>) -> (o: Option<ValidationError>)
    ensures
        o == (match r {
            Ok(()) => None,
            Err(e) => Some(e),
        }),
{
    match r {
        Ok(()) => None,
        Err(e) => Some(e),
    }
}

/// Whether some group has id `id`.
fn group_id_known(groups: &Vec<Group>, id: &String) -> (b: bool)
    ensures
        b == has_group_id(groups@, id@),
{
    let mut j: usize = 0;
    while j < groups.len()
        invariant
            j <= groups.len(),
            forall|k: int| 0 <= k < j ==> (#[trigger] groups@[k]).id@ != id@,
        decreases groups.len() - j,
    {
        if groups[j].id == *id {
            return true;
        }
        j = j + 1;
    }
    false
}

/// Whether a group before index `i` has id `id`.
fn group_id_before(groups: &Vec<Group>, i: usize, id: &String) -> (b: bool)
    requires
        i <= groups.len(),
    ensures
        b == exists|j: int| 0 <= j < i && (#[trigger] groups@[j]).id@ == id@,
{
    let mut j: usize = 0;
    while j < i
        invariant
            j <= i <= groups.len(),
            forall|k: int| 0 <= k < j ==> (#[trigger] groups@[k]).id@ != id@,
        decreases i - j,
    {
        if groups[j].id == *id {
            return true;
        }
        j = j + 1;
    }
    false
}

/// Whether an item before index `i` has id `id`.
fn item_id_before(items: &Vec<Item>, i: usize, id: &String) -> (b: bool)
    requires
        i <= items.len(),
    ensures
        b == exists|j: int| 0 <= j < i && (#[trigger] items@[j]).spec_id() == id@,
{
    let mut j: usize = 0;
    while j < i
        invariant
            j <= i <= items.len(),
            forall|k: int| 0 <= k < j ==> (#[trigger] items@[k]).spec_id() != id@,
        decreases i - j,
    {
        if items[j].common().id == *id {
            return true;
        }
        j = j + 1;
    }
    false
}

/// Whether a snippet entry before index `k` has id `id`.
fn entry_id_before(entries: &Vec<SnippetEntry>, k: usize, id: &String) -> (b: bool)
    requires
        k <= entries.len(),
    ensures
        b == exists|m: int| 0 <= m < k && (#[trigger] entries@[m]).id@ == id@,
{
    let mut m: usize = 0;
    while m < k
        invariant
            m <= k <= entries.len(),
            forall|q: int| 0 <= q < m ==> (#[trigger] entries@[q]).id@ != id@,
        decreases k - m,
    {
        if entries[m].id == *id {
            return true;
        }
        m = m + 1;
    }
    false
}

proof fn lemma_lookup_last_take(items: Seq<Item>, id: Seq<char>, j: int)
    requires
        0 < j <= items.len(),
        items[j - 1].spec_id() != id,
    ensures
        lookup_last(items.take(j), id) == lookup_last(items.take(j - 1), id),
{
    assert(items.take(j).drop_last() =~= items.take(j - 1));
}

/// Index of the last item with id `id`, if any.
fn find_last(items: &Vec<Item>, id: &String) -> (r: Option<usize>)
    ensures
        match r {
            None => lookup_last(items@, id@) is None,
            Some(j) => j < items@.len() && lookup_last(items@, id@) == Some(items@[j as int]),
        },
{
    let mut j: usize = items.len();
    assert(items@.take(items@.len() as int) =~= items@);
    while j > 0
        invariant
            j <= items.len(),
            lookup_last(items@, id@) == lookup_last(items@.take(j as int), id@),
        decreases j,
    {
        if items[j - 1].common().id == *id {
            proof {
                let t = items@.take(j as int);
                assert(t.last() == items@[j - 1]);
            }
            return Some(j - 1);
        }
        proof {
            lemma_lookup_last_take(items@, id@, j as int);
        }
        j = j - 1;
    }
    assert(items@.take(0).len() == 0);
    None
}

fn check_group(groups: &Vec<Group>, i: usize) -> (r: Option<ValidationError>)
    requires
        i < groups.len(),
    ensures
        r == group_check(groups@, i as int),
{
    let g = &groups[i];
    if !is_uuid_shape(g.id.as_str()) {
        return Some(ValidationError::BadGroupId(g.id.clone()));
    }
    if group_id_before(groups, i, &g.id) {
        return Some(ValidationError::DuplicateGroupId(g.id.clone()));
    }
    if byte_len(g.label.as_str()) > LABEL_DESCRIPTION_MAX_BYTES {
        return Some(ValidationError::LabelTooLong);
    }
    None
}

fn check_group_parent(groups: &Vec<Group>, i: usize) -> (r: Option<ValidationError>)
    requires
        i < groups.len(),
    ensures
        r == group_parent_check(groups@, i as int),
{
    match &groups[i].parent_id {
        Some(p) => {
            if !group_id_known(groups, p) {
                Some(ValidationError::DanglingGroupParent { parent: p.clone() })
            } else {
                None
            }
        },
        None => None,
    }
}

fn check_snippet_entry(entries: &Vec<SnippetEntry>, k: usize) -> (r: Option<ValidationError>)
    requires
        k < entries.len(),
    ensures
        r == entry_check(entries@, k as int),
{
    let e = &entries[k];
    if !is_uuid_shape(e.id.as_str()) {
        return Some(ValidationError::BadSnippetEntryId(e.id.clone()));
    }
    if entry_id_before(entries, k, &e.id) {
        return Some(ValidationError::DuplicateSnippetEntryId(e.id.clone()));
    }
    if trims_to_empty(e.key.as_str()) {
        return Some(ValidationError::SnippetKeyEmpty);
    }
    if byte_len(e.key.as_str()) > SNIPPET_KEY_MAX_BYTES {
        return Some(ValidationError::SnippetKeyTooLong);
    }
    if byte_len(e.body.as_str()) > SNIPPET_BODY_MAX_BYTES {
        return Some(ValidationError::SnippetBodyTooLong);
    }
    None
}

fn check_snippets(entries: &Vec<SnippetEntry>) -> (r: Option<ValidationError>)
    requires
        entries@.len() <= SNIPPETS_ENTRIES_CAP,
    ensures
        r == first_failure(entries@.len(), entry_checks(entries@)),
{
    let n = entries.len();
    let mut k: usize = 0;
    while k < n
        invariant
            k <= n,
            n == entries@.len(),
            first_failure(k as nat, entry_checks(entries@)) is None,
        decreases n - k,
    {
        let o = check_snippet_entry(entries, k);
        if let Some(e) = o {
            proof {
                lemma_first_failure_stop(k as nat, n as nat, entry_checks(entries@), e);
            }
            return Some(e);
        }
        k = k + 1;
    }
    None
}

fn check_payload(items: &Vec<Item>, it: &Item) -> (r: Option<ValidationError>)
    ensures
        r == payload_check(items@, *it),
{
    match it {
        Item::Text { text, font_size, stroke_width, .. } => {
            let a = opt_err(check_text_cap(text.as_str()));
            if a.is_some() {
                return a;
            }
            let b = opt_err(check_font_size(*font_size));
            if b.is_some() {
                return b;
            }
            opt_err(check_stroke_width(*stroke_width))
        },
        Item::Rect { stroke_width, text, font_size, .. }
        | Item::Ellipse { stroke_width, text, font_size, .. } => {
            let a = opt_err(check_stroke_width(*stroke_width));
            if a.is_some() {
                return a;
            }
            let b = opt_err(check_text_cap(text.as_str()));
            if b.is_some() {
                return b;
            }
            opt_err(check_font_size(*font_size))
        },
        Item::Line { stroke_width, .. } => opt_err(check_stroke_width(*stroke_width)),
        Item::FreeDraw { point_count, .. } => {
            if *point_count > FREE_DRAW_POINT_CAP {
                Some(ValidationError::FreeDrawTooManyPoints)
            } else {
                None
            }
        },
        Item::Document { asset_id, content, .. } => {
            match (asset_id, content) {
                (None, None) => Some(ValidationError::DocumentMissingSource),
                (Some(_), Some(_)) => Some(ValidationError::DocumentBothSources),
                (None, Some(c)) => {
                    if byte_len(c.as_str()) > DOCUMENT_INLINE_MAX_BYTES {
                        Some(ValidationError::DocumentInlineTooLong)
                    } else {
                        None
                    }
                },
                (Some(_), None) => None,
            }
        },
        Item::Connector { from_id, to_id, .. } => {
            if *from_id == *to_id {
                return Some(ValidationError::ConnectorSelfLoop);
            }
            let from = find_last(items, from_id);
            let to = find_last(items, to_id);
            match (from, to) {
                (Some(f), Some(t)) => {
                    let fc = match &items[f] {
                        Item::Connector { .. } => true,
                        _ => false,
                    };
                    let tc = match &items[t] {
                        Item::Connector { .. } => true,
                        _ => false,
                    };
                    if fc || tc {
                        Some(ValidationError::ConnectorInvalidEndpoint)
                    } else {
                        None
                    }
                },
                _ => Some(ValidationError::ConnectorEndpointMissing),
            }
        },
        Item::Snippets { entries, .. } => {
            if entries.len() > SNIPPETS_ENTRIES_CAP {
                Some(ValidationError::SnippetsEntriesTooMany)
            } else {
                check_snippets(entries)
            }
        },
        _ => None,
    }
}

fn check_item(items: &Vec<Item>, groups: &Vec<Group>, i: usize) -> (r: Option<ValidationError>)
    requires
        i < items.len(),
    ensures
        r == item_check(items@, groups@, i as int),
{
    let c = items[i].common();
    if !is_uuid_shape(c.id.as_str()) {
        return Some(ValidationError::BadItemId(c.id.clone()));
    }
    if item_id_before(items, i, &c.id) {
        return Some(ValidationError::DuplicateItemId(c.id.clone()));
    }
    if let Some(p) = &c.parent_id {
        if !group_id_known(groups, p) {
            return Some(ValidationError::DanglingItemParent { parent: p.clone() });
        }
    }
    if byte_len(c.label.as_str()) > LABEL_DESCRIPTION_MAX_BYTES {
        return Some(ValidationError::LabelTooLong);
    }
    if byte_len(c.description.as_str()) > LABEL_DESCRIPTION_MAX_BYTES {
        return Some(ValidationError::DescriptionTooLong);
    }
    check_payload(items, &items[i])
}

/// Validate a v2 layout. Returns the first rule broken, in the documented
/// order, or `Ok(())` when every rule holds.
pub fn validate(layout: &Layout) -> (r: Result<(), ValidationError>)
    ensures
        r == spec_validate(*layout),
        r is Ok ==> layout_obeys_rules(*layout),
{
    proof {
        if spec_validate(*layout) is Ok {
            lemma_valid_layout_obeys_rules(*layout);
        }
    }
    if layout.schema_version != SCHEMA_VERSION {
        return Err(
            ValidationError::BadSchemaVersion {
                expected: SCHEMA_VERSION,
                actual: layout.schema_version,
            },
        );
    }
    let groups = &layout.groups;
    let items = &layout.items;
    let ng = groups.len();
    let mut i: usize = 0;
    while i < ng
        invariant
            i <= ng,
            ng == groups@.len(),
            groups@ == layout.groups@,
            layout.schema_version == SCHEMA_VERSION,
            first_failure(i as nat, group_checks(groups@)) is None,
        decreases ng - i,
    {
        if let Some(e) = check_group(groups, i) {
            proof {
                lemma_first_failure_stop(i as nat, ng as nat, group_checks(groups@), e);
            }
            return Err(e);
        }
        i = i + 1;
    }
    let mut i: usize = 0;
    while i < ng
        invariant
            i <= ng,
            ng == groups@.len(),
            groups@ == layout.groups@,
            layout.schema_version == SCHEMA_VERSION,
            first_failure(ng as nat, group_checks(groups@)) is None,
            first_failure(i as nat, group_parent_checks(groups@)) is None,
        decreases ng - i,
    {
        if let Some(e) = check_group_parent(groups, i) {
            proof {
                lemma_first_failure_stop(i as nat, ng as nat, group_parent_checks(groups@), e);
            }
            return Err(e);
        }
        i = i + 1;
    }
    let ni = items.len();
    let mut i: usize = 0;
    while i < ni
        invariant
            i <= ni,
            ng == groups@.len(),
            ni == items@.len(),
            groups@ == layout.groups@,
            items@ == layout.items@,
            layout.schema_version == SCHEMA_VERSION,
            first_failure(ng as nat, group_checks(groups@)) is None,
            first_failure(ng as nat, group_parent_checks(groups@)) is None,
            first_failure(i as nat, item_checks(items@, groups@)) is None,
        decreases ni - i,
    {
        if let Some(e) = check_item(items, groups, i) {
            proof {
                lemma_first_failure_stop(i as nat, ni as nat, item_checks(items@, groups@), e);
            }
            return Err(e);
        }
        i = i + 1;
    }
    Ok(())
}


// ─────────────────────────────────────────────────────────────────────────
//  Schema version classification
// ─────────────────────────────────────────────────────────────────────────

/// How a stored layout body is classified by its `schema_version`.
#[derive(Debug, Clone, Copy, PartialEq, Eq, Structural)]
pub enum SchemaShape {
    /// `schema_version == 2`: read as is.
    V2,
    /// `schema_version == 1`: migrate to v2 first.
    V1,
    /// Missing, non-integer or unknown `schema_version`: quarantine.
    Unknown,
}

/// The classification of a body whose `schema_version` field reads as
/// `version` (`None` when the field is missing or not an unsigned integer).
pub open spec fn shape_of(version: Option<u64>) -> SchemaShape {
    match version {
        Some(v) => if v == 2 {
            SchemaShape::V2
        } else if v == 1 {
            SchemaShape::V1
        } else {
            SchemaShape::Unknown
        },
        None => SchemaShape::Unknown,
    }
}

/// Classifies a body by the unsigned integer value of its
/// `schema_version` field (`None` when missing or of another JSON type).
pub fn detect_shape(schema_version: Option<u64>) -> (s: SchemaShape)
    ensures
        s == shape_of(schema_version),
{
    match schema_version {
        Some(2) => SchemaShape::V2,
        Some(1) => SchemaShape::V1,
        _ => SchemaShape::Unknown,
    }
}

} // verus!
