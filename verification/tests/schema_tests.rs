use gtmux_http_api::schema::{
    check_font_size, check_stroke_width, check_text_cap, default_font_size, default_stroke_width,
    default_true, detect_shape, is_uuid_shape, validate, Anchor, Direction, FigureStrokeDash,
    FontFamily, FontWeight, Group, Head, Item, ItemCommon, Layout, Routing, SchemaShape,
    SnippetEntry, TextAlign, TextVerticalAlign, ValidationError, Visibility,
    FREE_DRAW_POINT_CAP, LABEL_DESCRIPTION_MAX_BYTES, SCHEMA_VERSION, SNIPPETS_ENTRIES_CAP,
    SNIPPET_BODY_MAX_BYTES, SNIPPET_KEY_MAX_BYTES, TEXT_PAYLOAD_MAX_BYTES,
    DOCUMENT_INLINE_MAX_BYTES,
};

const UUID_A: &str = "7f3a0000-b9e2-4111-8222-000000000001";
const UUID_B: &str = "8a4c0000-c7f1-4111-8222-000000000002";
const UUID_G: &str = "0d990000-0000-4111-8222-000000000003";
const UUID_C: &str = "c1c10000-0000-4111-8222-000000000004";
const SNIPPET_ID_1: &str = "00000000-0000-4000-8000-000000000001";

fn item_common(id: &str) -> ItemCommon {
    ItemCommon {
        id: id.to_string(),
        parent_id: None,
        z: 0,
        visibility: Visibility::Visible,
        locked: false,
        label: String::new(),
        description: String::new(),
        minimized: false,
    }
}

fn text_item(id: &str, text: String, font_size: u32, stroke_width: u32) -> Item {
    Item::Text {
        common: item_common(id),
        text,
        font_size,
        text_align: TextAlign::Center,
        text_vertical_align: TextVerticalAlign::Middle,
        color: "#000".into(),
        font_weight: FontWeight::Normal,
        italic: false,
        underline: false,
        strikethrough: false,
        font_family: FontFamily::Sans,
        stroke: String::new(),
        fill: String::new(),
        stroke_width,
        fill_enabled: false,
        stroke_enabled: false,
        corner_rounded: false,
        stroke_dash: None,
        label_auto: None,
    }
}

fn rect_item(id: &str, stroke_width: u32, text: String, font_size: u32) -> Item {
    Item::Rect {
        common: item_common(id),
        stroke: "#000".into(),
        fill: "#fff".into(),
        stroke_width,
        fill_enabled: true,
        stroke_enabled: true,
        corner_rounded: false,
        stroke_dash: None,
        text,
        font_size,
        color: String::new(),
        text_align: TextAlign::Center,
        text_vertical_align: TextVerticalAlign::Middle,
        font_weight: FontWeight::Normal,
        italic: false,
        underline: false,
        strikethrough: false,
        font_family: FontFamily::Sans,
        label_auto: None,
    }
}

fn ellipse_item(id: &str, stroke_width: u32) -> Item {
    Item::Ellipse {
        common: item_common(id),
        stroke: "#000".into(),
        fill: "#fff".into(),
        stroke_width,
        fill_enabled: true,
        stroke_enabled: true,
        stroke_dash: None,
        text: String::new(),
        font_size: 14,
        color: String::new(),
        text_align: TextAlign::Center,
        text_vertical_align: TextVerticalAlign::Middle,
        font_weight: FontWeight::Normal,
        italic: false,
        underline: false,
        strikethrough: false,
        font_family: FontFamily::Sans,
        label_auto: None,
    }
}

fn connector_between(id: &str, from_id: &str, to_id: &str, from_anchor: Anchor, to_anchor: Anchor) -> Item {
    Item::Connector {
        common: item_common(id),
        from_id: from_id.into(),
        to_id: to_id.into(),
        from_anchor,
        to_anchor,
        direction: Direction::Uni,
        stroke: "#0d99ff".into(),
        stroke_width: 2,
        stroke_dash: None,
        head_from: Head::NoMarker,
        head_to: Head::Arrow,
        routing: Routing::Straight,
    }
}

fn document_item(id: &str, asset_id: Option<String>, content: Option<String>, size_bytes: u64) -> Item {
    Item::Document {
        common: item_common(id),
        asset_id,
        mime: "text/markdown".into(),
        file_name: "notes.md".into(),
        size_bytes,
        content,
    }
}

fn snippets_item(entries: Vec<SnippetEntry>) -> Item {
    Item::Snippets { common: item_common(UUID_A), entries }
}

fn group(id: &str) -> Group {
    Group {
        id: id.to_string(),
        parent_id: None,
        label: "g".into(),
        color: None,
        visibility: Visibility::Visible,
        locked: false,
        order: 0,
    }
}

#[test]
fn empty_layout_validates() {
    let l = Layout::empty();
    assert!(validate(&l).is_ok());
}

#[test]
fn bad_schema_version_rejected() {
    let mut l = Layout::empty();
    l.schema_version = 1;
    assert!(matches!(validate(&l), Err(ValidationError::BadSchemaVersion { .. })));
}

#[test]
fn bad_item_id_rejected() {
    let mut l = Layout::empty();
    l.items.push(Item::Terminal { common: item_common("not-a-uuid") });
    assert!(matches!(validate(&l), Err(ValidationError::BadItemId(_))));
}

#[test]
fn duplicate_item_id_rejected() {
    let mut l = Layout::empty();
    l.items.push(Item::Terminal { common: item_common(UUID_A) });
    l.items.push(Item::Terminal { common: item_common(UUID_A) });
    assert!(matches!(validate(&l), Err(ValidationError::DuplicateItemId(_))));
}

#[test]
fn dangling_item_parent_rejected() {
    let mut l = Layout::empty();
    let mut common = item_common(UUID_A);
    common.parent_id = Some(UUID_G.to_string());
    l.items.push(Item::Terminal { common });
    assert!(matches!(validate(&l), Err(ValidationError::DanglingItemParent { .. })));
}

#[test]
fn item_parent_pointing_to_known_group_ok() {
    let mut l = Layout::empty();
    l.groups.push(group(UUID_G));
    let mut common = item_common(UUID_A);
    common.parent_id = Some(UUID_G.to_string());
    l.items.push(Item::Terminal { common });
    assert!(validate(&l).is_ok());
}

#[test]
fn label_cap_enforced() {
    let mut l = Layout::empty();
    let mut common = item_common(UUID_A);
    common.label = "x".repeat(LABEL_DESCRIPTION_MAX_BYTES + 1);
    l.items.push(Item::Terminal { common });
    assert_eq!(validate(&l), Err(ValidationError::LabelTooLong));
}

#[test]
fn text_cap_enforced() {
    let mut l = Layout::empty();
    l.items.push(text_item(UUID_A, "x".repeat(TEXT_PAYLOAD_MAX_BYTES + 1), 14, 2));
    assert_eq!(validate(&l), Err(ValidationError::TextTooLong));
}

#[test]
fn free_draw_point_cap_enforced() {
    let mut l = Layout::empty();
    l.items.push(Item::FreeDraw {
        common: item_common(UUID_A),
        stroke: "#000".into(),
        stroke_width: 1,
        point_count: FREE_DRAW_POINT_CAP + 1,
    });
    assert_eq!(validate(&l), Err(ValidationError::FreeDrawTooManyPoints));
}

#[test]
fn document_inline_stored_validates() {
    let mut l = Layout::empty();
    l.items.push(document_item(UUID_A, None, Some("# Hi\n".into()), 5));
    assert_eq!(validate(&l), Ok(()));
}

#[test]
fn document_asset_based_validates() {
    let mut l = Layout::empty();
    l.items.push(Item::Document {
        common: item_common(UUID_A),
        asset_id: Some("dead".repeat(16)),
        mime: "application/pdf".into(),
        file_name: "spec.pdf".into(),
        size_bytes: 12345,
        content: None,
    });
    assert_eq!(validate(&l), Ok(()));
}

#[test]
fn document_missing_source_rejected() {
    let mut l = Layout::empty();
    l.items.push(document_item(UUID_A, None, None, 0));
    assert_eq!(validate(&l), Err(ValidationError::DocumentMissingSource));
}

#[test]
fn document_both_sources_rejected() {
    let mut l = Layout::empty();
    l.items.push(document_item(UUID_A, Some("abc".into()), Some("body".into()), 4));
    assert_eq!(validate(&l), Err(ValidationError::DocumentBothSources));
}

#[test]
fn document_inline_cap_enforced() {
    let mut l = Layout::empty();
    l.items.push(document_item(
        UUID_A,
        None,
        Some("a".repeat(DOCUMENT_INLINE_MAX_BYTES + 1)),
        (DOCUMENT_INLINE_MAX_BYTES + 1) as u64,
    ));
    assert_eq!(validate(&l), Err(ValidationError::DocumentInlineTooLong));
}

#[test]
fn detect_shape_classifies_versions() {
    assert_eq!(detect_shape(Some(2)), SchemaShape::V2);
    assert_eq!(detect_shape(Some(1)), SchemaShape::V1);
    assert_eq!(detect_shape(Some(0)), SchemaShape::Unknown);
    assert_eq!(detect_shape(None), SchemaShape::Unknown);
}

#[test]
fn connector_valid_endpoints_ok() {
    let l = Layout {
        schema_version: 2,
        groups: vec![],
        items: vec![
            rect_item(UUID_A, 1, String::new(), 14),
            rect_item(UUID_B, 1, String::new(), 14),
            connector_between(UUID_C, UUID_A, UUID_B, Anchor::E, Anchor::W),
        ],
    };
    assert_eq!(validate(&l), Ok(()));
}

#[test]
fn connector_endpoint_missing_rejected() {
    let l = Layout {
        schema_version: 2,
        groups: vec![],
        items: vec![
            rect_item(UUID_A, 1, String::new(), 14),
            connector_between(UUID_C, UUID_A, UUID_B, Anchor::E, Anchor::W),
        ],
    };
    assert_eq!(validate(&l), Err(ValidationError::ConnectorEndpointMissing));
}

#[test]
fn connector_self_loop_rejected() {
    let l = Layout {
        schema_version: 2,
        groups: vec![],
        items: vec![
            rect_item(UUID_A, 1, String::new(), 14),
            connector_between(UUID_C, UUID_A, UUID_A, Anchor::N, Anchor::S),
        ],
    };
    assert_eq!(validate(&l), Err(ValidationError::ConnectorSelfLoop));
}

#[test]
fn connector_invalid_endpoint_rejected() {
    let c1 = "11110000-0000-4111-8222-000000000005";
    let c2 = "22220000-0000-4111-8222-000000000006";
    let l = Layout {
        schema_version: 2,
        groups: vec![],
        items: vec![
            rect_item(UUID_A, 1, String::new(), 14),
            rect_item(UUID_B, 1, String::new(), 14),
            connector_between(c1, UUID_A, UUID_B, Anchor::E, Anchor::W),
            connector_between(c2, UUID_A, c1, Anchor::E, Anchor::W),
        ],
    };
    assert_eq!(validate(&l), Err(ValidationError::ConnectorInvalidEndpoint));
}

#[test]
fn figure_stroke_width_zero_rejected() {
    let mut l = Layout::empty();
    l.items.push(rect_item(UUID_A, 0, String::new(), 14));
    let err = validate(&l).unwrap_err();
    assert_eq!(err.code(), "stroke_width_out_of_range");
}

#[test]
fn figure_stroke_width_over_32_rejected() {
    let mut l = Layout::empty();
    l.items.push(ellipse_item(UUID_A, 33));
    let err = validate(&l).unwrap_err();
    assert_eq!(err.code(), "stroke_width_out_of_range");
}

#[test]
fn figure_stroke_width_boundary_accepted() {
    let mut l = Layout::empty();
    l.items.push(rect_item(UUID_A, 1, String::new(), 14));
    l.items.push(Item::Line {
        common: item_common(UUID_B),
        stroke: "#000".into(),
        stroke_width: 32,
        stroke_dash: None,
    });
    assert_eq!(validate(&l), Ok(()));
}

#[test]
fn text_font_size_under_8_rejected() {
    let mut l = Layout::empty();
    l.items.push(text_item(UUID_A, "Hi".into(), 7, 2));
    let err = validate(&l).unwrap_err();
    assert_eq!(err.code(), "text_font_size_out_of_range");
}

#[test]
fn text_font_size_over_96_rejected() {
    let mut l = Layout::empty();
    l.items.push(text_item(UUID_A, "Hi".into(), 97, 2));
    let err = validate(&l).unwrap_err();
    assert_eq!(err.code(), "text_font_size_out_of_range");
}

#[test]
fn font_family_default_sans() {
    assert_eq!(FontFamily::default(), FontFamily::Sans);
}

fn embedded_rect(text: String, font_size: u32) -> Item {
    Item::Rect {
        common: item_common(UUID_A),
        stroke: "#000".into(),
        fill: "#fff".into(),
        stroke_width: 2,
        fill_enabled: default_true(),
        stroke_enabled: default_true(),
        corner_rounded: false,
        stroke_dash: None,
        text,
        font_size,
        color: String::new(),
        text_align: TextAlign::default(),
        text_vertical_align: TextVerticalAlign::default(),
        font_weight: FontWeight::default(),
        italic: false,
        underline: false,
        strikethrough: false,
        font_family: FontFamily::default(),
        label_auto: None,
    }
}

#[test]
fn embedded_text_font_size_over_96_rejected() {
    let l = Layout { schema_version: 2, groups: vec![], items: vec![embedded_rect("x".into(), 97)] };
    let err = validate(&l).unwrap_err();
    assert_eq!(err.code(), "text_font_size_out_of_range");
}

#[test]
fn embedded_text_64kb_cap_enforced() {
    let big = "x".repeat(TEXT_PAYLOAD_MAX_BYTES + 1);
    let l = Layout { schema_version: 2, groups: vec![], items: vec![embedded_rect(big, 14)] };
    assert_eq!(validate(&l), Err(ValidationError::TextTooLong));
}

#[test]
fn text_box_stroke_width_over_32_rejected() {
    let mut item = text_item(UUID_A, "Hi".into(), 16, 33);
    if let Item::Text { color, .. } = &mut item {
        *color = "#333".into();
    }
    let l = Layout { schema_version: 2, groups: vec![], items: vec![item] };
    let err = validate(&l).unwrap_err();
    assert_eq!(err.code(), "stroke_width_out_of_range");
}

#[test]
fn snippets_empty_entries_validates() {
    let mut l = Layout::empty();
    l.items.push(snippets_item(vec![]));
    assert!(validate(&l).is_ok());
}

#[test]
fn snippets_rejects_empty_key() {
    let mut l = Layout::empty();
    l.items.push(snippets_item(vec![SnippetEntry {
        id: SNIPPET_ID_1.to_string(),
        key: "   ".to_string(),
        body: String::new(),
    }]));
    assert_eq!(validate(&l), Err(ValidationError::SnippetKeyEmpty));
}

#[test]
fn snippets_rejects_too_many_entries() {
    let mut l = Layout::empty();
    let entries: Vec<SnippetEntry> = (0..(SNIPPETS_ENTRIES_CAP + 1))
        .map(|i| SnippetEntry {
            id: format!("00000000-0000-4000-8000-{:012x}", i + 1),
            key: format!("k{i}"),
            body: String::new(),
        })
        .collect();
    l.items.push(snippets_item(entries));
    assert_eq!(validate(&l), Err(ValidationError::SnippetsEntriesTooMany));
}

#[test]
fn snippets_rejects_duplicate_entry_id() {
    let dup = SNIPPET_ID_1;
    let mut l = Layout::empty();
    l.items.push(snippets_item(vec![
        SnippetEntry { id: dup.to_string(), key: "a".to_string(), body: String::new() },
        SnippetEntry { id: dup.to_string(), key: "b".to_string(), body: String::new() },
    ]));
    assert_eq!(validate(&l), Err(ValidationError::DuplicateSnippetEntryId(dup.to_string())));
}

#[test]
fn snippets_rejects_oversized_body() {
    let mut l = Layout::empty();
    l.items.push(snippets_item(vec![SnippetEntry {
        id: SNIPPET_ID_1.to_string(),
        key: "big".to_string(),
        body: "x".repeat(SNIPPET_BODY_MAX_BYTES + 1),
    }]));
    assert_eq!(validate(&l), Err(ValidationError::SnippetBodyTooLong));
}

#[test]
fn snippets_rejects_bad_entry_id() {
    let mut l = Layout::empty();
    l.items.push(snippets_item(vec![SnippetEntry {
        id: "not-a-uuid".to_string(),
        key: "ok".to_string(),
        body: String::new(),
    }]));
    let err = validate(&l).unwrap_err();
    assert_eq!(err.code(), "bad_snippet_entry_id");
}

// ── further cases ──

#[test]
fn snippet_key_length_cap() {
    let mut l = Layout::empty();
    l.items.push(snippets_item(vec![SnippetEntry {
        id: SNIPPET_ID_1.to_string(),
        key: "k".repeat(SNIPPET_KEY_MAX_BYTES + 1),
        body: String::new(),
    }]));
    assert_eq!(validate(&l), Err(ValidationError::SnippetKeyTooLong));
}

#[test]
fn description_cap_enforced() {
    let mut l = Layout::empty();
    let mut common = item_common(UUID_A);
    common.description = "d".repeat(LABEL_DESCRIPTION_MAX_BYTES + 1);
    l.items.push(Item::Terminal { common });
    assert_eq!(validate(&l), Err(ValidationError::DescriptionTooLong));
}

#[test]
fn label_cap_counts_bytes_not_chars() {
    let mut l = Layout::empty();
    let mut common = item_common(UUID_A);
    // 2049 two-byte characters: 4098 bytes, over the cap.
    common.label = "é".repeat(2049);
    l.items.push(Item::Terminal { common });
    assert_eq!(validate(&l), Err(ValidationError::LabelTooLong));
}

#[test]
fn group_errors_are_reported() {
    let mut l = Layout::empty();
    l.groups.push(group("bad"));
    assert!(matches!(validate(&l), Err(ValidationError::BadGroupId(_))));

    let mut l = Layout::empty();
    l.groups.push(group(UUID_G));
    l.groups.push(group(UUID_G));
    assert!(matches!(validate(&l), Err(ValidationError::DuplicateGroupId(_))));

    let mut l = Layout::empty();
    let mut g = group(UUID_G);
    g.parent_id = Some(UUID_A.to_string());
    l.groups.push(g);
    assert_eq!(
        validate(&l),
        Err(ValidationError::DanglingGroupParent { parent: UUID_A.to_string() })
    );
}

#[test]
fn schema_version_error_carries_values() {
    let mut l = Layout::empty();
    l.schema_version = 7;
    assert_eq!(
        validate(&l),
        Err(ValidationError::BadSchemaVersion { expected: SCHEMA_VERSION, actual: 7 })
    );
}

#[test]
fn first_failure_wins() {
    // The bad id of the first item is reported before the later duplicate.
    let mut l = Layout::empty();
    l.items.push(Item::Terminal { common: item_common("nope") });
    l.items.push(Item::Terminal { common: item_common(UUID_A) });
    l.items.push(Item::Terminal { common: item_common(UUID_A) });
    assert_eq!(validate(&l), Err(ValidationError::BadItemId("nope".to_string())));
}

#[test]
fn uuid_shape_checks() {
    assert!(is_uuid_shape(UUID_A));
    assert!(!is_uuid_shape("7F3A0000-B9E2-4111-8222-000000000001"));
    assert!(!is_uuid_shape("7f3a0000b9e2-4111-8222-000000000001x"));
    assert!(!is_uuid_shape(""));
}

#[test]
fn single_field_checks() {
    assert_eq!(check_font_size(8), Ok(()));
    assert_eq!(check_font_size(96), Ok(()));
    assert_eq!(check_font_size(7), Err(ValidationError::TextFontSizeOutOfRange { font_size: 7 }));
    assert_eq!(check_stroke_width(1), Ok(()));
    assert_eq!(check_stroke_width(0), Err(ValidationError::StrokeWidthOutOfRange { width: 0 }));
    assert_eq!(check_text_cap(&"x".repeat(TEXT_PAYLOAD_MAX_BYTES)), Ok(()));
    assert_eq!(check_text_cap(&"x".repeat(TEXT_PAYLOAD_MAX_BYTES + 1)), Err(ValidationError::TextTooLong));
}

#[test]
fn defaults_are_documented_values() {
    assert!(default_true());
    assert_eq!(default_font_size(), 14);
    assert_eq!(default_stroke_width(), 2);
    assert_eq!(TextAlign::default(), TextAlign::Center);
    assert_eq!(FigureStrokeDash::default(), FigureStrokeDash::Solid);
    assert_eq!(FontWeight::default(), FontWeight::Normal);
    assert_eq!(Visibility::default(), Visibility::Visible);
}

#[test]
fn error_codes_are_stable() {
    assert_eq!(ValidationError::LabelTooLong.code(), "label_too_long");
    assert_eq!(ValidationError::ConnectorSelfLoop.code(), "connector_self_loop");
    assert_eq!(ValidationError::DuplicateItemId(String::new()).code(), "duplicate_item_id");
}

#[test]
fn error_codes_name_their_variant() {
    let all = vec![
        ValidationError::BadSchemaVersion { expected: 2, actual: 1 },
        ValidationError::BadItemId("x".into()),
        ValidationError::BadGroupId("x".into()),
        ValidationError::DanglingItemParent { parent: "x".into() },
        ValidationError::DanglingGroupParent { parent: "x".into() },
        ValidationError::DuplicateGroupId("x".into()),
        ValidationError::DuplicateItemId("x".into()),
        ValidationError::LabelTooLong,
        ValidationError::DescriptionTooLong,
        ValidationError::TextTooLong,
        ValidationError::FreeDrawTooManyPoints,
        ValidationError::DocumentMissingSource,
        ValidationError::DocumentBothSources,
        ValidationError::DocumentInlineTooLong,
        ValidationError::ConnectorEndpointMissing,
        ValidationError::ConnectorInvalidEndpoint,
        ValidationError::ConnectorSelfLoop,
        ValidationError::StrokeWidthOutOfRange { width: 0 },
        ValidationError::TextFontSizeOutOfRange { font_size: 0 },
        ValidationError::BadSnippetEntryId("x".into()),
        ValidationError::SnippetKeyEmpty,
        ValidationError::SnippetKeyTooLong,
        ValidationError::SnippetBodyTooLong,
        ValidationError::SnippetsEntriesTooMany,
        ValidationError::DuplicateSnippetEntryId("x".into()),
    ];
    let codes: Vec<&str> = all.iter().map(|e| e.code()).collect();
    for (i, a) in codes.iter().enumerate() {
        assert!(!a.is_empty() && a.chars().all(|c| c.is_ascii_lowercase() || c == '_'));
        for b in &codes[i + 1..] {
            assert_ne!(a, b);
        }
    }
    assert_eq!(ValidationError::BadSnippetEntryId("a".into()).code(), "bad_snippet_entry_id");
    assert_eq!(ValidationError::TextFontSizeOutOfRange { font_size: 3 }.code(), "text_font_size_out_of_range");
    assert_eq!(ValidationError::DocumentBothSources.code(), "document_both_sources");
}
