use foundry_core::fmt_config::{InlineConfig, InlineConfigItem, InvalidInlineConfigItem, Loc};

#[test]
fn reads_directive_names() {
    assert_eq!(InlineConfigItem::from_str("disable-next-item"), Ok(InlineConfigItem::DisableNextItem));
    assert_eq!(InlineConfigItem::from_str("disable-next-line"), Ok(InlineConfigItem::DisableNextLine));
    assert_eq!(InlineConfigItem::from_str("disable-start"), Ok(InlineConfigItem::DisableStart));
    assert_eq!(InlineConfigItem::from_str("disable-end"), Ok(InlineConfigItem::DisableEnd));
    assert_eq!(
        InlineConfigItem::from_str("disable"),
        Err(InvalidInlineConfigItem("disable".to_string()))
    );
}

#[test]
fn next_line_disables_the_following_line() {
    let config = InlineConfig::new(vec![(Loc { start: 0, end: 2 }, InlineConfigItem::DisableNextLine)], "x;\ny;\nz;");
    assert!(config.is_disabled(Loc { start: 3, end: 5 }));
    assert!(!config.is_disabled(Loc { start: 3, end: 6 }));
    assert!(!config.is_disabled(Loc { start: 0, end: 1 }));
}

#[test]
fn start_and_end_disable_what_lies_between() {
    let items = vec![
        (Loc { start: 5, end: 6 }, InlineConfigItem::DisableEnd),
        (Loc { start: 0, end: 1 }, InlineConfigItem::DisableStart),
    ];
    let config = InlineConfig::new(items, "abcdefgh");
    assert_eq!(config.disabled_ranges.len(), 1);
    assert!(config.is_disabled(Loc { start: 1, end: 5 }));
    assert!(!config.is_disabled(Loc { start: 1, end: 6 }));
    let open = InlineConfig::new(vec![(Loc { start: 0, end: 1 }, InlineConfigItem::DisableStart)], "abcdefgh");
    assert!(open.is_disabled(Loc { start: 2, end: 8 }));
}

#[test]
fn next_item_skips_comments_and_whitespace() {
    let config = InlineConfig::new(vec![(Loc { start: 0, end: 0 }, InlineConfigItem::DisableNextItem)], "//c\n  foo bar");
    assert_eq!(config.disabled_ranges.len(), 1);
    assert_eq!(config.disabled_ranges[0].start, 6);
    assert_eq!(config.disabled_ranges[0].end, 7);
    assert!(config.is_disabled(Loc { start: 6, end: 13 }));
    assert!(!config.is_disabled(Loc { start: 8, end: 9 }));
}
