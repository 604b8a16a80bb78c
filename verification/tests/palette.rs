use std::collections::{HashMap, HashSet};

use pixeldraw::palette::{format_list, resolve, Color, PaletteMode};

fn assert_unique(colors: &[Color]) {
    let mut names = HashSet::new();
    let mut codes = HashSet::new();
    for color in colors {
        assert!(
            names.insert(color.name),
            "duplicate name in palette: {}",
            color.name
        );
        let code = color.code.to_ascii_uppercase();
        assert!(
            codes.insert(code.clone()),
            "duplicate code in palette: {code}"
        );
    }
}

fn series_counts(colors: &[Color]) -> HashMap<char, usize> {
    let mut counts = HashMap::new();
    for color in colors {
        let series = color
            .code
            .chars()
            .next()
            .expect("MARD codes start with a letter");
        *counts.entry(series).or_insert(0usize) += 1;
    }
    counts
}

#[test]
fn default_mode_is_221() {
    assert_eq!(PaletteMode::parse(None).unwrap(), PaletteMode::Colors221);
    assert_eq!(PaletteMode::parse(Some("")).unwrap(), PaletteMode::Colors221);
    assert_eq!(PaletteMode::parse(Some("221")).unwrap(), PaletteMode::Colors221);
    assert_eq!(PaletteMode::parse(Some("144")).unwrap(), PaletteMode::Colors144);
    assert_eq!(PaletteMode::parse(Some("24")).unwrap(), PaletteMode::Colors24);
    assert!(PaletteMode::parse(Some("96")).is_err());
    assert_eq!(PaletteMode::default(), PaletteMode::Colors221);
}

#[test]
fn names_and_codes_unique_within_each_mode() {
    assert_unique(&PaletteMode::Colors24.colors());
    assert_unique(&PaletteMode::Colors144.colors());
    assert_unique(&PaletteMode::Colors221.colors());
}

#[test]
fn colors_144_series_quotas() {
    let counts = series_counts(&PaletteMode::Colors144.colors());
    assert_eq!(counts.get(&'A'), Some(&18));
    assert_eq!(counts.get(&'B'), Some(&22));
    assert_eq!(counts.get(&'C'), Some(&20));
    assert_eq!(counts.get(&'D'), Some(&16));
    assert_eq!(counts.get(&'E'), Some(&16));
    assert_eq!(counts.get(&'F'), Some(&18));
    assert_eq!(counts.get(&'G'), Some(&14));
    assert_eq!(counts.get(&'H'), Some(&12));
    assert_eq!(counts.get(&'M'), Some(&8));
}

#[test]
fn colors_221_reuses_144_names_for_shared_codes() {
    let all = PaletteMode::Colors221.colors();
    for color in PaletteMode::Colors144.colors() {
        let found = all
            .iter()
            .find(|candidate| candidate.code == color.code)
            .unwrap_or_else(|| panic!("221 missing code {}", color.code));
        assert_eq!(found.name, color.name, "name mismatch for {}", color.code);
        assert_eq!(found.rgb, color.rgb, "rgb mismatch for {}", color.code);
    }
}

#[test]
fn resolves_in_locked_mode_only() {
    assert_eq!(resolve(PaletteMode::Colors24, "红色"), Some([0xD8, 0x01, 0x27]));
    assert_eq!(resolve(PaletteMode::Colors24, " 白色 "), Some([0xFF, 0xFF, 0xFF]));
    assert_eq!(resolve(PaletteMode::Colors144, "红色"), None);
    assert_eq!(resolve(PaletteMode::Colors221, "红色"), None);
    assert_eq!(resolve(PaletteMode::Colors144, "正红"), Some([0xE7, 0x00, 0x2F]));
    assert_eq!(resolve(PaletteMode::Colors221, "正红"), Some([0xE7, 0x00, 0x2F]));
    assert_eq!(resolve(PaletteMode::Colors221, "雪白"), Some([0xFD, 0xFB, 0xFF]));
    assert_eq!(resolve(PaletteMode::Colors144, "雪白"), None);
    assert_eq!(resolve(PaletteMode::Colors24, "正红"), None);
    assert_eq!(resolve(PaletteMode::Colors24, "鹅黄"), None);
}

#[test]
fn resolves_mard_code_in_mode() {
    assert_eq!(resolve(PaletteMode::Colors24, "H7"), Some([0, 0, 0]));
    assert_eq!(resolve(PaletteMode::Colors24, "h2"), Some([0xFF, 0xFF, 0xFF]));
    assert_eq!(resolve(PaletteMode::Colors144, "h2"), Some([0xFE, 0xFF, 0xFF]));
    assert_eq!(resolve(PaletteMode::Colors221, "h2"), Some([0xFE, 0xFF, 0xFF]));
    assert_eq!(resolve(PaletteMode::Colors221, "H1"), Some([0xFD, 0xFB, 0xFF]));
}

#[test]
fn rejects_unknown_color() {
    assert_eq!(resolve(PaletteMode::Colors221, "彩虹"), None);
    assert_eq!(resolve(PaletteMode::Colors24, ""), None);
    assert_eq!(resolve(PaletteMode::Colors221, "#FF0000"), None);
}

#[test]
fn format_list_mentions_mode_and_a_name() {
    let list_221 = format_list(PaletteMode::Colors221);
    assert!(list_221.contains("221 色模式"));
    assert!(list_221.contains("正红 F5"));
    assert!(list_221.contains("雪白 H1"));
    assert!(!list_221.contains("红色 F5"));
    let list_144 = format_list(PaletteMode::Colors144);
    assert!(list_144.contains("144 色模式"));
    assert!(list_144.contains("正红 F5"));
    assert!(!list_144.contains("红色 F5"));
    let list_24 = format_list(PaletteMode::Colors24);
    assert!(list_24.contains("24 色模式"));
    assert!(list_24.contains("红色 F5"));
}

#[test]
fn palette_sizes_and_white_bead() {
    assert_eq!(PaletteMode::Colors24.colors().len(), 24);
    assert_eq!(PaletteMode::Colors144.colors().len(), 144);
    assert_eq!(PaletteMode::Colors24.as_str(), "24");
    assert_eq!(PaletteMode::Colors144.as_str(), "144");
    assert_eq!(PaletteMode::Colors221.as_str(), "221");
    assert_eq!(PaletteMode::Colors24.white_rgb(), [0xFF, 0xFF, 0xFF]);
    assert_eq!(PaletteMode::Colors144.white_rgb(), [0xFE, 0xFF, 0xFF]);
}

#[test]
fn bad_palette_message_quotes_trimmed_input() {
    let err = PaletteMode::parse(Some(" 96 ")).unwrap_err();
    assert_eq!(err, "色表参数无效：「96」。请使用 \"24\"、\"144\" 或 \"221\"。");
    assert_eq!(PaletteMode::parse(Some("  ")).unwrap(), PaletteMode::Colors221);
    assert_eq!(PaletteMode::parse(Some(" 144\n")).unwrap(), PaletteMode::Colors144);
}

#[test]
fn list_is_heading_then_one_line_per_color() {
    let list = format_list(PaletteMode::Colors24);
    let mut lines = list.lines();
    assert_eq!(
        lines.next(),
        Some("24 色模式，共 24 色。请使用下列中文名或 MARD 色号（色号大小写不敏感）：")
    );
    assert_eq!(lines.count(), 24);
    assert!(list.ends_with('\n'));
}
