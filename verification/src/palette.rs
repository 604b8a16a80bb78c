//! The locked MARD bead palettes and color lookup by Chinese name or code.
use vstd::prelude::*;

use crate::text::{
    chars_eq, chars_eq_ignore_ascii_case, chars_of, eq_ignore_ascii_case, push_chars, push_decimal,
    push_str, trim, trimmed_chars, decimal, lemma_trim_of_unpadded,
};

verus! {

/// One MARD bead color exposed to the drawing tools.
#[derive(Debug, Clone, Copy)]
pub struct Color {
    pub name: &'static str,
    pub code: &'static str,
    pub rgb: [u8; 3],
}

/// Palette locked onto a canvas at creation time.
#[derive(Debug, Clone, Copy, PartialEq, Eq, Structural)]
pub enum PaletteMode {
    Colors24,
    Colors144,
    Colors221,
}

impl Default for PaletteMode {
    fn default() -> (m: Self)
        ensures
            m == PaletteMode::Colors221,
    {
        PaletteMode::Colors221
    }
}

/// 24-color mode. Names, codes, and RGB stay as originally shipped.
pub open spec fn palette_24() -> Seq<Color> {
    seq![
        Color { name: "白色", code: "H2", rgb: [0xFF, 0xFF, 0xFF] },
        Color { name: "浅灰", code: "H3", rgb: [0xB3, 0xB3, 0xB3] },
        Color { name: "灰色", code: "H4", rgb: [0x86, 0x86, 0x86] },
        Color { name: "黑色", code: "H7", rgb: [0x00, 0x00, 0x00] },
        Color { name: "黄色", code: "A4", rgb: [0xFF, 0xE9, 0x53] },
        Color { name: "橙色", code: "A6", rgb: [0xFD, 0xAD, 0x49] },
        Color { name: "深橙", code: "A7", rgb: [0xFF, 0x7C, 0x2F] },
        Color { name: "红色", code: "F5", rgb: [0xD8, 0x01, 0x27] },
        Color { name: "亮红", code: "F2", rgb: [0xFC, 0x3D, 0x45] },
        Color { name: "粉色", code: "E6", rgb: [0xFF, 0x34, 0x6B] },
        Color { name: "肤色", code: "E11", rgb: [0xFC, 0xDD, 0xD2] },
        Color { name: "浅肤", code: "E16", rgb: [0xFF, 0xEC, 0xDE] },
        Color { name: "棕色", code: "G8", rgb: [0x59, 0x2A, 0x21] },
        Color { name: "浅棕", code: "G13", rgb: [0xB7, 0x71, 0x4A] },
        Color { name: "绿色", code: "B5", rgb: [0x00, 0xBD, 0x35] },
        Color { name: "深绿", code: "B8", rgb: [0x02, 0x9D, 0x26] },
        Color { name: "亮绿", code: "B2", rgb: [0x5B, 0xE4, 0x19] },
        Color { name: "天蓝", code: "C4", rgb: [0x42, 0xCC, 0xFF] },
        Color { name: "蓝色", code: "C8", rgb: [0x10, 0x54, 0xC0] },
        Color { name: "深蓝", code: "C12", rgb: [0x1C, 0x33, 0x4D] },
        Color { name: "青色", code: "C11", rgb: [0x03, 0xB9, 0xB9] },
        Color { name: "紫色", code: "D7", rgb: [0x6E, 0x39, 0x9A] },
        Color { name: "品红", code: "D13", rgb: [0xB9, 0x02, 0x95] },
        Color { name: "暗红", code: "F11", rgb: [0x6F, 0x20, 0x1F] },
    ]
}

/// 144-color mode. HEX from the Pixelbead 2026 MARD chart; names are
/// independent of the 24-color mode.
pub open spec fn palette_144() -> Seq<Color> {
    seq![
        Color { name: "奶黄", code: "A1", rgb: [0xFA, 0xF4, 0xC8] },
        Color { name: "浅柠", code: "A3", rgb: [0xFE, 0xFF, 0x8B] },
        Color { name: "鹅黄", code: "A4", rgb: [0xFB, 0xED, 0x56] },
        Color { name: "正黄", code: "A5", rgb: [0xF4, 0xD7, 0x38] },
        Color { name: "杏橙", code: "A6", rgb: [0xFE, 0xAC, 0x4C] },
        Color { name: "橘橙", code: "A7", rgb: [0xFE, 0x8B, 0x4C] },
        Color { name: "金黄", code: "A8", rgb: [0xFF, 0xDA, 0x45] },
        Color { name: "蜜橙", code: "A9", rgb: [0xFF, 0x99, 0x5B] },
        Color { name: "柿橙", code: "A10", rgb: [0xF7, 0x7C, 0x31] },
        Color { name: "浅杏", code: "A11", rgb: [0xFF, 0xDD, 0x99] },
        Color { name: "肉橙", code: "A12", rgb: [0xFE, 0x9F, 0x72] },
        Color { name: "琥珀", code: "A13", rgb: [0xFF, 0xC3, 0x65] },
        Color { name: "橘红", code: "A14", rgb: [0xFD, 0x54, 0x3D] },
        Color { name: "亮柠", code: "A15", rgb: [0xFF, 0xF3, 0x65] },
        Color { name: "麦黄", code: "A17", rgb: [0xFF, 0xE3, 0x6E] },
        Color { name: "浅橘", code: "A18", rgb: [0xFE, 0xBE, 0x7D] },
        Color { name: "珊瑚", code: "A19", rgb: [0xFD, 0x7C, 0x72] },
        Color { name: "菊黄", code: "A26", rgb: [0xFF, 0xC8, 0x30] },
        Color { name: "黄绿", code: "B1", rgb: [0xE6, 0xEE, 0x31] },
        Color { name: "荧光绿", code: "B2", rgb: [0x63, 0xF3, 0x47] },
        Color { name: "嫩绿", code: "B3", rgb: [0x9E, 0xF7, 0x80] },
        Color { name: "鲜绿", code: "B4", rgb: [0x5D, 0xE0, 0x35] },
        Color { name: "草绿", code: "B5", rgb: [0x35, 0xE3, 0x52] },
        Color { name: "薄荷", code: "B6", rgb: [0x65, 0xE2, 0xA6] },
        Color { name: "翠绿", code: "B7", rgb: [0x3D, 0xAF, 0x80] },
        Color { name: "正绿", code: "B8", rgb: [0x1C, 0x9C, 0x4F] },
        Color { name: "墨绿", code: "B9", rgb: [0x27, 0x52, 0x3A] },
        Color { name: "水绿", code: "B10", rgb: [0x95, 0xD3, 0xC2] },
        Color { name: "军绿", code: "B11", rgb: [0x5D, 0x72, 0x2A] },
        Color { name: "森绿", code: "B12", rgb: [0x16, 0x6F, 0x41] },
        Color { name: "芽绿", code: "B13", rgb: [0xCA, 0xEB, 0x7B] },
        Color { name: "叶绿", code: "B14", rgb: [0xAD, 0xE9, 0x46] },
        Color { name: "暗绿", code: "B15", rgb: [0x2E, 0x51, 0x32] },
        Color { name: "橄榄绿", code: "B17", rgb: [0x9B, 0xB1, 0x3A] },
        Color { name: "青绿", code: "B19", rgb: [0x24, 0xB8, 0x8C] },
        Color { name: "松绿", code: "B21", rgb: [0x15, 0x6A, 0x6B] },
        Color { name: "深松", code: "B22", rgb: [0x0B, 0x3C, 0x43] },
        Color { name: "褐绿", code: "B23", rgb: [0x30, 0x3A, 0x21] },
        Color { name: "苔绿", code: "B25", rgb: [0x4E, 0x84, 0x6D] },
        Color { name: "茶绿", code: "B32", rgb: [0x9C, 0xAB, 0x5A] },
        Color { name: "冰青", code: "C2", rgb: [0xA9, 0xF9, 0xFC] },
        Color { name: "浅青", code: "C3", rgb: [0xA0, 0xE2, 0xFB] },
        Color { name: "天蓝", code: "C4", rgb: [0x41, 0xCC, 0xFF] },
        Color { name: "湖蓝", code: "C5", rgb: [0x01, 0xAC, 0xEB] },
        Color { name: "亮蓝", code: "C6", rgb: [0x50, 0xAA, 0xF0] },
        Color { name: "钴蓝", code: "C7", rgb: [0x36, 0x77, 0xD2] },
        Color { name: "正蓝", code: "C8", rgb: [0x0F, 0x54, 0xC0] },
        Color { name: "宝蓝", code: "C9", rgb: [0x32, 0x4B, 0xCA] },
        Color { name: "碧青", code: "C11", rgb: [0x28, 0xDD, 0xDE] },
        Color { name: "海军", code: "C12", rgb: [0x1C, 0x33, 0x4D] },
        Color { name: "雾蓝", code: "C13", rgb: [0xCD, 0xE8, 0xFF] },
        Color { name: "玉青", code: "C15", rgb: [0x22, 0xC4, 0xC6] },
        Color { name: "靛蓝", code: "C16", rgb: [0x15, 0x57, 0xA8] },
        Color { name: "墨蓝", code: "C18", rgb: [0x1D, 0x33, 0x44] },
        Color { name: "孔雀", code: "C19", rgb: [0x18, 0x87, 0xA2] },
        Color { name: "海蓝", code: "C20", rgb: [0x17, 0x6D, 0xAF] },
        Color { name: "灰青", code: "C22", rgb: [0x67, 0xB4, 0xBE] },
        Color { name: "晴空", code: "C24", rgb: [0x7C, 0xC4, 0xFF] },
        Color { name: "矢车菊", code: "C26", rgb: [0x3C, 0xAE, 0xD8] },
        Color { name: "群青", code: "C29", rgb: [0x34, 0x48, 0x8E] },
        Color { name: "浅紫", code: "D1", rgb: [0xAE, 0xB4, 0xF2] },
        Color { name: "薰衣草", code: "D2", rgb: [0x85, 0x8E, 0xDD] },
        Color { name: "蓝紫", code: "D3", rgb: [0x2F, 0x54, 0xAF] },
        Color { name: "深紫", code: "D4", rgb: [0x18, 0x2A, 0x84] },
        Color { name: "亮紫", code: "D5", rgb: [0xB8, 0x43, 0xC5] },
        Color { name: "丁香", code: "D6", rgb: [0xAC, 0x7B, 0xDE] },
        Color { name: "葡萄紫", code: "D7", rgb: [0x88, 0x54, 0xB3] },
        Color { name: "淡紫", code: "D8", rgb: [0xE2, 0xD3, 0xFF] },
        Color { name: "暗紫", code: "D10", rgb: [0x36, 0x18, 0x51] },
        Color { name: "粉紫", code: "D12", rgb: [0xDE, 0x9A, 0xD4] },
        Color { name: "洋红", code: "D13", rgb: [0xB9, 0x00, 0x95] },
        Color { name: "兰紫", code: "D14", rgb: [0x8B, 0x27, 0x9B] },
        Color { name: "靛紫", code: "D15", rgb: [0x2F, 0x1F, 0x90] },
        Color { name: "紫藤", code: "D18", rgb: [0xA4, 0x5E, 0xC7] },
        Color { name: "玫紫", code: "D21", rgb: [0x9A, 0x00, 0x9B] },
        Color { name: "鸢尾", code: "D25", rgb: [0x49, 0x4F, 0xC7] },
        Color { name: "裸粉", code: "E1", rgb: [0xFD, 0xD3, 0xCC] },
        Color { name: "桃粉", code: "E4", rgb: [0xE8, 0x64, 0x9E] },
        Color { name: "亮粉", code: "E5", rgb: [0xF5, 0x51, 0xA2] },
        Color { name: "玫红", code: "E6", rgb: [0xF1, 0x3D, 0x74] },
        Color { name: "深粉", code: "E7", rgb: [0xC6, 0x34, 0x78] },
        Color { name: "兰粉", code: "E9", rgb: [0xE9, 0x70, 0xCC] },
        Color { name: "紫粉", code: "E10", rgb: [0xD3, 0x37, 0x93] },
        Color { name: "暖肤", code: "E11", rgb: [0xFC, 0xDD, 0xD2] },
        Color { name: "浅玫", code: "E12", rgb: [0xF7, 0x8F, 0xC3] },
        Color { name: "绛粉", code: "E13", rgb: [0xB5, 0x00, 0x6D] },
        Color { name: "蜜肤", code: "E14", rgb: [0xFF, 0xD1, 0xBA] },
        Color { name: "瓷肤", code: "E16", rgb: [0xFF, 0xF3, 0xEB] },
        Color { name: "樱粉", code: "E18", rgb: [0xFF, 0xC7, 0xDB] },
        Color { name: "灰粉", code: "E21", rgb: [0xBD, 0x9D, 0xA1] },
        Color { name: "藕紫", code: "E22", rgb: [0xB7, 0x85, 0xA1] },
        Color { name: "浅藕", code: "E24", rgb: [0xE1, 0xBC, 0xE8] },
        Color { name: "鲑红", code: "F1", rgb: [0xFD, 0x95, 0x7B] },
        Color { name: "鲜红", code: "F2", rgb: [0xFC, 0x3D, 0x46] },
        Color { name: "朱红", code: "F3", rgb: [0xF7, 0x49, 0x41] },
        Color { name: "艳红", code: "F4", rgb: [0xFC, 0x28, 0x3C] },
        Color { name: "正红", code: "F5", rgb: [0xE7, 0x00, 0x2F] },
        Color { name: "砖红", code: "F6", rgb: [0x94, 0x36, 0x30] },
        Color { name: "绛红", code: "F7", rgb: [0x97, 0x19, 0x37] },
        Color { name: "深红", code: "F8", rgb: [0xBC, 0x00, 0x28] },
        Color { name: "蔷薇", code: "F9", rgb: [0xE2, 0x67, 0x7A] },
        Color { name: "赭石", code: "F10", rgb: [0x8A, 0x45, 0x26] },
        Color { name: "褐红", code: "F11", rgb: [0x5A, 0x21, 0x21] },
        Color { name: "西瓜", code: "F12", rgb: [0xFD, 0x4E, 0x6A] },
        Color { name: "橘绯", code: "F13", rgb: [0xF3, 0x57, 0x44] },
        Color { name: "浅鲑", code: "F14", rgb: [0xFF, 0xA9, 0xAD] },
        Color { name: "血红", code: "F15", rgb: [0xD3, 0x00, 0x22] },
        Color { name: "陶土", code: "F17", rgb: [0xE6, 0x9C, 0x79] },
        Color { name: "锈红", code: "F19", rgb: [0xC1, 0x44, 0x4A] },
        Color { name: "番茄", code: "F25", rgb: [0xE5, 0x4B, 0x4F] },
        Color { name: "浅杏肤", code: "G1", rgb: [0xFF, 0xE2, 0xCE] },
        Color { name: "桃肤", code: "G2", rgb: [0xFF, 0xC4, 0xAA] },
        Color { name: "暖杏", code: "G3", rgb: [0xF4, 0xC3, 0xA5] },
        Color { name: "浅咖", code: "G4", rgb: [0xE1, 0xB3, 0x83] },
        Color { name: "姜黄", code: "G6", rgb: [0xE9, 0x9C, 0x17] },
        Color { name: "可可", code: "G7", rgb: [0x9D, 0x5B, 0x3E] },
        Color { name: "深棕", code: "G8", rgb: [0x75, 0x38, 0x32] },
        Color { name: "金棕", code: "G10", rgb: [0xD9, 0x8C, 0x39] },
        Color { name: "驼棕", code: "G13", rgb: [0xB7, 0x71, 0x4A] },
        Color { name: "灰棕", code: "G14", rgb: [0x8D, 0x61, 0x4C] },
        Color { name: "米棕", code: "G16", rgb: [0xF2, 0xD9, 0xBA] },
        Color { name: "咖啡", code: "G17", rgb: [0x78, 0x52, 0x4B] },
        Color { name: "铜棕", code: "G19", rgb: [0xE0, 0x79, 0x35] },
        Color { name: "赤棕", code: "G20", rgb: [0xA9, 0x40, 0x23] },
        Color { name: "纯白", code: "H2", rgb: [0xFE, 0xFF, 0xFF] },
        Color { name: "银灰", code: "H3", rgb: [0xB6, 0xB1, 0xBA] },
        Color { name: "中灰", code: "H4", rgb: [0x89, 0x85, 0x8C] },
        Color { name: "深灰", code: "H5", rgb: [0x48, 0x46, 0x4E] },
        Color { name: "炭黑", code: "H6", rgb: [0x2F, 0x2B, 0x2F] },
        Color { name: "纯黑", code: "H7", rgb: [0x00, 0x00, 0x00] },
        Color { name: "雾白", code: "H9", rgb: [0xED, 0xED, 0xED] },
        Color { name: "暖白", code: "H12", rgb: [0xFF, 0xF5, 0xED] },
        Color { name: "米白", code: "H13", rgb: [0xF5, 0xEC, 0xD2] },
        Color { name: "青灰", code: "H15", rgb: [0x98, 0xA6, 0xA8] },
        Color { name: "褐黑", code: "H16", rgb: [0x1D, 0x14, 0x14] },
        Color { name: "鼠灰", code: "H20", rgb: [0x94, 0x9F, 0xA3] },
        Color { name: "灰绿", code: "M1", rgb: [0xBC, 0xC6, 0xB8] },
        Color { name: "鼠绿", code: "M2", rgb: [0x8A, 0xA3, 0x86] },
        Color { name: "卡其", code: "M4", rgb: [0xE3, 0xD2, 0xBC] },
        Color { name: "橄榄灰", code: "M6", rgb: [0xB0, 0xA7, 0x82] },
        Color { name: "沙褐", code: "M9", rgb: [0xA5, 0x87, 0x67] },
        Color { name: "灰褐", code: "M12", rgb: [0x64, 0x47, 0x49] },
        Color { name: "肉桂", code: "M13", rgb: [0xD1, 0x90, 0x66] },
        Color { name: "赤陶", code: "M14", rgb: [0xC7, 0x73, 0x62] },
    ]
}

/// Position of `H1` in the mode labelled 221: just before `H2`.
pub open spec fn snow_white_index() -> int {
    124
}

/// The `H1` bead, present in the mode labelled 221 only.
pub open spec fn snow_white() -> Color {
    Color { name: "雪白", code: "H1", rgb: [0xFD, 0xFB, 0xFF] }
}

/// The mode labelled 221 holds 145 colors: every 144-mode bead under the same
/// name and RGB, plus `H1`. The other beads of the full 221-color MARD set are
/// not in this table, so that mode is incomplete.
pub open spec fn palette_221() -> Seq<Color> {
    palette_144().insert(snow_white_index(), snow_white())
}

/// The colors of a mode, in palette order.
pub open spec fn palette(mode: PaletteMode) -> Seq<Color> {
    match mode {
        PaletteMode::Colors24 => palette_24(),
        PaletteMode::Colors144 => palette_144(),
        PaletteMode::Colors221 => palette_221(),
    }
}

fn colors_24() -> (v: Vec<Color>)
    ensures
        v@ == palette_24(),
{
    let v = vec![
        Color { name: "白色", code: "H2", rgb: [0xFF, 0xFF, 0xFF] },
        Color { name: "浅灰", code: "H3", rgb: [0xB3, 0xB3, 0xB3] },
        Color { name: "灰色", code: "H4", rgb: [0x86, 0x86, 0x86] },
        Color { name: "黑色", code: "H7", rgb: [0x00, 0x00, 0x00] },
        Color { name: "黄色", code: "A4", rgb: [0xFF, 0xE9, 0x53] },
        Color { name: "橙色", code: "A6", rgb: [0xFD, 0xAD, 0x49] },
        Color { name: "深橙", code: "A7", rgb: [0xFF, 0x7C, 0x2F] },
        Color { name: "红色", code: "F5", rgb: [0xD8, 0x01, 0x27] },
        Color { name: "亮红", code: "F2", rgb: [0xFC, 0x3D, 0x45] },
        Color { name: "粉色", code: "E6", rgb: [0xFF, 0x34, 0x6B] },
        Color { name: "肤色", code: "E11", rgb: [0xFC, 0xDD, 0xD2] },
        Color { name: "浅肤", code: "E16", rgb: [0xFF, 0xEC, 0xDE] },
        Color { name: "棕色", code: "G8", rgb: [0x59, 0x2A, 0x21] },
        Color { name: "浅棕", code: "G13", rgb: [0xB7, 0x71, 0x4A] },
        Color { name: "绿色", code: "B5", rgb: [0x00, 0xBD, 0x35] },
        Color { name: "深绿", code: "B8", rgb: [0x02, 0x9D, 0x26] },
        Color { name: "亮绿", code: "B2", rgb: [0x5B, 0xE4, 0x19] },
        Color { name: "天蓝", code: "C4", rgb: [0x42, 0xCC, 0xFF] },
        Color { name: "蓝色", code: "C8", rgb: [0x10, 0x54, 0xC0] },
        Color { name: "深蓝", code: "C12", rgb: [0x1C, 0x33, 0x4D] },
        Color { name: "青色", code: "C11", rgb: [0x03, 0xB9, 0xB9] },
        Color { name: "紫色", code: "D7", rgb: [0x6E, 0x39, 0x9A] },
        Color { name: "品红", code: "D13", rgb: [0xB9, 0x02, 0x95] },
        Color { name: "暗红", code: "F11", rgb: [0x6F, 0x20, 0x1F] },
    ];
    assert(v@ =~= palette_24());
    v
}

fn colors_144() -> (v: Vec<Color>)
    ensures
        v@ == palette_144(),
{
    let v = vec![
        Color { name: "奶黄", code: "A1", rgb: [0xFA, 0xF4, 0xC8] },
        Color { name: "浅柠", code: "A3", rgb: [0xFE, 0xFF, 0x8B] },
        Color { name: "鹅黄", code: "A4", rgb: [0xFB, 0xED, 0x56] },
        Color { name: "正黄", code: "A5", rgb: [0xF4, 0xD7, 0x38] },
        Color { name: "杏橙", code: "A6", rgb: [0xFE, 0xAC, 0x4C] },
        Color { name: "橘橙", code: "A7", rgb: [0xFE, 0x8B, 0x4C] },
        Color { name: "金黄", code: "A8", rgb: [0xFF, 0xDA, 0x45] },
        Color { name: "蜜橙", code: "A9", rgb: [0xFF, 0x99, 0x5B] },
        Color { name: "柿橙", code: "A10", rgb: [0xF7, 0x7C, 0x31] },
        Color { name: "浅杏", code: "A11", rgb: [0xFF, 0xDD, 0x99] },
        Color { name: "肉橙", code: "A12", rgb: [0xFE, 0x9F, 0x72] },
        Color { name: "琥珀", code: "A13", rgb: [0xFF, 0xC3, 0x65] },
        Color { name: "橘红", code: "A14", rgb: [0xFD, 0x54, 0x3D] },
        Color { name: "亮柠", code: "A15", rgb: [0xFF, 0xF3, 0x65] },
        Color { name: "麦黄", code: "A17", rgb: [0xFF, 0xE3, 0x6E] },
        Color { name: "浅橘", code: "A18", rgb: [0xFE, 0xBE, 0x7D] },
        Color { name: "珊瑚", code: "A19", rgb: [0xFD, 0x7C, 0x72] },
        Color { name: "菊黄", code: "A26", rgb: [0xFF, 0xC8, 0x30] },
        Color { name: "黄绿", code: "B1", rgb: [0xE6, 0xEE, 0x31] },
        Color { name: "荧光绿", code: "B2", rgb: [0x63, 0xF3, 0x47] },
        Color { name: "嫩绿", code: "B3", rgb: [0x9E, 0xF7, 0x80] },
        Color { name: "鲜绿", code: "B4", rgb: [0x5D, 0xE0, 0x35] },
        Color { name: "草绿", code: "B5", rgb: [0x35, 0xE3, 0x52] },
        Color { name: "薄荷", code: "B6", rgb: [0x65, 0xE2, 0xA6] },
        Color { name: "翠绿", code: "B7", rgb: [0x3D, 0xAF, 0x80] },
        Color { name: "正绿", code: "B8", rgb: [0x1C, 0x9C, 0x4F] },
        Color { name: "墨绿", code: "B9", rgb: [0x27, 0x52, 0x3A] },
        Color { name: "水绿", code: "B10", rgb: [0x95, 0xD3, 0xC2] },
        Color { name: "军绿", code: "B11", rgb: [0x5D, 0x72, 0x2A] },
        Color { name: "森绿", code: "B12", rgb: [0x16, 0x6F, 0x41] },
        Color { name: "芽绿", code: "B13", rgb: [0xCA, 0xEB, 0x7B] },
        Color { name: "叶绿", code: "B14", rgb: [0xAD, 0xE9, 0x46] },
        Color { name: "暗绿", code: "B15", rgb: [0x2E, 0x51, 0x32] },
        Color { name: "橄榄绿", code: "B17", rgb: [0x9B, 0xB1, 0x3A] },
        Color { name: "青绿", code: "B19", rgb: [0x24, 0xB8, 0x8C] },
        Color { name: "松绿", code: "B21", rgb: [0x15, 0x6A, 0x6B] },
        Color { name: "深松", code: "B22", rgb: [0x0B, 0x3C, 0x43] },
        Color { name: "褐绿", code: "B23", rgb: [0x30, 0x3A, 0x21] },
        Color { name: "苔绿", code: "B25", rgb: [0x4E, 0x84, 0x6D] },
        Color { name: "茶绿", code: "B32", rgb: [0x9C, 0xAB, 0x5A] },
        Color { name: "冰青", code: "C2", rgb: [0xA9, 0xF9, 0xFC] },
        Color { name: "浅青", code: "C3", rgb: [0xA0, 0xE2, 0xFB] },
        Color { name: "天蓝", code: "C4", rgb: [0x41, 0xCC, 0xFF] },
        Color { name: "湖蓝", code: "C5", rgb: [0x01, 0xAC, 0xEB] },
        Color { name: "亮蓝", code: "C6", rgb: [0x50, 0xAA, 0xF0] },
        Color { name: "钴蓝", code: "C7", rgb: [0x36, 0x77, 0xD2] },
        Color { name: "正蓝", code: "C8", rgb: [0x0F, 0x54, 0xC0] },
        Color { name: "宝蓝", code: "C9", rgb: [0x32, 0x4B, 0xCA] },
        Color { name: "碧青", code: "C11", rgb: [0x28, 0xDD, 0xDE] },
        Color { name: "海军", code: "C12", rgb: [0x1C, 0x33, 0x4D] },
        Color { name: "雾蓝", code: "C13", rgb: [0xCD, 0xE8, 0xFF] },
        Color { name: "玉青", code: "C15", rgb: [0x22, 0xC4, 0xC6] },
        Color { name: "靛蓝", code: "C16", rgb: [0x15, 0x57, 0xA8] },
        Color { name: "墨蓝", code: "C18", rgb: [0x1D, 0x33, 0x44] },
        Color { name: "孔雀", code: "C19", rgb: [0x18, 0x87, 0xA2] },
        Color { name: "海蓝", code: "C20", rgb: [0x17, 0x6D, 0xAF] },
        Color { name: "灰青", code: "C22", rgb: [0x67, 0xB4, 0xBE] },
        Color { name: "晴空", code: "C24", rgb: [0x7C, 0xC4, 0xFF] },
        Color { name: "矢车菊", code: "C26", rgb: [0x3C, 0xAE, 0xD8] },
        Color { name: "群青", code: "C29", rgb: [0x34, 0x48, 0x8E] },
        Color { name: "浅紫", code: "D1", rgb: [0xAE, 0xB4, 0xF2] },
        Color { name: "薰衣草", code: "D2", rgb: [0x85, 0x8E, 0xDD] },
        Color { name: "蓝紫", code: "D3", rgb: [0x2F, 0x54, 0xAF] },
        Color { name: "深紫", code: "D4", rgb: [0x18, 0x2A, 0x84] },
        Color { name: "亮紫", code: "D5", rgb: [0xB8, 0x43, 0xC5] },
        Color { name: "丁香", code: "D6", rgb: [0xAC, 0x7B, 0xDE] },
        Color { name: "葡萄紫", code: "D7", rgb: [0x88, 0x54, 0xB3] },
        Color { name: "淡紫", code: "D8", rgb: [0xE2, 0xD3, 0xFF] },
        Color { name: "暗紫", code: "D10", rgb: [0x36, 0x18, 0x51] },
        Color { name: "粉紫", code: "D12", rgb: [0xDE, 0x9A, 0xD4] },
        Color { name: "洋红", code: "D13", rgb: [0xB9, 0x00, 0x95] },
        Color { name: "兰紫", code: "D14", rgb: [0x8B, 0x27, 0x9B] },
        Color { name: "靛紫", code: "D15", rgb: [0x2F, 0x1F, 0x90] },
        Color { name: "紫藤", code: "D18", rgb: [0xA4, 0x5E, 0xC7] },
        Color { name: "玫紫", code: "D21", rgb: [0x9A, 0x00, 0x9B] },
        Color { name: "鸢尾", code: "D25", rgb: [0x49, 0x4F, 0xC7] },
        Color { name: "裸粉", code: "E1", rgb: [0xFD, 0xD3, 0xCC] },
        Color { name: "桃粉", code: "E4", rgb: [0xE8, 0x64, 0x9E] },
        Color { name: "亮粉", code: "E5", rgb: [0xF5, 0x51, 0xA2] },
        Color { name: "玫红", code: "E6", rgb: [0xF1, 0x3D, 0x74] },
        Color { name: "深粉", code: "E7", rgb: [0xC6, 0x34, 0x78] },
        Color { name: "兰粉", code: "E9", rgb: [0xE9, 0x70, 0xCC] },
        Color { name: "紫粉", code: "E10", rgb: [0xD3, 0x37, 0x93] },
        Color { name: "暖肤", code: "E11", rgb: [0xFC, 0xDD, 0xD2] },
        Color { name: "浅玫", code: "E12", rgb: [0xF7, 0x8F, 0xC3] },
        Color { name: "绛粉", code: "E13", rgb: [0xB5, 0x00, 0x6D] },
        Color { name: "蜜肤", code: "E14", rgb: [0xFF, 0xD1, 0xBA] },
        Color { name: "瓷肤", code: "E16", rgb: [0xFF, 0xF3, 0xEB] },
        Color { name: "樱粉", code: "E18", rgb: [0xFF, 0xC7, 0xDB] },
        Color { name: "灰粉", code: "E21", rgb: [0xBD, 0x9D, 0xA1] },
        Color { name: "藕紫", code: "E22", rgb: [0xB7, 0x85, 0xA1] },
        Color { name: "浅藕", code: "E24", rgb: [0xE1, 0xBC, 0xE8] },
        Color { name: "鲑红", code: "F1", rgb: [0xFD, 0x95, 0x7B] },
        Color { name: "鲜红", code: "F2", rgb: [0xFC, 0x3D, 0x46] },
        Color { name: "朱红", code: "F3", rgb: [0xF7, 0x49, 0x41] },
        Color { name: "艳红", code: "F4", rgb: [0xFC, 0x28, 0x3C] },
        Color { name: "正红", code: "F5", rgb: [0xE7, 0x00, 0x2F] },
        Color { name: "砖红", code: "F6", rgb: [0x94, 0x36, 0x30] },
        Color { name: "绛红", code: "F7", rgb: [0x97, 0x19, 0x37] },
        Color { name: "深红", code: "F8", rgb: [0xBC, 0x00, 0x28] },
        Color { name: "蔷薇", code: "F9", rgb: [0xE2, 0x67, 0x7A] },
        Color { name: "赭石", code: "F10", rgb: [0x8A, 0x45, 0x26] },
        Color { name: "褐红", code: "F11", rgb: [0x5A, 0x21, 0x21] },
        Color { name: "西瓜", code: "F12", rgb: [0xFD, 0x4E, 0x6A] },
        Color { name: "橘绯", code: "F13", rgb: [0xF3, 0x57, 0x44] },
        Color { name: "浅鲑", code: "F14", rgb: [0xFF, 0xA9, 0xAD] },
        Color { name: "血红", code: "F15", rgb: [0xD3, 0x00, 0x22] },
        Color { name: "陶土", code: "F17", rgb: [0xE6, 0x9C, 0x79] },
        Color { name: "锈红", code: "F19", rgb: [0xC1, 0x44, 0x4A] },
        Color { name: "番茄", code: "F25", rgb: [0xE5, 0x4B, 0x4F] },
        Color { name: "浅杏肤", code: "G1", rgb: [0xFF, 0xE2, 0xCE] },
        Color { name: "桃肤", code: "G2", rgb: [0xFF, 0xC4, 0xAA] },
        Color { name: "暖杏", code: "G3", rgb: [0xF4, 0xC3, 0xA5] },
        Color { name: "浅咖", code: "G4", rgb: [0xE1, 0xB3, 0x83] },
        Color { name: "姜黄", code: "G6", rgb: [0xE9, 0x9C, 0x17] },
        Color { name: "可可", code: "G7", rgb: [0x9D, 0x5B, 0x3E] },
        Color { name: "深棕", code: "G8", rgb: [0x75, 0x38, 0x32] },
        Color { name: "金棕", code: "G10", rgb: [0xD9, 0x8C, 0x39] },
        Color { name: "驼棕", code: "G13", rgb: [0xB7, 0x71, 0x4A] },
        Color { name: "灰棕", code: "G14", rgb: [0x8D, 0x61, 0x4C] },
        Color { name: "米棕", code: "G16", rgb: [0xF2, 0xD9, 0xBA] },
        Color { name: "咖啡", code: "G17", rgb: [0x78, 0x52, 0x4B] },
        Color { name: "铜棕", code: "G19", rgb: [0xE0, 0x79, 0x35] },
        Color { name: "赤棕", code: "G20", rgb: [0xA9, 0x40, 0x23] },
        Color { name: "纯白", code: "H2", rgb: [0xFE, 0xFF, 0xFF] },
        Color { name: "银灰", code: "H3", rgb: [0xB6, 0xB1, 0xBA] },
        Color { name: "中灰", code: "H4", rgb: [0x89, 0x85, 0x8C] },
        Color { name: "深灰", code: "H5", rgb: [0x48, 0x46, 0x4E] },
        Color { name: "炭黑", code: "H6", rgb: [0x2F, 0x2B, 0x2F] },
        Color { name: "纯黑", code: "H7", rgb: [0x00, 0x00, 0x00] },
        Color { name: "雾白", code: "H9", rgb: [0xED, 0xED, 0xED] },
        Color { name: "暖白", code: "H12", rgb: [0xFF, 0xF5, 0xED] },
        Color { name: "米白", code: "H13", rgb: [0xF5, 0xEC, 0xD2] },
        Color { name: "青灰", code: "H15", rgb: [0x98, 0xA6, 0xA8] },
        Color { name: "褐黑", code: "H16", rgb: [0x1D, 0x14, 0x14] },
        Color { name: "鼠灰", code: "H20", rgb: [0x94, 0x9F, 0xA3] },
        Color { name: "灰绿", code: "M1", rgb: [0xBC, 0xC6, 0xB8] },
        Color { name: "鼠绿", code: "M2", rgb: [0x8A, 0xA3, 0x86] },
        Color { name: "卡其", code: "M4", rgb: [0xE3, 0xD2, 0xBC] },
        Color { name: "橄榄灰", code: "M6", rgb: [0xB0, 0xA7, 0x82] },
        Color { name: "沙褐", code: "M9", rgb: [0xA5, 0x87, 0x67] },
        Color { name: "灰褐", code: "M12", rgb: [0x64, 0x47, 0x49] },
        Color { name: "肉桂", code: "M13", rgb: [0xD1, 0x90, 0x66] },
        Color { name: "赤陶", code: "M14", rgb: [0xC7, 0x73, 0x62] },
    ];
    assert(v@ =~= palette_144());
    v
}

fn colors_221() -> (v: Vec<Color>)
    ensures
        v@ == palette_221(),
{
    let mut v = colors_144();
    v.insert(124, Color { name: "雪白", code: "H1", rgb: [0xFD, 0xFB, 0xFF] });
    v
}

/// The label of a mode: `"24"`, `"144"` or `"221"`.
pub open spec fn mode_str(mode: PaletteMode) -> &'static str {
    match mode {
        PaletteMode::Colors24 => "24",
        PaletteMode::Colors144 => "144",
        PaletteMode::Colors221 => "221",
    }
}

/// A mode's own name parses back to that mode.
pub proof fn law_mode_name_round_trip(m: PaletteMode)
    ensures
        parse_mode(Some(mode_str(m)@)) == Ok::<PaletteMode, Seq<char>>(m),
{
    reveal_strlit("24");
    reveal_strlit("144");
    reveal_strlit("221");
    lemma_trim_of_unpadded(mode_str(m)@);
}

/// The text of an optional string slice.
pub open spec fn opt_text(input: Option<&str>) -> Option<Seq<char>> {
    match input {
        Some(s) => Some(s@),
        None => None,
    }
}

/// The message for a palette argument that names no mode.
pub open spec fn bad_mode_message(t: Seq<char>) -> Seq<char> {
    "色表参数无效：「"@ + t + "」。请使用 \"24\"、\"144\" 或 \"221\"。"@
}

/// Palette selection: missing or blank input means 221; otherwise the
/// trimmed text must be exactly `24`, `144` or `221`.
pub open spec fn parse_mode(input: Option<Seq<char>>) -> Result<PaletteMode, Seq<char>> {
    match input {
        None => Ok(PaletteMode::Colors221),
        Some(s) => {
            let t = trim(s);
            if t.len() == 0 {
                Ok(PaletteMode::Colors221)
            } else if t == "24"@ {
                Ok(PaletteMode::Colors24)
            } else if t == "144"@ {
                Ok(PaletteMode::Colors144)
            } else if t == "221"@ {
                Ok(PaletteMode::Colors221)
            } else {
                Err(bad_mode_message(t))
            }
        },
    }
}

/// A color answers to a query by its exact name or by its code, ignoring ASCII case.
pub open spec fn color_matches(c: Color, t: Seq<char>) -> bool {
    c.name@ == t || eq_ignore_ascii_case(c.code@, t)
}

/// The first color at or after `i` that answers to `t`.
pub open spec fn find_color(cs: Seq<Color>, t: Seq<char>, i: int) -> Option<int>
    decreases cs.len() - i,
{
    if 0 <= i < cs.len() {
        if color_matches(cs[i], t) {
            Some(i)
        } else {
            find_color(cs, t, i + 1)
        }
    } else {
        None
    }
}

/// Position in the mode's palette of the color that `input` names, once trimmed.
pub open spec fn color_index(mode: PaletteMode, input: Seq<char>) -> Option<int> {
    let t = trim(input);
    if t.len() == 0 {
        None
    } else {
        find_color(palette(mode), t, 0)
    }
}

/// The RGB that `input` names in the locked palette, if any.
pub open spec fn resolve_spec(mode: PaletteMode, input: Seq<char>) -> Option<[u8; 3]> {
    match color_index(mode, input) {
        Some(i) => Some(palette(mode)[i].rgb),
        None => None,
    }
}

/// One line per color: name, a space, code.
pub open spec fn color_lines(cs: Seq<Color>) -> Seq<char>
    decreases cs.len(),
{
    if cs.len() == 0 {
        Seq::empty()
    } else {
        color_lines(cs.drop_last()) + cs.last().name@ + " "@ + cs.last().code@ + "\n"@
    }
}

/// The heading of a color listing.
pub open spec fn list_heading(mode: PaletteMode) -> Seq<char> {
    mode_str(mode)@ + " 色模式，共 "@ + decimal(palette(mode).len()) + " 色。请使用下列中文名或 MARD 色号（色号大小写不敏感）：\n"@
}

/// The full color listing of a mode.
pub open spec fn list_text(mode: PaletteMode) -> Seq<char> {
    list_heading(mode) + color_lines(palette(mode))
}

pub proof fn lemma_find_color(cs: Seq<Color>, t: Seq<char>, i: int)
    requires
        0 <= i,
    ensures
        find_color(cs, t, i) matches Some(k) ==> i <= k < cs.len() && color_matches(cs[k], t)
            && forall|j: int| i <= j < k ==> !color_matches(#[trigger] cs[j], t),
        find_color(cs, t, i) is None ==> forall|j: int|
            i <= j < cs.len() ==> !color_matches(#[trigger] cs[j], t),
    decreases cs.len() - i,
{
    if i < cs.len() && !color_matches(cs[i], t) {
        lemma_find_color(cs, t, i + 1);
    }
}

/// A looked-up color is a color of the locked palette that answers to the
/// trimmed query, and no earlier palette entry answers to it.
pub proof fn law_resolve_sound(mode: PaletteMode, input: Seq<char>, rgb: [u8; 3])
    requires
        resolve_spec(mode, input) == Some(rgb),
    ensures
        trim(input).len() > 0,
        exists|k: int|
            0 <= k < palette(mode).len() && color_matches(#[trigger] palette(mode)[k], trim(input))
                && palette(mode)[k].rgb == rgb && forall|j: int|
                0 <= j < k ==> !color_matches(#[trigger] palette(mode)[j], trim(input)),
{
    lemma_find_color(palette(mode), trim(input), 0);
    let k = color_index(mode, input)->0;
    assert(color_matches(palette(mode)[k], trim(input)));
}

/// Every name or code of the locked palette resolves (with any surrounding
/// whitespace), and a query that no palette entry answers to resolves to nothing.
pub proof fn law_resolve_complete(mode: PaletteMode, input: Seq<char>)
    ensures
        resolve_spec(mode, input) is Some <==> (trim(input).len() > 0 && exists|k: int|
            0 <= k < palette(mode).len() && color_matches(
                #[trigger] palette(mode)[k],
                trim(input),
            )),
{
    lemma_find_color(palette(mode), trim(input), 0);
}

/// No palette has more than 145 colors.
pub proof fn lemma_palette_len(mode: PaletteMode)
    ensures
        palette(mode).len() <= 145,
{
    assert(palette_24().len() == 24);
    assert(palette_144().len() == 144);
}

impl PaletteMode {
    /// Parse `"24"` / `"144"` / `"221"`. Missing or empty input defaults to 221.
    pub fn parse(input: Option<&str>) -> (r: Result<Self, String>)
        ensures
            match parse_mode(opt_text(input)) {
                Ok(m) => r == Ok::<PaletteMode, String>(m),
                Err(e) => r matches Err(msg) && msg@ == e,
            },
    {
        match input {
            None => Ok(PaletteMode::Colors221),
            Some(s) => {
                let t = trimmed_chars(s);
                if t.len() == 0 {
                    return Ok(PaletteMode::Colors221);
                }
                if chars_eq(&t, &chars_of("24")) {
                    return Ok(PaletteMode::Colors24);
                }
                if chars_eq(&t, &chars_of("144")) {
                    return Ok(PaletteMode::Colors144);
                }
                if chars_eq(&t, &chars_of("221")) {
                    return Ok(PaletteMode::Colors221);
                }
                let mut msg = String::new();
                push_str(&mut msg, "色表参数无效：「");
                push_chars(&mut msg, &t);
                push_str(&mut msg, "」。请使用 \"24\"、\"144\" 或 \"221\"。");
                assert(msg@ =~= bad_mode_message(t@));
                Err(msg)
            },
        }
    }

    pub fn as_str(self) -> (s: &'static str)
        ensures
            s == mode_str(self),
    {
        match self {
            PaletteMode::Colors24 => "24",
            PaletteMode::Colors144 => "144",
            PaletteMode::Colors221 => "221",
        }
    }

    pub fn colors(self) -> (v: Vec<Color>)
        ensures
            v@ == palette(self),
    {
        match self {
            PaletteMode::Colors24 => colors_24(),
            PaletteMode::Colors144 => colors_144(),
            PaletteMode::Colors221 => colors_221(),
        }
    }

    /// The RGB of the `H2` white bead, which every palette holds.
    pub fn white_rgb(self) -> (rgb: [u8; 3])
        ensures
            resolve_spec(self, "H2"@) == Some(rgb),
    {
        proof {
            lemma_white_resolves(self);
        }
        resolve(self, "H2").unwrap()
    }
}

/// Every palette holds the `H2` white bead, so `H2` always resolves.
pub proof fn lemma_white_resolves(mode: PaletteMode)
    ensures
        resolve_spec(mode, "H2"@) is Some,
{
    reveal_strlit("H2");
    let s = "H2"@;
    assert(trim(s) =~= s);
    let cs = palette(mode);
    let k: int = match mode {
        PaletteMode::Colors24 => 0,
        PaletteMode::Colors144 => 124,
        PaletteMode::Colors221 => 125,
    };
    assert(cs[k].code == "H2");
    assert(color_matches(cs[k], s));
    lemma_find_color(cs, s, 0);
}

/// Position of the named color in the locked palette.
pub fn color_index_of(mode: PaletteMode, input: &str) -> (r: Option<usize>)
    ensures
        match color_index(mode, input@) {
            Some(k) => r == Some(k as usize) && 0 <= k < palette(mode).len(),
            None => r is None,
        },
{
    let t = trimmed_chars(input);
    proof {
        lemma_find_color(palette(mode), t@, 0);
    }
    if t.len() == 0 {
        return None;
    }
    let cs = mode.colors();
    let mut k: usize = 0;
    while k < cs.len()
        invariant
            cs@ == palette(mode),
            t@ == trim(input@),
            t@.len() > 0,
            k <= cs@.len(),
            find_color(cs@, t@, 0) == find_color(cs@, t@, k as int),
        decreases cs@.len() - k,
    {
        let c = cs[k];
        let name = chars_of(c.name);
        let code = chars_of(c.code);
        if chars_eq(&name, &t) || chars_eq_ignore_ascii_case(&code, &t) {
            return Some(k);
        }
        k = k + 1;
    }
    None
}

/// Resolve a Chinese name or MARD code against the locked palette only.
pub fn resolve(mode: PaletteMode, input: &str) -> (r: Option<[u8; 3]>)
    ensures
        r == resolve_spec(mode, input@),
{
    match color_index_of(mode, input) {
        Some(k) => {
            let cs = mode.colors();
            Some(cs[k].rgb)
        },
        None => None,
    }
}

/// The color listing that `list_colors` shows for a mode.
pub fn format_list(mode: PaletteMode) -> (s: String)
    ensures
        s@ == list_text(mode),
{
    let colors = mode.colors();
    let mut out = String::new();
    push_str(&mut out, mode.as_str());
    push_str(&mut out, " 色模式，共 ");
    push_decimal(&mut out, colors.len() as u64);
    push_str(&mut out, " 色。请使用下列中文名或 MARD 色号（色号大小写不敏感）：\n");
    assert(out@ =~= list_heading(mode));
    let mut i: usize = 0;
    while i < colors.len()
        invariant
            colors@ == palette(mode),
            i <= colors@.len(),
            out@ == list_heading(mode) + color_lines(colors@.take(i as int)),
        decreases colors@.len() - i,
    {
        let c = colors[i];
        push_str(&mut out, c.name);
        push_str(&mut out, " ");
        push_str(&mut out, c.code);
        push_str(&mut out, "\n");
        assert(colors@.take(i + 1).drop_last() =~= colors@.take(i as int));
        assert(out@ =~= list_heading(mode) + color_lines(colors@.take(i + 1)));
        i = i + 1;
    }
    assert(colors@.take(colors@.len() as int) =~= colors@);
    out
}

} // verus!
