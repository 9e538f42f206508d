use wealthy::cache::MeasurementCache;
use wealthy::cells::{
    cell_len, chop_cells, get_character_cell_size, get_codepoint_cell_size, set_cell_size,
    table_lookup_binary, table_lookup_linear,
};
use wealthy::cell_widths::width_table;

#[test]
fn test_cell_len() {
    let mut cache = MeasurementCache::new();
    assert_eq!(cell_len("abc", &mut cache), 3);
    assert_eq!(cell_len("愛", &mut cache), 2);
    assert_eq!(cell_len("👪", &mut cache), 2);
}

#[test]
fn test_cell_len_long_string() {
    let mut cache = MeasurementCache::new();
    assert_eq!(cell_len(&"abc".repeat(200), &mut cache), 3 * 200);
}

#[test]
fn test_cell_len_cached() {
    let mut cache = MeasurementCache::new();
    assert_eq!(cell_len("これは", &mut cache), 6);
    assert_eq!(cell_len("abc", &mut cache), 3);
    assert_eq!(cell_len("これは", &mut cache), 6);
    assert_eq!(cell_len("abc", &mut cache), 3);
}

#[test]
fn test_get_character_cell_size() {
    assert_eq!(get_character_cell_size('a'), 1);
    assert_eq!(get_character_cell_size('愛'), 2);
    assert_eq!(get_character_cell_size('👪'), 2);
}

#[test]
fn test_get_codepoint_cell_size() {
    // A control character occupies no cells; unmapped codepoints occupy one.
    assert_eq!(get_codepoint_cell_size(0), 0);
    assert_eq!(get_codepoint_cell_size(9), 0);
    assert_eq!(get_codepoint_cell_size(0x41), 1);
    assert_eq!(get_codepoint_cell_size(0x4E2D), 2);
    assert_eq!(get_codepoint_cell_size(0x300), 0);
}

#[test]
fn test_set_cell_size() {
    let cases: [(&str, u32, &str); 12] = [
        ("foo", 0, ""),
        ("f", 0, ""),
        ("", 0, ""),
        ("😽😽", 0, ""),
        ("foo", 2, "fo"),
        ("foo", 3, "foo"),
        ("foo", 4, "foo "),
        ("😽😽", 4, "😽😽"),
        ("😽😽", 3, "😽 "),
        ("😽😽", 2, "😽"),
        ("😽😽", 1, " "),
        ("😽😽", 5, "😽😽 "),
    ];
    for (test_case, size, result) in cases {
        assert_eq!(
            set_cell_size(test_case.into(), size),
            result,
            "set_cell_size({test_case}, {size})"
        );
    }
}

#[test]
fn test_set_cell_size_infinite() {
    let mut cache = MeasurementCache::new();
    for size in 0..38 {
        assert_eq!(
            cell_len(
                &set_cell_size(
                    "เป็นเกมที่ต้องมีความอดทนมากที่สุดตั้งเเต่เคยเล่นมา".into(),
                    size
                ),
                &mut cache
            ),
            size
        );
    }
}

#[test]
fn test_chop_cells() {
    assert_eq!(
        chop_cells(
            "这是对亚洲语言支持的测试。面对模棱两可的想法，拒绝猜测的诱惑。",
            8,
            None
        ),
        vec![
            "。惑诱的",
            "测猜绝拒",
            "，法想的",
            "可两棱模",
            "对面。试",
            "测的持支",
            "言语洲亚",
            "对是这"
        ]
    );
}

#[test]
fn test_chop_cells_offset_and_wide_char() {
    // The starting offset seeds the first chunk's running width.
    assert_eq!(chop_cells("abcd", 3, Some(2)), vec!["d", "cba"]);
    // A single character wider than the bound still forms its own chunk.
    assert_eq!(chop_cells("愛", 1, None), vec!["", "愛"]);
    assert_eq!(chop_cells("", 4, None), vec![""]);
}

#[test]
fn test_width_lookup_agrees() {
    // The binary search agrees with a linear scan at and around every range
    // boundary of the width table.
    let table = width_table();
    for &(start, end, _) in table.iter() {
        for cp in [
            start.saturating_sub(1),
            start,
            end,
            end.saturating_add(1),
        ] {
            assert_eq!(
                table_lookup_binary(&table, cp),
                table_lookup_linear(&table, cp),
                "lookup mismatch at codepoint {cp}"
            );
        }
    }
}
