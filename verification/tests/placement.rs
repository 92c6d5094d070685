use editor_shell::glyph::{GlyphTable, DEFAULT_GLYPH_WIDTH, UNITS_PER_PIXEL};
use editor_shell::menu::MenuId;
use editor_shell::placement::{
    anchor_x, measure_button, menu_bar, MenuButton, BUTTON_CORRECTION, BUTTON_PADDING,
};

const BAR_ORDER: [MenuId; 10] = [
    MenuId::File,
    MenuId::Edit,
    MenuId::Selection,
    MenuId::Find,
    MenuId::View,
    MenuId::Goto,
    MenuId::Tools,
    MenuId::Project,
    MenuId::Preferences,
    MenuId::Help,
];

#[test]
fn constants_are_in_layout_units() {
    assert_eq!(UNITS_PER_PIXEL, 1000);
    assert_eq!(DEFAULT_GLYPH_WIDTH, 7000);
    assert_eq!(BUTTON_PADDING, 24000);
    assert_eq!(BUTTON_CORRECTION, 1000);
}

#[test]
fn empty_table_gives_the_default_width() {
    let table = GlyphTable::new();
    assert_eq!(table.width_of('a'), 7000);
    assert_eq!(table.width_of('\u{10FFFF}'), 7000);
    assert_eq!(table.measure(""), 0);
    assert_eq!(table.measure("File"), 28000);
}

#[test]
fn table_entries_replace_the_default() {
    let mut table = GlyphTable::new();
    table.set_width('F', 7330);
    table.set_width('i', 2660);
    table.set_width('l', 2660);
    assert_eq!(table.width_of('F'), 7330);
    assert_eq!(table.width_of('i'), 2660);
    assert_eq!(table.width_of('e'), 7000);
    // F + i + l + e
    assert_eq!(table.measure("File"), 7330 + 2660 + 2660 + 7000);
    table.set_width('F', 1);
    assert_eq!(table.width_of('F'), 1);
    table.set_width('e', 0);
    assert_eq!(table.measure("File"), 1 + 2660 + 2660);
}

#[test]
fn measure_counts_characters_not_bytes() {
    let mut table = GlyphTable::new();
    table.set_width('\u{e9}', 5000);
    assert_eq!(table.measure("\u{e9}"), 5000);
    assert_eq!(table.measure("caf\u{e9}"), 3 * 7000 + 5000);
    assert_eq!(table.measure("\u{4e2d}\u{6587}"), 14000);
}

#[test]
fn measure_adds_large_widths_exactly() {
    let mut table = GlyphTable::new();
    table.set_width('w', u32::MAX);
    let text: String = std::iter::repeat('w').take(5).collect();
    assert_eq!(table.measure(&text), 5 * (u32::MAX as u64));
    assert_eq!(table.measure("w"), u32::MAX as u64);
}

#[test]
fn button_width_adds_padding_less_correction() {
    let table = GlyphTable::new();
    assert_eq!(measure_button(&table, ""), 23000);
    assert_eq!(measure_button(&table, "File"), 51000);
    assert_eq!(measure_button(&table, "Preferences"), 11 * 7000 + 23000);
}

#[test]
fn menu_bar_has_one_button_for_each_menu() {
    let bar = menu_bar();
    let labels: Vec<&str> = bar.iter().map(|b| b.label).collect();
    assert_eq!(
        labels,
        vec![
            "File",
            "Edit",
            "Selection",
            "Find",
            "View",
            "Goto",
            "Tools",
            "Project",
            "Preferences",
            "Help"
        ]
    );
    let menus: Vec<MenuId> = bar.iter().map(|b| b.menu).collect();
    assert_eq!(menus, BAR_ORDER.to_vec());
}

#[test]
fn anchor_is_zero_without_an_open_menu() {
    let table = GlyphTable::new();
    assert_eq!(anchor_x(MenuId::Closed, &menu_bar(), &table), 0);
    assert_eq!(anchor_x(MenuId::Closed, &[], &table), 0);
}

#[test]
fn anchor_sums_the_buttons_before_the_open_one() {
    let table = GlyphTable::new();
    let bar = menu_bar();
    // Each button is 7000 per character plus 23000.
    let expected: [u64; 10] = [
        0,
        51000,
        102000,
        188000,
        239000,
        290000,
        341000,
        399000,
        471000,
        571000,
    ];
    for (menu, want) in BAR_ORDER.iter().zip(expected.iter()) {
        assert_eq!(anchor_x(*menu, &bar, &table), *want);
    }
}

#[test]
fn anchor_uses_the_glyph_table() {
    let mut table = GlyphTable::new();
    table.set_width('F', 7330);
    table.set_width('i', 2660);
    table.set_width('l', 2660);
    table.set_width('e', 6670);
    table.set_width('E', 8000);
    table.set_width('d', 6670);
    table.set_width('t', 3330);
    let bar = menu_bar();
    let file = 7330 + 2660 + 2660 + 6670 + 23000;
    let edit = 8000 + 6670 + 2660 + 3330 + 23000;
    assert_eq!(anchor_x(MenuId::File, &bar, &table), 0);
    assert_eq!(anchor_x(MenuId::Edit, &bar, &table), file);
    assert_eq!(anchor_x(MenuId::Selection, &bar, &table), file + edit);
}

#[test]
fn anchor_never_shrinks_to_the_right() {
    let mut table = GlyphTable::new();
    let mut seed: u32 = 7;
    for c in "FileEditSelectionFindViewGotoToolsProjectPreferencesHelp".chars() {
        seed = seed.wrapping_mul(1103515245).wrapping_add(12345);
        table.set_width(c, seed % 20000);
    }
    let bar = menu_bar();
    let mut last = 0;
    for menu in BAR_ORDER {
        let x = anchor_x(menu, &bar, &table);
        assert!(x >= last);
        last = x;
    }
}

#[test]
fn anchor_takes_the_first_button_of_a_menu() {
    let table = GlyphTable::new();
    let bar = [
        MenuButton { label: "ab", menu: MenuId::File },
        MenuButton { label: "c", menu: MenuId::Edit },
        MenuButton { label: "defg", menu: MenuId::Edit },
        MenuButton { label: "", menu: MenuId::Help },
    ];
    assert_eq!(anchor_x(MenuId::File, &bar, &table), 0);
    assert_eq!(anchor_x(MenuId::Edit, &bar, &table), 37000);
    assert_eq!(anchor_x(MenuId::Help, &bar, &table), 37000 + 30000 + 51000);
}

#[test]
fn anchor_of_a_menu_without_button_is_the_whole_bar() {
    let table = GlyphTable::new();
    let bar = [
        MenuButton { label: "ab", menu: MenuId::File },
        MenuButton { label: "c", menu: MenuId::Edit },
    ];
    assert_eq!(anchor_x(MenuId::Tools, &bar, &table), 37000 + 30000);
    assert_eq!(anchor_x(MenuId::Tools, &[], &table), 0);
}

#[test]
fn anchor_adds_large_widths_exactly() {
    let mut table = GlyphTable::new();
    table.set_width('w', u32::MAX);
    let bar = [
        MenuButton { label: "wwww", menu: MenuId::File },
        MenuButton { label: "wwww", menu: MenuId::Edit },
        MenuButton { label: "w", menu: MenuId::Help },
    ];
    let one = 4 * (u32::MAX as u64) + 23000;
    assert_eq!(anchor_x(MenuId::Edit, &bar, &table), one);
    assert_eq!(anchor_x(MenuId::Help, &bar, &table), 2 * one);
}
