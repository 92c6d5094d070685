use editor_shell::menu::{
    current_items, edit_menu_items, file_menu_items, find_menu_items, goto_menu_items,
    help_menu_items, preferences_menu_items, project_menu_items, selection_menu_items,
    tools_menu_items, view_menu_items, MenuId, MenuItem, MenuItemKind, MenuModel, Platform,
};

const ALL_MENUS: [MenuId; 11] = [
    MenuId::Closed,
    MenuId::File,
    MenuId::Edit,
    MenuId::Selection,
    MenuId::Find,
    MenuId::View,
    MenuId::Goto,
    MenuId::Tools,
    MenuId::Project,
    MenuId::Preferences,
    MenuId::Help,
];

#[test]
fn new_model_has_no_menu_open() {
    let model = MenuModel::new();
    assert_eq!(model.open_menu(), MenuId::Closed);
    assert!(!model.is_open());
}

#[test]
fn toggle_opens_a_closed_menu() {
    let mut model = MenuModel::new();
    model.toggle(MenuId::File);
    assert_eq!(model.open_menu(), MenuId::File);
    assert!(model.is_open());
}

#[test]
fn toggle_on_the_open_menu_closes_it() {
    let mut model = MenuModel::new();
    model.toggle(MenuId::Edit);
    model.toggle(MenuId::Edit);
    assert_eq!(model.open_menu(), MenuId::Closed);
}

#[test]
fn toggle_switches_directly_between_menus() {
    let mut model = MenuModel::new();
    model.toggle(MenuId::File);
    model.toggle(MenuId::View);
    assert_eq!(model.open_menu(), MenuId::View);
    model.toggle(MenuId::Help);
    assert_eq!(model.open_menu(), MenuId::Help);
}

#[test]
fn close_shuts_whatever_is_open() {
    let mut model = MenuModel::new();
    model.toggle(MenuId::Tools);
    model.close();
    assert_eq!(model.open_menu(), MenuId::Closed);
    model.close();
    assert_eq!(model.open_menu(), MenuId::Closed);
}

#[test]
fn last_toggle_decides_the_open_menu() {
    // Every pair of presses from every starting menu.
    for start in ALL_MENUS {
        for first in ALL_MENUS {
            for second in ALL_MENUS {
                let mut model = MenuModel::new();
                model.toggle(start);
                let before_first = model.open_menu();
                model.toggle(first);
                let before_second = model.open_menu();
                assert_eq!(
                    before_second,
                    if first == before_first { MenuId::Closed } else { first }
                );
                model.toggle(second);
                assert_eq!(
                    model.open_menu(),
                    if second == before_second { MenuId::Closed } else { second }
                );
            }
        }
    }
}

#[test]
fn file_menu_has_its_entries_in_order() {
    let items = file_menu_items(Platform::Other);
    let labels: Vec<&str> = items.iter().map(|i| i.label).collect();
    assert_eq!(
        labels,
        vec![
            "New File",
            "",
            "Open File...",
            "Open Folder...",
            "Open Recent",
            "",
            "Reopen Closed File",
            "New View into File",
            "",
            "Save",
            "Save As...",
            "Save All",
            "",
            "Reload from Disk",
            "",
            "Close View",
            "Close File",
            "",
            "Exit",
        ]
    );
    assert_eq!(items[0].shortcut, Some("Ctrl+N"));
    assert_eq!(items[2].shortcut, Some("Ctrl+O"));
    assert_eq!(items[3].shortcut, None);
    assert_eq!(items[4].kind, MenuItemKind::Submenu);
    assert_eq!(items[9].shortcut, Some("Ctrl+S"));
    assert_eq!(items[15].shortcut, Some("Ctrl+W"));
    assert_eq!(items[18].shortcut, Some("Alt+F4"));
}

#[test]
fn file_menu_ends_as_the_platform_has_it() {
    let mac = file_menu_items(Platform::MacOs);
    let other = file_menu_items(Platform::Other);
    assert_eq!(mac.len(), 19);
    assert_eq!(other.len(), 19);
    assert_eq!(mac[18], MenuItem::item("Quit", Some("Cmd+Q")));
    assert_eq!(other[18], MenuItem::item("Exit", Some("Alt+F4")));
    assert_eq!(mac[..18], other[..18]);
}

#[test]
fn edit_menu_has_its_entries() {
    let items = edit_menu_items();
    assert_eq!(
        items,
        vec![
            MenuItem::item("Undo", Some("Ctrl+Z")),
            MenuItem::item("Redo", Some("Ctrl+Y")),
            MenuItem::sep(),
            MenuItem::item("Copy", Some("Ctrl+C")),
            MenuItem::item("Cut", Some("Ctrl+X")),
            MenuItem::item("Paste", Some("Ctrl+V")),
            MenuItem::sep(),
            MenuItem::submenu("Line"),
            MenuItem::submenu("Comment"),
            MenuItem::submenu("Text"),
            MenuItem::submenu("Tag"),
        ]
    );
}

#[test]
fn the_other_menus_have_their_entries() {
    assert_eq!(
        selection_menu_items(),
        vec![
            MenuItem::item("Select All", Some("Ctrl+A")),
            MenuItem::item("Expand Selection", Some("Ctrl+L")),
            MenuItem::sep(),
            MenuItem::item("Add Next Line", Some("Ctrl+Alt+Down")),
            MenuItem::item("Add Previous Line", Some("Ctrl+Alt+Up")),
        ]
    );
    assert_eq!(
        find_menu_items(),
        vec![
            MenuItem::item("Find...", Some("Ctrl+F")),
            MenuItem::item("Find Next", Some("F3")),
            MenuItem::item("Find Previous", Some("Shift+F3")),
            MenuItem::item("Replace...", Some("Ctrl+H")),
            MenuItem::sep(),
            MenuItem::item("Find in Files...", Some("Ctrl+Shift+F")),
        ]
    );
    assert_eq!(
        view_menu_items(),
        vec![
            MenuItem::submenu("Side Bar"),
            MenuItem::submenu("Show Console"),
            MenuItem::sep(),
            MenuItem::submenu("Layout"),
            MenuItem::submenu("Groups"),
        ]
    );
    assert_eq!(
        goto_menu_items(),
        vec![
            MenuItem::item("Goto Anything...", Some("Ctrl+P")),
            MenuItem::sep(),
            MenuItem::item("Goto Symbol...", Some("Ctrl+R")),
            MenuItem::item("Goto Line...", Some("Ctrl+G")),
        ]
    );
    assert_eq!(
        tools_menu_items(),
        vec![
            MenuItem::item("Command Palette...", Some("Ctrl+Shift+P")),
            MenuItem::sep(),
            MenuItem::submenu("Build System"),
            MenuItem::item("Build", Some("Ctrl+B")),
        ]
    );
    assert_eq!(
        project_menu_items(),
        vec![
            MenuItem::item("Open Project...", None),
            MenuItem::submenu("Recent Projects"),
            MenuItem::sep(),
            MenuItem::item("Save Project As...", None),
        ]
    );
    assert_eq!(
        preferences_menu_items(),
        vec![
            MenuItem::item("Settings", None),
            MenuItem::item("Key Bindings", None),
            MenuItem::sep(),
            MenuItem::submenu("Color Scheme"),
            MenuItem::submenu("Theme"),
        ]
    );
    assert_eq!(
        help_menu_items(),
        vec![
            MenuItem::item("Documentation", None),
            MenuItem::item("Twitter", None),
            MenuItem::sep(),
            MenuItem::item("About Sublime Text", None),
        ]
    );
}

#[test]
fn constructors_set_the_kind() {
    let item = MenuItem::item("Save", Some("Ctrl+S"));
    assert_eq!(item.label, "Save");
    assert_eq!(item.shortcut, Some("Ctrl+S"));
    assert_eq!(item.kind, MenuItemKind::Action);
    let sep = MenuItem::sep();
    assert_eq!(sep.label, "");
    assert_eq!(sep.shortcut, None);
    assert_eq!(sep.kind, MenuItemKind::Separator);
    let sub = MenuItem::submenu("Layout");
    assert_eq!(sub.label, "Layout");
    assert_eq!(sub.shortcut, None);
    assert_eq!(sub.kind, MenuItemKind::Submenu);
}

#[test]
fn current_items_covers_every_menu() {
    assert!(current_items(MenuId::Closed, Platform::Other).is_empty());
    assert_eq!(current_items(MenuId::File, Platform::MacOs), file_menu_items(Platform::MacOs));
    assert_eq!(current_items(MenuId::File, Platform::Other), file_menu_items(Platform::Other));
    assert_eq!(current_items(MenuId::Edit, Platform::Other), edit_menu_items());
    assert_eq!(current_items(MenuId::Selection, Platform::Other), selection_menu_items());
    assert_eq!(current_items(MenuId::Find, Platform::Other), find_menu_items());
    assert_eq!(current_items(MenuId::View, Platform::Other), view_menu_items());
    assert_eq!(current_items(MenuId::Goto, Platform::Other), goto_menu_items());
    assert_eq!(current_items(MenuId::Tools, Platform::Other), tools_menu_items());
    assert_eq!(current_items(MenuId::Project, Platform::Other), project_menu_items());
    assert_eq!(current_items(MenuId::Preferences, Platform::Other), preferences_menu_items());
    assert_eq!(current_items(MenuId::Help, Platform::Other), help_menu_items());
}

#[test]
fn every_menu_is_laid_out_soundly() {
    for platform in [Platform::MacOs, Platform::Other] {
        for menu in ALL_MENUS {
            let items = current_items(menu, platform);
            if menu == MenuId::Closed {
                assert!(items.is_empty());
                continue;
            }
            assert!(!items.is_empty());
            assert_ne!(items[0].kind, MenuItemKind::Separator);
            assert_ne!(items[items.len() - 1].kind, MenuItemKind::Separator);
            for (i, item) in items.iter().enumerate() {
                match item.kind {
                    MenuItemKind::Action => assert!(!item.label.is_empty()),
                    MenuItemKind::Separator => {
                        assert!(item.label.is_empty());
                        assert_eq!(item.shortcut, None);
                        assert_ne!(items[i + 1].kind, MenuItemKind::Separator);
                    }
                    MenuItemKind::Submenu => {
                        assert!(!item.label.is_empty());
                        assert_eq!(item.shortcut, None);
                    }
                }
            }
        }
    }
}
