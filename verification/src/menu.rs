//! The menu bar's state: which dropdown, if any, is open.

use vstd::prelude::*;

verus! {

/// Identifies one dropdown of the menu bar; `Closed` stands for "no dropdown".
#[derive(Clone, Copy, Debug, PartialEq, Eq, Structural)]
pub enum MenuId {
    Closed,
    File,
    Edit,
    Selection,
    Find,
    View,
    Goto,
    Tools,
    Project,
    Preferences,
    Help,
}

/// The menu that is open after the button of `target` is pressed while
/// `open` is showing: pressing the open menu's own button closes it, any
/// other button switches straight to that menu.
pub open spec fn toggled(open: MenuId, target: MenuId) -> MenuId {
    if open == target {
        MenuId::Closed
    } else {
        target
    }
}

/// The menu that is open after the buttons of `targets` are pressed one after
/// another, starting from `open`.
pub open spec fn toggled_all(open: MenuId, targets: Seq<MenuId>) -> MenuId
    decreases targets.len(),
{
    if targets.len() == 0 {
        open
    } else {
        toggled(toggled_all(open, targets.drop_last()), targets.last())
    }
}

/// The platform whose conventions the menus follow.
#[derive(Clone, Copy, Debug, PartialEq, Eq, Structural)]
pub enum Platform {
    MacOs,
    Other,
}

/// What an entry of a dropdown is.
#[derive(Clone, Copy, Debug, PartialEq, Eq, Structural)]
pub enum MenuItemKind {
    /// An entry that triggers a command.
    Action,
    /// A line between groups of entries.
    Separator,
    /// An entry that opens a further menu.
    Submenu,
}

/// One entry of a dropdown.
#[derive(Clone, Copy, Debug, PartialEq, Eq)]
pub struct MenuItem {
    pub label: &'static str,
    pub shortcut: Option<&'static str>,
    pub kind: MenuItemKind,
}

/// The command entry `label` with its keyboard shortcut, if it has one.
pub open spec fn action(label: &'static str, shortcut: Option<&'static str>) -> MenuItem {
    MenuItem { label, shortcut, kind: MenuItemKind::Action }
}

/// The separator line.
pub open spec fn separator() -> MenuItem {
    MenuItem { label: "", shortcut: None, kind: MenuItemKind::Separator }
}

/// The entry `label` that opens a further menu.
pub open spec fn submenu_of(label: &'static str) -> MenuItem {
    MenuItem { label, shortcut: None, kind: MenuItemKind::Submenu }
}

impl MenuItem {
    /// A separator has neither label nor shortcut, and an entry that opens a
    /// further menu has no shortcut.
    pub open spec fn wf(self) -> bool {
        match self.kind {
            MenuItemKind::Action => true,
            MenuItemKind::Separator => self.label@.len() == 0 && self.shortcut is None,
            MenuItemKind::Submenu => self.shortcut is None,
        }
    }

    /// A command entry.
    pub fn item(label: &'static str, shortcut: Option<&'static str>) -> (entry: Self)
        ensures
            entry == action(label, shortcut),
    {
        MenuItem { label, shortcut, kind: MenuItemKind::Action }
    }

    /// A separator line.
    pub fn sep() -> (entry: Self)
        ensures
            entry == separator(),
    {
        MenuItem { label: "", shortcut: None, kind: MenuItemKind::Separator }
    }

    /// An entry that opens a further menu.
    pub fn submenu(label: &'static str) -> (entry: Self)
        ensures
            entry == submenu_of(label),
    {
        MenuItem { label, shortcut: None, kind: MenuItemKind::Submenu }
    }
}

/// The entries of the File menu.
pub open spec fn file_menu(platform: Platform) -> Seq<MenuItem> {
    seq![
        action("New File", Some("Ctrl+N")),
        separator(),
        action("Open File...", Some("Ctrl+O")),
        action("Open Folder...", None),
        submenu_of("Open Recent"),
        separator(),
        action("Reopen Closed File", None),
        action("New View into File", None),
        separator(),
        action("Save", Some("Ctrl+S")),
        action("Save As...", None),
        action("Save All", None),
        separator(),
        action("Reload from Disk", None),
        separator(),
        action("Close View", Some("Ctrl+W")),
        action("Close File", None),
        separator(),
        if platform == Platform::MacOs {
            action("Quit", Some("Cmd+Q"))
        } else {
            action("Exit", Some("Alt+F4"))
        },
    ]
}

/// The entries of the File menu; the last one leaves the program and is
/// named and bound as `platform` has it.
pub fn file_menu_items(platform: Platform) -> (items: Vec<MenuItem>)
    ensures
        items@ == file_menu(platform),
{
    let items = vec![
        MenuItem::item("New File", Some("Ctrl+N")),
        MenuItem::sep(),
        MenuItem::item("Open File...", Some("Ctrl+O")),
        MenuItem::item("Open Folder...", None),
        MenuItem::submenu("Open Recent"),
        MenuItem::sep(),
        MenuItem::item("Reopen Closed File", None),
        MenuItem::item("New View into File", None),
        MenuItem::sep(),
        MenuItem::item("Save", Some("Ctrl+S")),
        MenuItem::item("Save As...", None),
        MenuItem::item("Save All", None),
        MenuItem::sep(),
        MenuItem::item("Reload from Disk", None),
        MenuItem::sep(),
        MenuItem::item("Close View", Some("Ctrl+W")),
        MenuItem::item("Close File", None),
        MenuItem::sep(),
        match platform {
            Platform::MacOs => MenuItem::item("Quit", Some("Cmd+Q")),
            Platform::Other => MenuItem::item("Exit", Some("Alt+F4")),
        },
    ];
    assert(items@ =~= file_menu(platform));
    items
}

/// The entries of the Edit menu.
pub open spec fn edit_menu() -> Seq<MenuItem> {
    seq![
        action("Undo", Some("Ctrl+Z")),
        action("Redo", Some("Ctrl+Y")),
        separator(),
        action("Copy", Some("Ctrl+C")),
        action("Cut", Some("Ctrl+X")),
        action("Paste", Some("Ctrl+V")),
        separator(),
        submenu_of("Line"),
        submenu_of("Comment"),
        submenu_of("Text"),
        submenu_of("Tag"),
    ]
}

/// The entries of the Edit menu.
pub fn edit_menu_items() -> (items: Vec<MenuItem>)
    ensures
        items@ == edit_menu(),
{
    let items = vec![
        MenuItem::item("Undo", Some("Ctrl+Z")),
        MenuItem::item("Redo", Some("Ctrl+Y")),
        MenuItem::sep(),
        MenuItem::item("Copy", Some("Ctrl+C")),
        MenuItem::item("Cut", Some("Ctrl+X")),
        MenuItem::item("Paste", Some("Ctrl+V")),
        MenuItem::sep(),
        MenuItem::submenu("Line"),
        MenuItem::submenu("Comment"),
        MenuItem::submenu("Text"),
        MenuItem::submenu("Tag"),
    ];
    assert(items@ =~= edit_menu());
    items
}

/// The entries of the Selection menu.
pub open spec fn selection_menu() -> Seq<MenuItem> {
    seq![
        action("Select All", Some("Ctrl+A")),
        action("Expand Selection", Some("Ctrl+L")),
        separator(),
        action("Add Next Line", Some("Ctrl+Alt+Down")),
        action("Add Previous Line", Some("Ctrl+Alt+Up")),
    ]
}

/// The entries of the Selection menu.
pub fn selection_menu_items() -> (items: Vec<MenuItem>)
    ensures
        items@ == selection_menu(),
{
    let items = vec![
        MenuItem::item("Select All", Some("Ctrl+A")),
        MenuItem::item("Expand Selection", Some("Ctrl+L")),
        MenuItem::sep(),
        MenuItem::item("Add Next Line", Some("Ctrl+Alt+Down")),
        MenuItem::item("Add Previous Line", Some("Ctrl+Alt+Up")),
    ];
    assert(items@ =~= selection_menu());
    items
}

/// The entries of the Find menu.
pub open spec fn find_menu() -> Seq<MenuItem> {
    seq![
        action("Find...", Some("Ctrl+F")),
        action("Find Next", Some("F3")),
        action("Find Previous", Some("Shift+F3")),
        action("Replace...", Some("Ctrl+H")),
        separator(),
        action("Find in Files...", Some("Ctrl+Shift+F")),
    ]
}

/// The entries of the Find menu.
pub fn find_menu_items() -> (items: Vec<MenuItem>)
    ensures
        items@ == find_menu(),
{
    let items = vec![
        MenuItem::item("Find...", Some("Ctrl+F")),
        MenuItem::item("Find Next", Some("F3")),
        MenuItem::item("Find Previous", Some("Shift+F3")),
        MenuItem::item("Replace...", Some("Ctrl+H")),
        MenuItem::sep(),
        MenuItem::item("Find in Files...", Some("Ctrl+Shift+F")),
    ];
    assert(items@ =~= find_menu());
    items
}

/// The entries of the View menu.
pub open spec fn view_menu() -> Seq<MenuItem> {
    seq![
        submenu_of("Side Bar"),
        submenu_of("Show Console"),
        separator(),
        submenu_of("Layout"),
        submenu_of("Groups"),
    ]
}

/// The entries of the View menu.
pub fn view_menu_items() -> (items: Vec<MenuItem>)
    ensures
        items@ == view_menu(),
{
    let items = vec![
        MenuItem::submenu("Side Bar"),
        MenuItem::submenu("Show Console"),
        MenuItem::sep(),
        MenuItem::submenu("Layout"),
        MenuItem::submenu("Groups"),
    ];
    assert(items@ =~= view_menu());
    items
}

/// The entries of the Goto menu.
pub open spec fn goto_menu() -> Seq<MenuItem> {
    seq![
        action("Goto Anything...", Some("Ctrl+P")),
        separator(),
        action("Goto Symbol...", Some("Ctrl+R")),
        action("Goto Line...", Some("Ctrl+G")),
    ]
}

/// The entries of the Goto menu.
pub fn goto_menu_items() -> (items: Vec<MenuItem>)
    ensures
        items@ == goto_menu(),
{
    let items = vec![
        MenuItem::item("Goto Anything...", Some("Ctrl+P")),
        MenuItem::sep(),
        MenuItem::item("Goto Symbol...", Some("Ctrl+R")),
        MenuItem::item("Goto Line...", Some("Ctrl+G")),
    ];
    assert(items@ =~= goto_menu());
    items
}

/// The entries of the Tools menu.
pub open spec fn tools_menu() -> Seq<MenuItem> {
    seq![
        action("Command Palette...", Some("Ctrl+Shift+P")),
        separator(),
        submenu_of("Build System"),
        action("Build", Some("Ctrl+B")),
    ]
}

/// The entries of the Tools menu.
pub fn tools_menu_items() -> (items: Vec<MenuItem>)
    ensures
        items@ == tools_menu(),
{
    let items = vec![
        MenuItem::item("Command Palette...", Some("Ctrl+Shift+P")),
        MenuItem::sep(),
        MenuItem::submenu("Build System"),
        MenuItem::item("Build", Some("Ctrl+B")),
    ];
    assert(items@ =~= tools_menu());
    items
}

/// The entries of the Project menu.
pub open spec fn project_menu() -> Seq<MenuItem> {
    seq![
        action("Open Project...", None),
        submenu_of("Recent Projects"),
        separator(),
        action("Save Project As...", None),
    ]
}

/// The entries of the Project menu.
pub fn project_menu_items() -> (items: Vec<MenuItem>)
    ensures
        items@ == project_menu(),
{
    let items = vec![
        MenuItem::item("Open Project...", None),
        MenuItem::submenu("Recent Projects"),
        MenuItem::sep(),
        MenuItem::item("Save Project As...", None),
    ];
    assert(items@ =~= project_menu());
    items
}

/// The entries of the Preferences menu.
pub open spec fn preferences_menu() -> Seq<MenuItem> {
    seq![
        action("Settings", None),
        action("Key Bindings", None),
        separator(),
        submenu_of("Color Scheme"),
        submenu_of("Theme"),
    ]
}

/// The entries of the Preferences menu.
pub fn preferences_menu_items() -> (items: Vec<MenuItem>)
    ensures
        items@ == preferences_menu(),
{
    let items = vec![
        MenuItem::item("Settings", None),
        MenuItem::item("Key Bindings", None),
        MenuItem::sep(),
        MenuItem::submenu("Color Scheme"),
        MenuItem::submenu("Theme"),
    ];
    assert(items@ =~= preferences_menu());
    items
}

/// The entries of the Help menu.
pub open spec fn help_menu() -> Seq<MenuItem> {
    seq![
        action("Documentation", None),
        action("Twitter", None),
        separator(),
        action("About Sublime Text", None),
    ]
}

/// The entries of the Help menu.
pub fn help_menu_items() -> (items: Vec<MenuItem>)
    ensures
        items@ == help_menu(),
{
    let items = vec![
        MenuItem::item("Documentation", None),
        MenuItem::item("Twitter", None),
        MenuItem::sep(),
        MenuItem::item("About Sublime Text", None),
    ];
    assert(items@ =~= help_menu());
    items
}

/// The entries of the dropdown of `menu`; none for `MenuId::Closed`.
pub open spec fn menu_items(menu: MenuId, platform: Platform) -> Seq<MenuItem> {
    match menu {
        MenuId::Closed => Seq::empty(),
        MenuId::File => file_menu(platform),
        MenuId::Edit => edit_menu(),
        MenuId::Selection => selection_menu(),
        MenuId::Find => find_menu(),
        MenuId::View => view_menu(),
        MenuId::Goto => goto_menu(),
        MenuId::Tools => tools_menu(),
        MenuId::Project => project_menu(),
        MenuId::Preferences => preferences_menu(),
        MenuId::Help => help_menu(),
    }
}

/// Looks up the entries of the dropdown of `menu`, in the order in which
/// they are shown. Every menu has its entries; `MenuId::Closed` has none.
pub fn current_items(menu: MenuId, platform: Platform) -> (items: Vec<MenuItem>)
    ensures
        items@ == menu_items(menu, platform),
{
    match menu {
        MenuId::Closed => Vec::new(),
        MenuId::File => file_menu_items(platform),
        MenuId::Edit => edit_menu_items(),
        MenuId::Selection => selection_menu_items(),
        MenuId::Find => find_menu_items(),
        MenuId::View => view_menu_items(),
        MenuId::Goto => goto_menu_items(),
        MenuId::Tools => tools_menu_items(),
        MenuId::Project => project_menu_items(),
        MenuId::Preferences => preferences_menu_items(),
        MenuId::Help => help_menu_items(),
    }
}

/// Whether a dropdown with the entries `items` is laid out soundly: every
/// entry is well formed, no separator stands first or last, and no two
/// separators stand next to each other.
pub open spec fn well_laid_out(items: Seq<MenuItem>) -> bool {
    &&& forall|i: int| 0 <= i < items.len() ==> (#[trigger] items[i]).wf()
    &&& items.len() > 0 ==> items.first().kind != MenuItemKind::Separator && items.last().kind
        != MenuItemKind::Separator
    &&& forall|i: int|
        0 <= i < items.len() - 1 ==> !((#[trigger] items[i]).kind == MenuItemKind::Separator
            && items[i + 1].kind == MenuItemKind::Separator)
}

/// Every dropdown is laid out soundly, on every platform.
pub proof fn lemma_menus_well_laid_out(menu: MenuId, platform: Platform)
    ensures
        well_laid_out(menu_items(menu, platform)),
{
    reveal_strlit("");
}

/// Tracks the single dropdown that may be open at any time.
pub struct MenuModel {
    open: MenuId,
}

impl MenuModel {
    /// The menu that is open, `MenuId::Closed` if none is.
    pub closed spec fn spec_open_menu(&self) -> MenuId {
        self.open
    }

    /// A menu bar with every dropdown closed.
    pub fn new() -> (model: Self)
        ensures
            model.open_menu() == MenuId::Closed,
    {
        MenuModel { open: MenuId::Closed }
    }

    /// The menu that is open, `MenuId::Closed` if none is.
    #[verifier::when_used_as_spec(spec_open_menu)]
    pub fn open_menu(&self) -> (open: MenuId)
        ensures
            open == self.spec_open_menu(),
    {
        self.open
    }

    /// Whether some dropdown is showing.
    pub fn is_open(&self) -> (shown: bool)
        ensures
            shown == (self.open_menu() != MenuId::Closed),
    {
        self.open != MenuId::Closed
    }

    /// Reacts to a press on the menu-bar button of `target`: closes the
    /// dropdown if it is the one showing, otherwise shows it in place of
    /// whatever was open.
    pub fn toggle(&mut self, target: MenuId)
        ensures
            final(self).open_menu() == toggled(old(self).open_menu(), target),
    {
        if self.open == target {
            self.open = MenuId::Closed;
        } else {
            self.open = target;
        }
    }

    /// Closes whatever dropdown is showing.
    pub fn close(&mut self)
        ensures
            final(self).open_menu() == MenuId::Closed,
    {
        self.open = MenuId::Closed;
    }
}

/// After any non-empty run of button presses, the open menu is the target of
/// the last press if that target differed from the menu showing just before
/// it, and no menu is open if the last press hit the menu that was showing.
pub proof fn lemma_last_toggle_decides(open: MenuId, targets: Seq<MenuId>)
    requires
        targets.len() > 0,
    ensures
        toggled_all(open, targets) == if targets.last() == toggled_all(open, targets.drop_last()) {
            MenuId::Closed
        } else {
            targets.last()
        },
{
}

/// Pressing the same button twice in a row leaves no menu open when the
/// first press opened it, and reopens it when the first press closed it.
pub proof fn lemma_toggle_twice(open: MenuId, target: MenuId)
    ensures
        toggled(toggled(open, target), target) == if open == target || target == MenuId::Closed {
            target
        } else {
            MenuId::Closed
        },
{
}

} // verus!
