//! Where the open dropdown is anchored below the menu bar.

use crate::glyph::{saturated, text_width, GlyphTable, UNITS_PER_PIXEL};
use crate::menu::MenuId;
use vstd::prelude::*;

verus! {

/// Horizontal padding of a menu-bar button, both sides together, in layout
/// units.
pub const BUTTON_PADDING: u32 = 24 * UNITS_PER_PIXEL;

/// What is taken off a button's width to align the dropdown with the
/// button's visible edge, in layout units.
pub const BUTTON_CORRECTION: u32 = 1 * UNITS_PER_PIXEL;

/// One button of the menu bar: what it shows and which dropdown it opens.
#[derive(Clone, Copy, Debug, PartialEq, Eq)]
pub struct MenuButton {
    pub label: &'static str,
    pub menu: MenuId,
}

/// Width of a button labelled `label`: the label's text width plus the
/// padding, less the correction.
pub open spec fn button_width(table: Map<u32, u32>, label: Seq<char>) -> nat {
    (text_width(table, label) + BUTTON_PADDING - BUTTON_CORRECTION) as nat
}

/// Index of the first button in `buttons` that opens `menu`; the number of
/// buttons if none does.
pub open spec fn button_position(buttons: Seq<MenuButton>, menu: MenuId) -> nat
    decreases buttons.len(),
{
    if buttons.len() == 0 {
        0
    } else if buttons[0].menu == menu {
        0
    } else {
        1 + button_position(buttons.drop_first(), menu)
    }
}

/// Total width of the first `count` buttons of `buttons`.
pub open spec fn widths_before(table: Map<u32, u32>, buttons: Seq<MenuButton>, count: nat) -> nat
    decreases count,
{
    if count == 0 || count > buttons.len() {
        0
    } else {
        widths_before(table, buttons, (count - 1) as nat) + button_width(
            table,
            buttons[count - 1].label@,
        )
    }
}

/// Distance from the menu bar's left edge to the left edge of the dropdown
/// of `open`: the total width of the buttons before the first one that opens
/// it (of all buttons when none does), and 0 when no menu is open.
pub open spec fn anchor_offset(table: Map<u32, u32>, buttons: Seq<MenuButton>, open: MenuId) -> nat {
    if open == MenuId::Closed {
        0
    } else {
        widths_before(table, buttons, button_position(buttons, open))
    }
}

/// The buttons of the menu bar from left to right.
pub open spec fn menu_bar_buttons() -> Seq<MenuButton> {
    seq![
        MenuButton { label: "File", menu: MenuId::File },
        MenuButton { label: "Edit", menu: MenuId::Edit },
        MenuButton { label: "Selection", menu: MenuId::Selection },
        MenuButton { label: "Find", menu: MenuId::Find },
        MenuButton { label: "View", menu: MenuId::View },
        MenuButton { label: "Goto", menu: MenuId::Goto },
        MenuButton { label: "Tools", menu: MenuId::Tools },
        MenuButton { label: "Project", menu: MenuId::Project },
        MenuButton { label: "Preferences", menu: MenuId::Preferences },
        MenuButton { label: "Help", menu: MenuId::Help },
    ]
}

/// The buttons of the menu bar from left to right: one for each menu.
pub fn menu_bar() -> (buttons: Vec<MenuButton>)
    ensures
        buttons@ == menu_bar_buttons(),
{
    let buttons = vec![
        MenuButton { label: "File", menu: MenuId::File },
        MenuButton { label: "Edit", menu: MenuId::Edit },
        MenuButton { label: "Selection", menu: MenuId::Selection },
        MenuButton { label: "Find", menu: MenuId::Find },
        MenuButton { label: "View", menu: MenuId::View },
        MenuButton { label: "Goto", menu: MenuId::Goto },
        MenuButton { label: "Tools", menu: MenuId::Tools },
        MenuButton { label: "Project", menu: MenuId::Project },
        MenuButton { label: "Preferences", menu: MenuId::Preferences },
        MenuButton { label: "Help", menu: MenuId::Help },
    ];
    assert(buttons@ =~= menu_bar_buttons());
    buttons
}

/// Width of a button labelled `label`, saturating at `u64::MAX`.
pub fn measure_button(table: &GlyphTable, label: &str) -> (width: u64)
    ensures
        width == saturated(button_width(table@, label@)),
{
    table.measure(label).saturating_add((BUTTON_PADDING - BUTTON_CORRECTION) as u64)
}

/// Computes the anchor offset of the dropdown of `open`, in layout units,
/// saturating at `u64::MAX`.
pub fn anchor_x(open: MenuId, buttons: &[MenuButton], table: &GlyphTable) -> (x: u64)
    ensures
        x == saturated(anchor_offset(table@, buttons@, open)),
{
    if open == MenuId::Closed {
        return 0;
    }
    let mut x: u64 = 0;
    let mut i: usize = 0;
    while i < buttons.len() && buttons[i].menu != open
        invariant
            i <= buttons.len(),
            forall|k: int| 0 <= k < i ==> buttons[k].menu != open,
            x == saturated(widths_before(table@, buttons@, i as nat)),
        decreases buttons.len() - i,
    {
        x = x.saturating_add(measure_button(table, buttons[i].label));
        i += 1;
    }
    proof {
        lemma_position_is_first(buttons@, open, i as nat);
    }
    x
}

/// `at` is the position of `menu` when no earlier button opens `menu` and
/// either the button at `at` does or `at` is past the last button.
pub proof fn lemma_position_is_first(buttons: Seq<MenuButton>, menu: MenuId, at: nat)
    requires
        at <= buttons.len(),
        forall|k: int| 0 <= k < at ==> buttons[k].menu != menu,
        at < buttons.len() ==> buttons[at as int].menu == menu,
    ensures
        button_position(buttons, menu) == at,
    decreases buttons.len(),
{
    if buttons.len() > 0 && at > 0 {
        let rest = buttons.drop_first();
        assert forall|k: int| 0 <= k < at - 1 implies rest[k].menu != menu by {
            assert(rest[k] == buttons[k + 1]);
        }
        lemma_position_is_first(rest, menu, (at - 1) as nat);
    }
}

/// The total width of the leading buttons grows with their number.
pub proof fn lemma_widths_before_monotonic(
    table: Map<u32, u32>,
    buttons: Seq<MenuButton>,
    fewer: nat,
    more: nat,
)
    requires
        fewer <= more <= buttons.len(),
    ensures
        widths_before(table, buttons, fewer) <= widths_before(table, buttons, more),
    decreases more,
{
    if fewer < more {
        lemma_widths_before_monotonic(table, buttons, fewer, (more - 1) as nat);
    }
}

/// The position of a menu never lies past the end of the bar.
pub proof fn lemma_position_in_bounds(buttons: Seq<MenuButton>, menu: MenuId)
    ensures
        button_position(buttons, menu) <= buttons.len(),
    decreases buttons.len(),
{
    if buttons.len() > 0 && buttons[0].menu != menu {
        lemma_position_in_bounds(buttons.drop_first(), menu);
    }
}

/// For a fixed bar and glyph table the anchor offset never shrinks as the
/// open menu moves to the right: if `left` stands no later in the bar than
/// `right`, the dropdown of `left` is anchored no further right than that of
/// `right`. `right` must name a menu, since with no menu open the offset is 0.
pub proof fn lemma_anchor_monotonic(
    table: Map<u32, u32>,
    buttons: Seq<MenuButton>,
    left: MenuId,
    right: MenuId,
)
    requires
        right != MenuId::Closed,
        button_position(buttons, left) <= button_position(buttons, right),
    ensures
        anchor_offset(table, buttons, left) <= anchor_offset(table, buttons, right),
        saturated(anchor_offset(table, buttons, left)) <= saturated(
            anchor_offset(table, buttons, right),
        ),
{
    lemma_position_in_bounds(buttons, right);
    lemma_widths_before_monotonic(
        table,
        buttons,
        button_position(buttons, left),
        button_position(buttons, right),
    );
}

/// Whether no two buttons of `buttons` open the same menu.
pub open spec fn distinct_menus(buttons: Seq<MenuButton>) -> bool {
    forall|i: int, j: int| 0 <= i < j < buttons.len() ==> buttons[i].menu != buttons[j].menu
}

/// Along a bar in which every button opens a menu of its own, the anchor
/// offset never shrinks from one button to a button further right, whatever
/// the glyph table holds.
pub proof fn lemma_anchor_grows_along_bar(
    table: Map<u32, u32>,
    buttons: Seq<MenuButton>,
    left: int,
    right: int,
)
    requires
        distinct_menus(buttons),
        0 <= left <= right < buttons.len(),
        buttons[right].menu != MenuId::Closed,
    ensures
        anchor_offset(table, buttons, buttons[left].menu) <= anchor_offset(
            table,
            buttons,
            buttons[right].menu,
        ),
{
    lemma_position_is_first(buttons, buttons[left].menu, left as nat);
    lemma_position_is_first(buttons, buttons[right].menu, right as nat);
    lemma_anchor_monotonic(table, buttons, buttons[left].menu, buttons[right].menu);
}

/// In the menu bar every menu has its button, and the buttons stand in the
/// order in which `MenuId` lists the menus.
pub proof fn lemma_menu_bar_positions(menu: MenuId)
    ensures
        button_position(menu_bar_buttons(), menu) == match menu {
            MenuId::File => 0nat,
            MenuId::Edit => 1,
            MenuId::Selection => 2,
            MenuId::Find => 3,
            MenuId::View => 4,
            MenuId::Goto => 5,
            MenuId::Tools => 6,
            MenuId::Project => 7,
            MenuId::Preferences => 8,
            MenuId::Help => 9,
            MenuId::Closed => 10,
        },
{
    let bar = menu_bar_buttons();
    let at: nat = match menu {
        MenuId::File => 0nat,
        MenuId::Edit => 1,
        MenuId::Selection => 2,
        MenuId::Find => 3,
        MenuId::View => 4,
        MenuId::Goto => 5,
        MenuId::Tools => 6,
        MenuId::Project => 7,
        MenuId::Preferences => 8,
        MenuId::Help => 9,
        MenuId::Closed => 10,
    };
    lemma_position_is_first(bar, menu, at);
}

} // verus!
