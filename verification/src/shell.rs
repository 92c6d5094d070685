//! The whole shell as one owned state: it takes input events one at a time,
//! says what the caller has to do next, and describes what is to be painted.

use crate::glyph::{saturated, GlyphTable};
use crate::listing::{listing_of, DirEntry, EntryView};
use crate::menu::{current_items, menu_items, toggled, MenuId, MenuItem, MenuModel, Platform};
use crate::placement::{anchor_offset, anchor_x, menu_bar, menu_bar_buttons, MenuButton};
use crate::sidebar::{clamp_width, SidebarLayout, INITIAL_SIDEBAR_WIDTH};
use crate::tabs::{index_view, text_view, TabError, TabRegistry, TabsView};
use crate::tree::{first_pending, rows_view, DirTree, TreeRow, TreeView};
use vstd::prelude::*;

verus! {

/// Something that happened at the input surface, or the outcome of a read
/// that an earlier [`Action`] asked for.
#[derive(Clone, Debug, PartialEq, Eq)]
pub enum Event {
    /// The menu-bar button of a menu was pressed.
    MenuButtonPressed(MenuId),
    /// The pointer was pressed outside the open dropdown and its button.
    OutsidePressed,
    /// The row of the directory at this path was pressed.
    DirectoryPressed(String),
    /// The directory at `path` was read; `read` is what the read gave.
    DirectoryRead { path: String, read: Option<Vec<Option<DirEntry>>> },
    /// The row of the file at this path was pressed.
    FilePressed(String),
    /// The file at `path` was read; `content` is its text if it could be
    /// read.
    FileRead { path: String, content: Option<String> },
    /// The tab at this position was pressed.
    TabPressed(usize),
    /// The close glyph of the tab at this position was pressed.
    TabClosePressed(usize),
    /// The divider between sidebar and editor was pressed.
    DividerPressed,
    /// The pointer moved to this horizontal position, in pixels.
    PointerMoved(i32),
    /// The pointer was released.
    PointerReleased,
}

/// What the caller has to do after an event was taken in.
#[derive(Clone, Debug, PartialEq, Eq)]
pub enum Action {
    /// Nothing changed; there is nothing to do.
    Idle,
    /// The state changed and is to be painted again.
    Redraw,
    /// The directory at this path was expanded: read it, hand the outcome
    /// back as [`Event::DirectoryRead`].
    ReadDirectory(String),
    /// The file at this path is to be shown and is not open yet: read it,
    /// hand the outcome back as [`Event::FileRead`].
    ReadFile(String),
    /// The event was turned down and nothing changed.
    Report(TabError),
}

/// An action as contracts see it.
pub enum ActionView {
    Idle,
    Redraw,
    ReadDirectory(Seq<char>),
    ReadFile(Seq<char>),
    Report(TabError),
}

impl View for Action {
    type V = ActionView;

    open spec fn view(&self) -> ActionView {
        match self {
            Action::Idle => ActionView::Idle,
            Action::Redraw => ActionView::Redraw,
            Action::ReadDirectory(path) => ActionView::ReadDirectory(path@),
            Action::ReadFile(path) => ActionView::ReadFile(path@),
            Action::Report(error) => ActionView::Report(*error),
        }
    }
}

/// The shell's state as contracts see it.
pub struct AppStateView {
    /// The menu whose dropdown is open, `MenuId::Closed` if none is.
    pub open_menu: MenuId,
    pub platform: Platform,
    /// The glyph-metrics table, by scalar value.
    pub glyphs: Map<u32, u32>,
    pub tree: TreeView,
    pub tabs: TabsView,
    /// The sidebar's width in pixels.
    pub sidebar_width: u32,
    /// Whether the sidebar is being resized.
    pub dragging: bool,
}

impl AppStateView {
    /// The parts are well formed.
    pub open spec fn wf(self) -> bool {
        self.tree.wf() && self.tabs.wf()
    }

    /// The state after `event`.
    pub open spec fn step(self, event: Event) -> AppStateView {
        match event {
            Event::MenuButtonPressed(menu) => AppStateView {
                open_menu: toggled(self.open_menu, menu),
                ..self
            },
            Event::OutsidePressed => AppStateView { open_menu: MenuId::Closed, ..self },
            Event::DirectoryPressed(path) => AppStateView {
                tree: self.tree.toggle_expand(path@),
                ..self
            },
            Event::DirectoryRead { path, read } => AppStateView {
                tree: self.tree.record_listing(path@, listing_of(read)),
                ..self
            },
            Event::FilePressed(path) => AppStateView {
                tabs: self.tabs.open_or_focus(path@, None),
                ..self
            },
            Event::FileRead { path, content } => AppStateView {
                tabs: self.tabs.open_or_focus(path@, text_view(content)),
                ..self
            },
            Event::TabPressed(index) => AppStateView {
                tabs: self.tabs.activate(index as nat),
                ..self
            },
            Event::TabClosePressed(index) => AppStateView {
                tabs: self.tabs.close(index as nat),
                ..self
            },
            Event::DividerPressed => AppStateView { dragging: true, ..self },
            Event::PointerMoved(x) => if self.dragging {
                AppStateView { sidebar_width: clamp_width(x as int) as u32, ..self }
            } else {
                self
            },
            Event::PointerReleased => AppStateView { dragging: false, ..self },
        }
    }

    /// What the caller has to do after `event` arrived in this state.
    pub open spec fn reaction(self, event: Event) -> ActionView {
        match event {
            Event::MenuButtonPressed(_) => ActionView::Redraw,
            Event::OutsidePressed => if self.open_menu == MenuId::Closed {
                ActionView::Idle
            } else {
                ActionView::Redraw
            },
            Event::DirectoryPressed(path) => if self.tree.expanded.contains(path@) {
                ActionView::Redraw
            } else {
                ActionView::ReadDirectory(path@)
            },
            Event::DirectoryRead { path, read } => if self.tree.expanded.contains(path@) {
                ActionView::Redraw
            } else {
                ActionView::Idle
            },
            Event::FilePressed(path) => if self.tabs.position(path@) is Some {
                ActionView::Redraw
            } else {
                ActionView::ReadFile(path@)
            },
            Event::FileRead { path, content } => if self.tabs.position(path@) is Some
                || content is Some {
                ActionView::Redraw
            } else {
                ActionView::Report(TabError::Unreadable)
            },
            Event::TabPressed(index) => if index < self.tabs.tabs.len() {
                ActionView::Redraw
            } else {
                ActionView::Report(TabError::NoSuchTab)
            },
            Event::TabClosePressed(index) => if index < self.tabs.tabs.len() {
                ActionView::Redraw
            } else {
                ActionView::Report(TabError::NoSuchTab)
            },
            Event::DividerPressed => ActionView::Redraw,
            Event::PointerMoved(_) => if self.dragging {
                ActionView::Redraw
            } else {
                ActionView::Idle
            },
            Event::PointerReleased => if self.dragging {
                ActionView::Redraw
            } else {
                ActionView::Idle
            },
        }
    }
}

/// A menu-bar button as it is painted.
#[derive(Clone, Copy, Debug, PartialEq, Eq)]
pub struct ButtonFrame {
    pub label: &'static str,
    pub menu: MenuId,
    /// Whether the button's dropdown is showing.
    pub open: bool,
}

/// The open dropdown as it is painted.
#[derive(Clone, Debug, PartialEq, Eq)]
pub struct Dropdown {
    /// Distance of the panel's left edge from the menu bar's left edge, in
    /// layout units.
    pub anchor_x: u64,
    pub items: Vec<MenuItem>,
}

/// A tab of the tab bar as it is painted.
#[derive(Clone, Debug, PartialEq, Eq)]
pub struct TabLabel {
    /// The path of the file that the tab shows.
    pub path: String,
    /// Whether this is the active tab.
    pub active: bool,
}

/// Everything that is painted for one state.
#[derive(Clone, Debug, PartialEq, Eq)]
pub struct Frame {
    /// The menu bar from left to right.
    pub buttons: Vec<ButtonFrame>,
    /// The open dropdown, if a menu is open.
    pub dropdown: Option<Dropdown>,
    /// The sidebar's width in pixels.
    pub sidebar_width: u32,
    /// The rows of the directory tree from the top down.
    pub tree: Vec<TreeRow>,
    /// The tab bar from left to right.
    pub tabs: Vec<TabLabel>,
    /// The text of the editor pane.
    pub content: String,
}

/// Whether `frame` paints `state`.
pub open spec fn paints(frame: Frame, state: AppStateView) -> bool {
    let bar = menu_bar_buttons();
    &&& frame.buttons@.len() == bar.len()
    &&& forall|i: int|
        0 <= i < bar.len() ==> {
            let button = #[trigger] frame.buttons@[i];
            &&& button.label == bar[i].label
            &&& button.menu == bar[i].menu
            &&& button.open == (bar[i].menu == state.open_menu)
        }
    &&& frame.dropdown is Some <==> state.open_menu != MenuId::Closed
    &&& frame.dropdown matches Some(dropdown) ==> {
        &&& dropdown.anchor_x == saturated(anchor_offset(state.glyphs, bar, state.open_menu))
        &&& dropdown.items@ == menu_items(state.open_menu, state.platform)
    }
    &&& frame.sidebar_width == state.sidebar_width
    &&& rows_view(frame.tree@) == state.tree.rows()
    &&& frame.tabs@.len() == state.tabs.tabs.len()
    &&& forall|i: int|
        0 <= i < state.tabs.tabs.len() ==> {
            let tab = #[trigger] frame.tabs@[i];
            &&& tab.path@ == state.tabs.tabs[i].path
            &&& tab.active == (state.tabs.active == Some(i as nat))
        }
    &&& frame.content@ == state.tabs.active_content()
}

/// The state of the whole shell, owned in one place and changed by one
/// event at a time.
pub struct AppState {
    menu: MenuModel,
    platform: Platform,
    glyphs: GlyphTable,
    tree: DirTree,
    tabs: TabRegistry,
    sidebar: SidebarLayout,
}

impl View for AppState {
    type V = AppStateView;

    closed spec fn view(&self) -> AppStateView {
        AppStateView {
            open_menu: self.menu.open_menu(),
            platform: self.platform,
            glyphs: self.glyphs@,
            tree: self.tree@,
            tabs: self.tabs@,
            sidebar_width: self.sidebar.width(),
            dragging: self.sidebar.is_dragging(),
        }
    }
}

impl AppState {
    /// The state at startup: no menu open, the directory at `root_path`,
    /// shown as `root_name`, collapsed at the top of the tree, no tabs, and
    /// the sidebar at its initial width.
    pub fn new(root_path: String, root_name: String, glyphs: GlyphTable, platform: Platform) -> (state:
        Self)
        ensures
            state@.open_menu == MenuId::Closed,
            state@.platform == platform,
            state@.glyphs == glyphs@,
            state@.tree.root.path == root_path@,
            state@.tree.root.name == root_name@,
            state@.tree.expanded == Set::<Seq<char>>::empty(),
            state@.tree.children == Map::<Seq<char>, Seq<EntryView>>::empty(),
            state@.tabs == TabsView::empty(),
            state@.sidebar_width == INITIAL_SIDEBAR_WIDTH,
            !state@.dragging,
            state@.wf(),
    {
        AppState {
            menu: MenuModel::new(),
            platform,
            glyphs,
            tree: DirTree::new(root_path, root_name),
            tabs: TabRegistry::new(),
            sidebar: SidebarLayout::new(),
        }
    }

    /// Makes known that the state is well formed, as it is at any time.
    pub fn confirm_well_formed(&self)
        ensures
            self@.wf(),
    {
        let _ = self.tree.root();
        let _ = self.tabs.active_index();
    }

    /// Takes in `event`, changes the state as [`AppStateView::step`] says
    /// and returns what [`AppStateView::reaction`] asks of the caller.
    pub fn update(&mut self, event: Event) -> (action: Action)
        ensures
            final(self)@ == old(self)@.step(event),
            action@ == old(self)@.reaction(event),
            final(self)@.wf(),
    {
        self.confirm_well_formed();
        match event {
            Event::MenuButtonPressed(menu) => {
                self.menu.toggle(menu);
                Action::Redraw
            },
            Event::OutsidePressed => {
                if self.menu.is_open() {
                    self.menu.close();
                    Action::Redraw
                } else {
                    Action::Idle
                }
            },
            Event::DirectoryPressed(path) => {
                if self.tree.toggle_expand(path.as_str()) {
                    Action::ReadDirectory(path)
                } else {
                    Action::Redraw
                }
            },
            Event::DirectoryRead { path, read } => {
                if self.tree.record_listing(path.as_str(), read) {
                    Action::Redraw
                } else {
                    Action::Idle
                }
            },
            Event::FilePressed(path) => {
                match self.tabs.focus_existing(path.as_str()) {
                    Some(_) => Action::Redraw,
                    None => Action::ReadFile(path),
                }
            },
            Event::FileRead { path, content } => {
                match self.tabs.open_or_focus(path, content) {
                    Ok(_) => Action::Redraw,
                    Err(error) => Action::Report(error),
                }
            },
            Event::TabPressed(index) => {
                match self.tabs.activate(index) {
                    Ok(()) => Action::Redraw,
                    Err(error) => Action::Report(error),
                }
            },
            Event::TabClosePressed(index) => {
                match self.tabs.close(index) {
                    Ok(()) => Action::Redraw,
                    Err(error) => Action::Report(error),
                }
            },
            Event::DividerPressed => {
                self.sidebar.begin_drag();
                Action::Redraw
            },
            Event::PointerMoved(x) => {
                if self.sidebar.update_drag(x) {
                    Action::Redraw
                } else {
                    Action::Idle
                }
            },
            Event::PointerReleased => {
                if self.sidebar.end_drag() {
                    Action::Redraw
                } else {
                    Action::Idle
                }
            },
        }
    }

    /// The first expanded directory, from the top down, whose children have
    /// not been read yet. The caller reads it and hands the outcome back as
    /// [`Event::DirectoryRead`].
    pub fn next_pending(&self) -> (pending: Option<String>)
        ensures
            match pending {
                Some(path) => first_pending(self@.tree.rows()) == Some(path@),
                None => first_pending(self@.tree.rows()) is None,
            },
    {
        self.tree.next_pending()
    }

    /// Drops the children read for every directory, so that the expanded
    /// ones are read anew.
    pub fn forget_listings(&mut self)
        ensures
            final(self)@ == (AppStateView {
                tree: old(self)@.tree.forget_listings(),
                ..old(self)@
            }),
            final(self)@.wf(),
    {
        self.confirm_well_formed();
        self.tree.forget_listings();
    }

    /// The rows of the project explorer from the top down.
    pub fn render_project_explorer(&self) -> (rows: Vec<TreeRow>)
        ensures
            rows_view(rows@) == self@.tree.rows(),
    {
        self.tree.render()
    }

    /// Describes everything that is painted for the current state: the menu
    /// bar with the open button marked, the open dropdown with its anchor
    /// offset and entries, the sidebar's width, the tree rows, the tab bar
    /// with the active tab marked, and the editor pane's text.
    pub fn render(&self) -> (frame: Frame)
        ensures
            paints(frame, self@),
    {
        let open = self.menu.open_menu();
        let bar = menu_bar();
        let mut buttons: Vec<ButtonFrame> = Vec::new();
        let mut i: usize = 0;
        while i < bar.len()
            invariant
                i <= bar.len(),
                bar@ == menu_bar_buttons(),
                buttons@.len() == i,
                forall|k: int|
                    0 <= k < i ==> {
                        let button = #[trigger] buttons@[k];
                        &&& button.label == bar@[k].label
                        &&& button.menu == bar@[k].menu
                        &&& button.open == (bar@[k].menu == open)
                    },
            decreases bar.len() - i,
        {
            let button: &MenuButton = &bar[i];
            buttons.push(
                ButtonFrame { label: button.label, menu: button.menu, open: button.menu == open },
            );
            i += 1;
        }
        let dropdown = if open == MenuId::Closed {
            None
        } else {
            Some(
                Dropdown {
                    anchor_x: anchor_x(open, bar.as_slice(), &self.glyphs),
                    items: current_items(open, self.platform),
                },
            )
        };
        let active = self.tabs.active_index();
        let mut tabs: Vec<TabLabel> = Vec::new();
        let mut j: usize = 0;
        while j < self.tabs.len()
            invariant
                j <= self.tabs@.tabs.len(),
                index_view(active) == self@.tabs.active,
                tabs@.len() == j,
                forall|k: int|
                    0 <= k < j ==> {
                        let tab = #[trigger] tabs@[k];
                        &&& tab.path@ == self@.tabs.tabs[k].path
                        &&& tab.active == (self@.tabs.active == Some(k as nat))
                    },
            decreases self.tabs@.tabs.len() - j,
        {
            if let Some(tab) = self.tabs.tab(j) {
                let is_active = match active {
                    Some(a) => a == j,
                    None => false,
                };
                tabs.push(TabLabel { path: tab.path.clone(), active: is_active });
            }
            j += 1;
        }
        Frame {
            buttons,
            dropdown,
            sidebar_width: self.sidebar.width(),
            tree: self.tree.render(),
            tabs,
            content: self.tabs.active_content().to_owned(),
        }
    }
}

} // verus!
