//! The registry of open file tabs: their order, their loaded contents and
//! which one is shown.

use crate::text::same_text;
use vstd::prelude::*;

verus! {

/// What the editor pane shows while no tab is active.
pub const PLACEHOLDER_TEXT: &'static str = "Hello, Sublime-rust!";

/// Why a request to the tab registry was turned down.
#[derive(Clone, Copy, Debug, PartialEq, Eq, Structural)]
pub enum TabError {
    /// The file is not open yet and its content could not be loaded.
    Unreadable,
    /// The index names no open tab.
    NoSuchTab,
}

/// One open tab as contracts see it.
pub struct TabView {
    /// The file's path, which identifies the tab.
    pub path: Seq<char>,
    /// The file's text as it was when the tab was opened.
    pub content: Seq<char>,
}

/// Position of the tab for `path` among `tabs`, if there is one.
pub open spec fn tab_position(tabs: Seq<TabView>, path: Seq<char>) -> Option<nat>
    decreases tabs.len(),
{
    if tabs.len() == 0 {
        None
    } else if tabs[0].path == path {
        Some(0)
    } else {
        match tab_position(tabs.drop_first(), path) {
            Some(i) => Some(i + 1),
            None => None,
        }
    }
}

/// The active index `active` brought back into a sequence of `len` tabs:
/// nothing is active among no tabs, and an index past the end falls back to
/// the last tab.
pub open spec fn renormalized(active: Option<nat>, len: nat) -> Option<nat> {
    match active {
        None => None,
        Some(a) => if len == 0 {
            None
        } else if a >= len {
            Some((len - 1) as nat)
        } else {
            Some(a)
        },
    }
}

/// The registry as contracts see it: the tabs in their visual order and the
/// position of the active one.
pub struct TabsView {
    pub tabs: Seq<TabView>,
    pub active: Option<nat>,
}

impl TabsView {
    /// No tab is active exactly when there are no tabs, an active index names
    /// a tab, and no two tabs show the same path.
    pub open spec fn wf(self) -> bool {
        &&& self.active is None <==> self.tabs.len() == 0
        &&& self.active matches Some(a) ==> a < self.tabs.len()
        &&& forall|i: int, j: int|
            0 <= i < j < self.tabs.len() ==> self.tabs[i].path != self.tabs[j].path
    }

    /// The registry without tabs.
    pub open spec fn empty() -> TabsView {
        TabsView { tabs: Seq::empty(), active: None }
    }

    /// Position of the tab for `path`, if it is open.
    pub open spec fn position(self, path: Seq<char>) -> Option<nat> {
        tab_position(self.tabs, path)
    }

    /// The registry after a request to show `path`, where `loaded` is the
    /// file's text if it could be read. An open tab is brought forward as it
    /// is; otherwise a readable file gets a new tab at the end, which becomes
    /// active, and an unreadable one changes nothing.
    pub open spec fn open_or_focus(self, path: Seq<char>, loaded: Option<Seq<char>>) -> TabsView {
        match self.position(path) {
            Some(i) => TabsView { tabs: self.tabs, active: Some(i) },
            None => match loaded {
                Some(content) => TabsView {
                    tabs: self.tabs.push(TabView { path, content }),
                    active: Some(self.tabs.len()),
                },
                None => self,
            },
        }
    }

    /// The registry after the tab at `index` is closed: the tab is gone and
    /// the active index is renormalized. An `index` that names no tab changes
    /// nothing.
    pub open spec fn close(self, index: nat) -> TabsView {
        if index < self.tabs.len() {
            TabsView {
                tabs: self.tabs.remove(index as int),
                active: renormalized(self.active, (self.tabs.len() - 1) as nat),
            }
        } else {
            self
        }
    }

    /// The registry after the tab at `index` is selected. An `index` that
    /// names no tab changes nothing.
    pub open spec fn activate(self, index: nat) -> TabsView {
        if index < self.tabs.len() {
            TabsView { tabs: self.tabs, active: Some(index) }
        } else {
            self
        }
    }

    /// The text of the active tab, or the placeholder when none is active.
    pub open spec fn active_content(self) -> Seq<char> {
        match self.active {
            Some(a) if a < self.tabs.len() => self.tabs[a as int].content,
            _ => PLACEHOLDER_TEXT@,
        }
    }

    /// The loaded contents by path: one entry for each open tab.
    pub open spec fn cache(self) -> Map<Seq<char>, Seq<char>> {
        Map::new(
            |path: Seq<char>| self.position(path) is Some,
            |path: Seq<char>| self.tabs[self.position(path).unwrap() as int].content,
        )
    }
}

/// A request to the registry as contracts see it.
pub enum TabCall {
    /// Show the file at `path`, whose text is `loaded` if it could be read.
    OpenOrFocus { path: Seq<char>, loaded: Option<Seq<char>> },
    /// Close the tab at `index`.
    Close { index: nat },
    /// Select the tab at `index`.
    Activate { index: nat },
}

impl TabsView {
    /// The registry after `call`.
    pub open spec fn after(self, call: TabCall) -> TabsView {
        match call {
            TabCall::OpenOrFocus { path, loaded } => self.open_or_focus(path, loaded),
            TabCall::Close { index } => self.close(index),
            TabCall::Activate { index } => self.activate(index),
        }
    }

    /// The registry after the requests `calls`, one after the other.
    pub open spec fn after_all(self, calls: Seq<TabCall>) -> TabsView
        decreases calls.len(),
    {
        if calls.len() == 0 {
            self
        } else {
            self.after_all(calls.drop_last()).after(calls.last())
        }
    }
}

/// An index as contracts see it.
pub open spec fn index_view(index: Option<usize>) -> Option<nat> {
    match index {
        Some(i) => Some(i as nat),
        None => None,
    }
}

/// A loaded text as contracts see it.
pub open spec fn text_view(text: Option<String>) -> Option<Seq<char>> {
    match text {
        Some(t) => Some(t@),
        None => None,
    }
}

/// One open tab: a file's path and the text loaded from it.
#[derive(Clone, Debug, PartialEq, Eq)]
pub struct Tab {
    pub path: String,
    pub content: String,
}

impl View for Tab {
    type V = TabView;

    open spec fn view(&self) -> TabView {
        TabView { path: self.path@, content: self.content@ }
    }
}

/// The open tabs in their visual order, together with the active one.
///
/// At any time no tab is active exactly when there are no tabs, the active
/// index names a tab, and no path is open in two tabs.
pub struct TabRegistry {
    tabs: Vec<Tab>,
    active: Option<usize>,
}

impl View for TabRegistry {
    type V = TabsView;

    closed spec fn view(&self) -> TabsView {
        TabsView { tabs: self.tabs@.map_values(|t: Tab| t@), active: index_view(self.active) }
    }
}

impl TabRegistry {
    #[verifier::type_invariant]
    spec fn well_formed(self) -> bool {
        self@.wf()
    }

    /// A registry without tabs.
    pub fn new() -> (registry: Self)
        ensures
            registry@ == TabsView::empty(),
    {
        let registry = TabRegistry { tabs: Vec::new(), active: None };
        assert(registry@.tabs =~= Seq::empty());
        registry
    }

    /// Takes the parts out, leaving an empty registry behind.
    fn take(&mut self) -> (parts: (Vec<Tab>, Option<usize>))
        ensures
            final(self)@ == TabsView::empty(),
            old(self)@.wf(),
            old(self)@ == (TabsView {
                tabs: parts.0@.map_values(|t: Tab| t@),
                active: index_view(parts.1),
            }),
    {
        proof {
            use_type_invariant(&*self);
        }
        let mut taken = TabRegistry::new();
        std::mem::swap(self, &mut taken);
        let TabRegistry { tabs, active } = taken;
        (tabs, active)
    }

    /// Number of open tabs.
    pub fn len(&self) -> (count: usize)
        ensures
            count == self@.tabs.len(),
    {
        self.tabs.len()
    }

    /// Position of the active tab; `None` exactly when no tab is open.
    pub fn active_index(&self) -> (active: Option<usize>)
        ensures
            index_view(active) == self@.active,
            self@.wf(),
    {
        proof {
            use_type_invariant(self);
        }
        self.active
    }

    /// The tab at `index`, if there is one.
    pub fn tab(&self, index: usize) -> (tab: Option<&Tab>)
        ensures
            tab is Some <==> index < self@.tabs.len(),
            tab matches Some(t) ==> t@ == self@.tabs[index as int],
    {
        if index < self.tabs.len() {
            Some(&self.tabs[index])
        } else {
            None
        }
    }

    /// Position of the tab that shows `path`, if it is open.
    pub fn find(&self, path: &str) -> (found: Option<usize>)
        ensures
            index_view(found) == self@.position(path@),
    {
        let mut i: usize = 0;
        while i < self.tabs.len()
            invariant
                i <= self.tabs.len(),
                forall|k: int| 0 <= k < i ==> self@.tabs[k].path != path@,
            decreases self.tabs.len() - i,
        {
            if same_text(self.tabs[i].path.as_str(), path) {
                proof {
                    lemma_position_is_first(self@.tabs, path@, i as nat);
                }
                return Some(i);
            }
            i += 1;
        }
        proof {
            lemma_position_is_first(self@.tabs, path@, i as nat);
        }
        None
    }

    /// Brings the tab for `path` forward if it is open, and says where it is.
    /// Without such a tab nothing changes; the caller then loads the file and
    /// hands it to [`TabRegistry::open_or_focus`].
    pub fn focus_existing(&mut self, path: &str) -> (focused: Option<usize>)
        ensures
            index_view(focused) == old(self)@.position(path@),
            final(self)@ == old(self)@.open_or_focus(path@, None),
            final(self)@.wf(),
    {
        let found = self.find(path);
        if let Some(i) = found {
            let (tabs, _) = self.take();
            proof {
                lemma_position_is_some(old(self)@.tabs, path@);
            }
            *self = TabRegistry { tabs, active: Some(i) };
        } else {
            proof {
                use_type_invariant(&*self);
            }
        }
        found
    }

    /// Shows the file at `path`, where `loaded` is its text if it could be
    /// read. If the file is open already its tab becomes active and `loaded`
    /// is ignored. Otherwise a readable file gets a new tab at the end, which
    /// becomes active; an unreadable one is reported as
    /// [`TabError::Unreadable`] and changes nothing. On success the position
    /// of the file's tab is returned.
    pub fn open_or_focus(&mut self, path: String, loaded: Option<String>) -> (opened: Result<
        usize,
        TabError,
    >)
        ensures
            final(self)@ == old(self)@.open_or_focus(path@, text_view(loaded)),
            final(self)@.wf(),
            match opened {
                Ok(i) => {
                    &&& old(self)@.position(path@) is Some || loaded is Some
                    &&& final(self)@.active == Some(i as nat)
                    &&& final(self)@.position(path@) == Some(i as nat)
                },
                Err(e) => {
                    &&& e == TabError::Unreadable
                    &&& old(self)@.position(path@) is None
                    &&& loaded is None
                },
            },
    {
        let found = self.find(path.as_str());
        proof {
            use_type_invariant(&*self);
            lemma_position_is_some(self@.tabs, path@);
            lemma_open_or_focus_wf(self@, path@, text_view(loaded));
        }
        match found {
            Some(i) => {
                let (tabs, _) = self.take();
                *self = TabRegistry { tabs, active: Some(i) };
                Ok(i)
            },
            None => match loaded {
                Some(content) => {
                    let (mut tabs, _) = self.take();
                    let last = tabs.len();
                    tabs.push(Tab { path, content });
                    proof {
                        assert(tabs@.map_values(|t: Tab| t@) =~= old(self)@.tabs.push(
                            TabView { path: path@, content: content@ },
                        ));
                        lemma_position_is_first(
                            old(self)@.open_or_focus(path@, text_view(loaded)).tabs,
                            path@,
                            last as nat,
                        );
                    }
                    *self = TabRegistry { tabs, active: Some(last) };
                    Ok(last)
                },
                None => Err(TabError::Unreadable),
            },
        }
    }

    /// Closes the tab at `index` and drops its loaded text. The active index
    /// keeps its value unless it then points past the last tab, in which case
    /// it falls back to the last tab, or to none if no tab is left. An
    /// `index` that names no tab is reported as [`TabError::NoSuchTab`] and
    /// changes nothing.
    pub fn close(&mut self, index: usize) -> (closed: Result<(), TabError>)
        ensures
            final(self)@ == old(self)@.close(index as nat),
            final(self)@.wf(),
            closed is Ok <==> index < old(self)@.tabs.len(),
            closed matches Err(e) ==> e == TabError::NoSuchTab,
    {
        proof {
            use_type_invariant(&*self);
            lemma_close_wf(self@, index as nat);
        }
        if index >= self.tabs.len() {
            return Err(TabError::NoSuchTab);
        }
        let (mut tabs, active) = self.take();
        tabs.remove(index);
        proof {
            assert(tabs@.map_values(|t: Tab| t@) =~= old(self)@.tabs.remove(index as int));
        }
        let active = normalize_active(active, tabs.len());
        *self = TabRegistry { tabs, active };
        Ok(())
    }

    /// Makes the tab at `index` the active one. An `index` that names no tab
    /// is reported as [`TabError::NoSuchTab`] and changes nothing.
    pub fn activate(&mut self, index: usize) -> (activated: Result<(), TabError>)
        ensures
            final(self)@ == old(self)@.activate(index as nat),
            final(self)@.wf(),
            activated is Ok <==> index < old(self)@.tabs.len(),
            activated matches Err(e) ==> e == TabError::NoSuchTab,
    {
        proof {
            use_type_invariant(&*self);
        }
        if index >= self.tabs.len() {
            return Err(TabError::NoSuchTab);
        }
        let (tabs, _) = self.take();
        *self = TabRegistry { tabs, active: Some(index) };
        Ok(())
    }

    /// The text of the active tab, or [`PLACEHOLDER_TEXT`] when no tab is
    /// active.
    pub fn active_content(&self) -> (text: &str)
        ensures
            text@ == self@.active_content(),
    {
        proof {
            use_type_invariant(self);
        }
        match self.active {
            Some(a) => self.tabs[a].content.as_str(),
            None => PLACEHOLDER_TEXT,
        }
    }

    /// The loaded text for `path`, if a tab shows it.
    pub fn cached_content(&self, path: &str) -> (text: Option<&str>)
        ensures
            text is Some <==> self@.cache().contains_key(path@),
            text matches Some(t) ==> t@ == self@.cache()[path@],
    {
        proof {
            lemma_position_is_some(self@.tabs, path@);
        }
        match self.find(path) {
            Some(i) => Some(self.tabs[i].content.as_str()),
            None => None,
        }
    }
}

/// Brings an active index back into a sequence of `len` tabs.
pub fn normalize_active(active: Option<usize>, len: usize) -> (normalized: Option<usize>)
    ensures
        index_view(normalized) == renormalized(index_view(active), len as nat),
{
    match active {
        None => None,
        Some(a) => if len == 0 {
            None
        } else if a >= len {
            Some(len - 1)
        } else {
            Some(a)
        },
    }
}

/// `at` is the position of `path` when no earlier tab shows `path` and
/// either the tab at `at` does or `at` is past the last tab.
pub proof fn lemma_position_is_first(tabs: Seq<TabView>, path: Seq<char>, at: nat)
    requires
        at <= tabs.len(),
        forall|k: int| 0 <= k < at ==> tabs[k].path != path,
        at < tabs.len() ==> tabs[at as int].path == path,
    ensures
        tab_position(tabs, path) == if at < tabs.len() {
            Some(at)
        } else {
            None
        },
    decreases tabs.len(),
{
    if tabs.len() > 0 && at > 0 {
        let rest = tabs.drop_first();
        assert forall|k: int| 0 <= k < at - 1 implies rest[k].path != path by {
            assert(rest[k] == tabs[k + 1]);
        }
        lemma_position_is_first(rest, path, (at - 1) as nat);
    }
}

/// A position that is found names the first tab that shows `path`; none is
/// found only when no tab shows it.
pub proof fn lemma_position_is_some(tabs: Seq<TabView>, path: Seq<char>)
    ensures
        match tab_position(tabs, path) {
            Some(i) => {
                &&& i < tabs.len()
                &&& tabs[i as int].path == path
                &&& forall|k: int| 0 <= k < i ==> tabs[k].path != path
            },
            None => forall|k: int| 0 <= k < tabs.len() ==> tabs[k].path != path,
        },
    decreases tabs.len(),
{
    if tabs.len() > 0 && tabs[0].path != path {
        let rest = tabs.drop_first();
        lemma_position_is_some(rest, path);
        match tab_position(rest, path) {
            Some(i) => {
                assert forall|k: int| 0 <= k < i + 1 implies tabs[k].path != path by {
                    if k > 0 {
                        assert(tabs[k] == rest[k - 1]);
                    }
                }
            },
            None => {
                assert forall|k: int| 0 <= k < tabs.len() implies tabs[k].path != path by {
                    if k > 0 {
                        assert(tabs[k] == rest[k - 1]);
                    }
                }
            },
        }
    }
}

/// Showing a file keeps the registry well formed.
pub proof fn lemma_open_or_focus_wf(tabs: TabsView, path: Seq<char>, loaded: Option<Seq<char>>)
    requires
        tabs.wf(),
    ensures
        tabs.open_or_focus(path, loaded).wf(),
{
    lemma_position_is_some(tabs.tabs, path);
}

/// Closing a tab keeps the registry well formed.
pub proof fn lemma_close_wf(tabs: TabsView, index: nat)
    requires
        tabs.wf(),
    ensures
        tabs.close(index).wf(),
{
}

/// Selecting a tab keeps the registry well formed.
pub proof fn lemma_activate_wf(tabs: TabsView, index: nat)
    requires
        tabs.wf(),
    ensures
        tabs.activate(index).wf(),
{
}

/// After any sequence of requests to show, close and select, no tab is
/// active exactly when no tab is open, the active index names a tab, and no
/// path is open twice.
pub proof fn lemma_wf_after_any_calls(tabs: TabsView, calls: Seq<TabCall>)
    requires
        tabs.wf(),
    ensures
        tabs.after_all(calls).wf(),
        tabs.after_all(calls).active is None <==> tabs.after_all(calls).tabs.len() == 0,
        tabs.after_all(calls).active matches Some(a) ==> a < tabs.after_all(calls).tabs.len(),
    decreases calls.len(),
{
    if calls.len() > 0 {
        lemma_wf_after_any_calls(tabs, calls.drop_last());
        let before = tabs.after_all(calls.drop_last());
        match calls.last() {
            TabCall::OpenOrFocus { path, loaded } => lemma_open_or_focus_wf(before, path, loaded),
            TabCall::Close { index } => lemma_close_wf(before, index),
            TabCall::Activate { index } => lemma_activate_wf(before, index),
        }
    }
}

/// Showing the same file twice leaves exactly one tab for it, and the active
/// index points at that tab after the first request and after the second.
/// The first request must succeed: the file is open already or its text was
/// read.
pub proof fn lemma_open_twice(
    tabs: TabsView,
    path: Seq<char>,
    first: Option<Seq<char>>,
    second: Option<Seq<char>>,
)
    requires
        tabs.wf(),
        tabs.position(path) is Some || first is Some,
    ensures
        ({
            let once = tabs.open_or_focus(path, first);
            let twice = once.open_or_focus(path, second);
            &&& twice.wf()
            &&& twice.tabs == once.tabs
            &&& once.position(path) is Some
            &&& once.active == once.position(path)
            &&& twice.active == once.position(path)
            &&& forall|k: int|
                0 <= k < twice.tabs.len() && twice.tabs[k].path == path ==> Some(k as nat)
                    == twice.position(path)
        }),
{
    let once = tabs.open_or_focus(path, first);
    lemma_open_or_focus_wf(tabs, path, first);
    lemma_position_is_some(tabs.tabs, path);
    if tabs.position(path) is None {
        lemma_position_is_first(once.tabs, path, tabs.tabs.len());
    }
    lemma_position_is_some(once.tabs, path);
    let twice = once.open_or_focus(path, second);
    assert forall|k: int| 0 <= k < twice.tabs.len() && twice.tabs[k].path == path implies Some(
        k as nat,
    ) == twice.position(path) by {
        let i = twice.position(path)->0 as int;
        if k < i {
            assert(twice.tabs[k].path != twice.tabs[i].path);
        } else if i < k {
            assert(twice.tabs[i].path != twice.tabs[k].path);
        }
    }
}

/// The loaded contents go with the tabs: a path has a cached text exactly
/// when a tab shows it, and the text is that tab's.
pub proof fn lemma_cache_follows_tabs(tabs: TabsView, index: int)
    requires
        tabs.wf(),
        0 <= index < tabs.tabs.len(),
    ensures
        tabs.cache().contains_key(tabs.tabs[index].path),
        tabs.cache()[tabs.tabs[index].path] == tabs.tabs[index].content,
        forall|path: Seq<char>|
            tabs.cache().contains_key(path) <==> exists|k: int|
                0 <= k < tabs.tabs.len() && tabs.tabs[k].path == path,
{
    let path = tabs.tabs[index].path;
    lemma_position_is_some(tabs.tabs, path);
    let i = tabs.position(path)->0 as int;
    if i < index {
        assert(tabs.tabs[i].path != tabs.tabs[index].path);
    }
    assert forall|p: Seq<char>| tabs.cache().contains_key(p) <==> exists|k: int|
        0 <= k < tabs.tabs.len() && tabs.tabs[k].path == p by {
        lemma_position_is_some(tabs.tabs, p);
        if tabs.cache().contains_key(p) {
            let k = tabs.position(p)->0 as int;
            assert(0 <= k < tabs.tabs.len() && tabs.tabs[k].path == p);
        }
    }
}

} // verus!
