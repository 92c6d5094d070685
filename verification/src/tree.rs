//! The directory tree of the sidebar: which directories are expanded, the
//! children that have been read for them, and the rows that are shown.
//!
//! The tree never reads a directory itself. After a directory is expanded
//! the caller reads it and hands the outcome to [`DirTree::record_listing`];
//! [`DirTree::next_pending`] names the directories that still wait for that.

use crate::listing::{entries_view, list_children, listing_of, DirEntry, EntryView};
use crate::text::same_text;
use vstd::prelude::*;

verus! {

/// Deepest level of nesting that is shown; a directory at this depth stays
/// collapsed.
pub const MAX_DEPTH: usize = 256;

/// What a row of the tree stands for.
#[derive(Clone, Copy, Debug, PartialEq, Eq, Structural)]
pub enum RowKind {
    /// A file.
    File,
    /// A directory that shows no children: it is not expanded, or expanding
    /// it was refused.
    CollapsedDir,
    /// An expanded directory whose children have not been read yet.
    PendingDir,
    /// An expanded directory followed by the rows of its children.
    OpenDir,
}

/// One row of the tree.
#[derive(Clone, Debug, PartialEq, Eq)]
pub struct TreeRow {
    /// The path of the entry shown.
    pub path: String,
    /// The name shown.
    pub name: String,
    /// How many directories the row is nested in; the root is at 0.
    pub depth: usize,
    pub kind: RowKind,
}

/// A row as contracts see it.
pub struct RowView {
    pub path: Seq<char>,
    pub name: Seq<char>,
    pub depth: nat,
    pub kind: RowKind,
}

impl View for TreeRow {
    type V = RowView;

    open spec fn view(&self) -> RowView {
        RowView { path: self.path@, name: self.name@, depth: self.depth as nat, kind: self.kind }
    }
}

/// The rows of `rows` as contracts see them.
pub open spec fn rows_view(rows: Seq<TreeRow>) -> Seq<RowView> {
    rows.map_values(|r: TreeRow| r@)
}

/// The texts of `texts` as contracts see them.
pub open spec fn texts_view(texts: Seq<&str>) -> Seq<Seq<char>> {
    texts.map_values(|t: &str| t@)
}

/// The tree as contracts see it.
pub struct TreeView {
    /// The directory at the top.
    pub root: EntryView,
    /// The paths of the directories that are expanded.
    pub expanded: Set<Seq<char>>,
    /// The children read for expanded directories, by path, in the order of
    /// display.
    pub children: Map<Seq<char>, Seq<EntryView>>,
}

impl TreeView {
    /// The top is a directory, and children are kept for expanded
    /// directories only.
    pub open spec fn wf(self) -> bool {
        &&& self.root.is_dir
        &&& self.children.dom().subset_of(self.expanded)
    }

    /// The tree after the row of directory `path` is pressed: an expanded
    /// directory is collapsed and its children are dropped, a collapsed one
    /// is expanded. Nothing else changes; in particular the directories
    /// below stay as they are.
    pub open spec fn toggle_expand(self, path: Seq<char>) -> TreeView {
        if self.expanded.contains(path) {
            TreeView {
                root: self.root,
                expanded: self.expanded.remove(path),
                children: self.children.remove(path),
            }
        } else {
            TreeView {
                root: self.root,
                expanded: self.expanded.insert(path),
                children: self.children,
            }
        }
    }

    /// The tree after `listing` was read for directory `path`: an expanded
    /// directory gets these children, for any other the listing is dropped.
    pub open spec fn record_listing(self, path: Seq<char>, listing: Seq<EntryView>) -> TreeView {
        if self.expanded.contains(path) {
            TreeView {
                root: self.root,
                expanded: self.expanded,
                children: self.children.insert(path, listing),
            }
        } else {
            self
        }
    }

    /// The tree with all children dropped and every directory expanded as
    /// before.
    pub open spec fn forget_listings(self) -> TreeView {
        TreeView { root: self.root, expanded: self.expanded, children: Map::empty() }
    }

    /// How directory `path` is shown below the directories `ancestors`
    /// (outermost first). It is collapsed if it is not expanded; so is a
    /// directory that is one of its own ancestors, which would otherwise
    /// repeat without end, and one nested [`MAX_DEPTH`] deep.
    pub open spec fn dir_kind(self, path: Seq<char>, ancestors: Seq<Seq<char>>) -> RowKind {
        if !self.expanded.contains(path) || ancestors.contains(path) || ancestors.len()
            >= MAX_DEPTH {
            RowKind::CollapsedDir
        } else if !self.children.contains_key(path) {
            RowKind::PendingDir
        } else {
            RowKind::OpenDir
        }
    }

    /// The rows for `entry` below `ancestors`: its own row and, for an open
    /// directory, the rows of its children.
    pub open spec fn entry_rows(self, entry: EntryView, ancestors: Seq<Seq<char>>) -> Seq<RowView>
        decreases MAX_DEPTH - ancestors.len(), 0nat,
    {
        if !entry.is_dir {
            seq![
                RowView {
                    path: entry.path,
                    name: entry.name,
                    depth: ancestors.len(),
                    kind: RowKind::File,
                },
            ]
        } else {
            let kind = self.dir_kind(entry.path, ancestors);
            let row = RowView { path: entry.path, name: entry.name, depth: ancestors.len(), kind };
            if kind == RowKind::OpenDir {
                seq![row] + self.listing_rows(
                    self.children[entry.path],
                    ancestors.push(entry.path),
                )
            } else {
                seq![row]
            }
        }
    }

    /// The rows for the entries `entries` below `ancestors`, one entry after
    /// the other.
    pub open spec fn listing_rows(
        self,
        entries: Seq<EntryView>,
        ancestors: Seq<Seq<char>>,
    ) -> Seq<RowView>
        decreases MAX_DEPTH - ancestors.len(), entries.len() + 1,
    {
        if entries.len() == 0 {
            Seq::empty()
        } else {
            self.listing_rows(entries.drop_last(), ancestors) + self.entry_rows(
                entries.last(),
                ancestors,
            )
        }
    }

    /// All rows of the tree from the top down.
    pub open spec fn rows(self) -> Seq<RowView> {
        self.entry_rows(self.root, Seq::empty())
    }
}

/// Pressing a directory's row, taking in a listing and dropping all
/// listings each keep the tree well formed.
pub proof fn lemma_tree_stays_wf(tree: TreeView, path: Seq<char>, listing: Seq<EntryView>)
    requires
        tree.wf(),
    ensures
        tree.toggle_expand(path).wf(),
        tree.record_listing(path, listing).wf(),
        tree.forget_listings().wf(),
{
}

/// Pressing a directory's row twice leaves every directory expanded or
/// collapsed as it was, the directories below included; only the children
/// that were read for the pressed directory itself are gone.
pub proof fn lemma_toggle_expand_twice(tree: TreeView, path: Seq<char>)
    requires
        tree.wf(),
    ensures
        tree.toggle_expand(path).toggle_expand(path).root == tree.root,
        tree.toggle_expand(path).toggle_expand(path).expanded == tree.expanded,
        tree.toggle_expand(path).toggle_expand(path).children == tree.children.remove(path),
{
    let twice = tree.toggle_expand(path).toggle_expand(path);
    assert(twice.expanded =~= tree.expanded);
    assert(twice.children =~= tree.children.remove(path));
}

/// A directory that is not expanded shows its own row and nothing else,
/// whatever was read for it or below it.
pub proof fn lemma_collapsed_shows_one_row(
    tree: TreeView,
    entry: EntryView,
    ancestors: Seq<Seq<char>>,
)
    requires
        entry.is_dir,
        !tree.expanded.contains(entry.path),
    ensures
        tree.entry_rows(entry, ancestors) == seq![
            RowView {
                path: entry.path,
                name: entry.name,
                depth: ancestors.len(),
                kind: RowKind::CollapsedDir,
            },
        ],
{
}

/// The path of the first row of `rows` that waits for its children.
pub open spec fn first_pending(rows: Seq<RowView>) -> Option<Seq<char>>
    decreases rows.len(),
{
    if rows.len() == 0 {
        None
    } else if rows[0].kind == RowKind::PendingDir {
        Some(rows[0].path)
    } else {
        first_pending(rows.drop_first())
    }
}

/// An expanded directory and the children read for it, if any.
struct ExpandedDir {
    path: String,
    children: Option<Vec<DirEntry>>,
}

/// Whether `path` is among the expanded directories `dirs`.
spec fn has_dir(dirs: Seq<ExpandedDir>, path: Seq<char>) -> bool {
    exists|i: int| 0 <= i < dirs.len() && dirs[i].path@ == path
}

/// Where `path` stands in `dirs`, if it is there.
spec fn dir_at(dirs: Seq<ExpandedDir>, path: Seq<char>) -> int {
    choose|i: int| 0 <= i < dirs.len() && dirs[i].path@ == path
}

/// Whether no path stands twice in `dirs`.
spec fn distinct_paths(dirs: Seq<ExpandedDir>) -> bool {
    forall|i: int, j: int| 0 <= i < j < dirs.len() ==> dirs[i].path@ != dirs[j].path@
}

/// Whether children have been read for the expanded directory `path`.
spec fn has_children(dirs: Seq<ExpandedDir>, path: Seq<char>) -> bool {
    has_dir(dirs, path) && dirs[dir_at(dirs, path)].children is Some
}

/// The children read for the expanded directory `path`.
spec fn children_at(dirs: Seq<ExpandedDir>, path: Seq<char>) -> Seq<EntryView> {
    entries_view(dirs[dir_at(dirs, path)].children->0@)
}

/// The tree that `root` and `dirs` stand for.
spec fn tree_view(root: DirEntry, dirs: Seq<ExpandedDir>) -> TreeView {
    TreeView {
        root: root@,
        expanded: Set::new(|p: Seq<char>| has_dir(dirs, p)),
        children: Map::new(|p: Seq<char>| has_children(dirs, p), |p: Seq<char>| children_at(dirs, p)),
    }
}

/// Among distinct paths, looking up the path at `i` leads back to `i`.
proof fn lemma_dir_lookup(dirs: Seq<ExpandedDir>, i: int)
    requires
        distinct_paths(dirs),
        0 <= i < dirs.len(),
    ensures
        has_dir(dirs, dirs[i].path@),
        dir_at(dirs, dirs[i].path@) == i,
{
    let j = dir_at(dirs, dirs[i].path@);
    if j < i {
        assert(dirs[j].path@ != dirs[i].path@);
    } else if i < j {
        assert(dirs[i].path@ != dirs[j].path@);
    }
}

/// Adding a directory that was not there expands it.
proof fn lemma_view_after_push(root: DirEntry, dirs: Seq<ExpandedDir>, dir: ExpandedDir)
    requires
        distinct_paths(dirs),
        !has_dir(dirs, dir.path@),
        dir.children is None,
    ensures
        distinct_paths(dirs.push(dir)),
        tree_view(root, dirs.push(dir)) == tree_view(root, dirs).toggle_expand(dir.path@),
{
    let after = dirs.push(dir);
    let now = tree_view(root, after);
    let goal = tree_view(root, dirs).toggle_expand(dir.path@);
    assert forall|i: int, j: int| 0 <= i < j < after.len() implies after[i].path@
        != after[j].path@ by {
        if j == dirs.len() {
            assert(dirs[i].path@ != dir.path@);
        }
    }
    assert(after[dirs.len() as int] == dir);
    assert forall|p: Seq<char>| has_dir(after, p) <==> (p == dir.path@ || has_dir(dirs, p)) by {
        if has_dir(after, p) {
            let i = dir_at(after, p);
            if i < dirs.len() {
                assert(dirs[i].path@ == p);
            }
        }
        if has_dir(dirs, p) {
            let i = dir_at(dirs, p);
            assert(after[i].path@ == p);
        }
    }
    assert(now.expanded =~= goal.expanded);
    assert forall|p: Seq<char>| has_children(after, p) <==> has_children(dirs, p) by {
        lemma_dir_lookup(after, dirs.len() as int);
        if has_dir(dirs, p) {
            let i = dir_at(dirs, p);
            assert(after[i] == dirs[i]);
            lemma_dir_lookup(after, i);
        }
    }
    assert forall|p: Seq<char>| has_children(dirs, p) implies children_at(after, p) == children_at(
        dirs,
        p,
    ) by {
        let i = dir_at(dirs, p);
        assert(after[i] == dirs[i]);
        lemma_dir_lookup(after, i);
    }
    assert(now.children =~= goal.children);
}

/// Taking a directory out collapses it and drops its children.
proof fn lemma_view_after_remove(root: DirEntry, dirs: Seq<ExpandedDir>, at: int)
    requires
        distinct_paths(dirs),
        0 <= at < dirs.len(),
    ensures
        distinct_paths(dirs.remove(at)),
        tree_view(root, dirs.remove(at)) == tree_view(root, dirs).toggle_expand(dirs[at].path@),
{
    let after = dirs.remove(at);
    let gone = dirs[at].path@;
    let now = tree_view(root, after);
    let goal = tree_view(root, dirs).toggle_expand(gone);
    lemma_dir_lookup(dirs, at);
    assert forall|k: int| 0 <= k < after.len() implies after[k] == dirs[if k < at {
        k
    } else {
        k + 1
    }] by {}
    assert forall|i: int, j: int| 0 <= i < j < after.len() implies after[i].path@
        != after[j].path@ by {
        let a = if i < at { i } else { i + 1 };
        let b = if j < at { j } else { j + 1 };
        assert(dirs[a].path@ != dirs[b].path@);
    }
    assert forall|p: Seq<char>| has_dir(after, p) <==> (p != gone && has_dir(dirs, p)) by {
        if has_dir(after, p) {
            let k = dir_at(after, p);
            let a = if k < at { k } else { k + 1 };
            assert(dirs[a].path@ == p);
            lemma_dir_lookup(dirs, a);
        }
        if p != gone && has_dir(dirs, p) {
            let a = dir_at(dirs, p);
            let k = if a < at { a } else { a - 1 };
            assert(after[k].path@ == p);
        }
    }
    assert(now.expanded =~= goal.expanded);
    assert forall|p: Seq<char>| has_dir(after, p) implies after[dir_at(after, p)] == dirs[dir_at(
        dirs,
        p,
    )] by {
        let k = dir_at(after, p);
        let a = if k < at { k } else { k + 1 };
        assert(dirs[a].path@ == p);
        lemma_dir_lookup(dirs, a);
    }
    assert(now.children =~= goal.children);
}

/// Putting children in the place of a directory's own records them.
proof fn lemma_view_after_update(
    root: DirEntry,
    dirs: Seq<ExpandedDir>,
    at: int,
    dir: ExpandedDir,
)
    requires
        distinct_paths(dirs),
        0 <= at < dirs.len(),
        dir.path@ == dirs[at].path@,
        dir.children is Some,
    ensures
        distinct_paths(dirs.update(at, dir)),
        tree_view(root, dirs.update(at, dir)) == tree_view(root, dirs).record_listing(
            dir.path@,
            entries_view(dir.children->0@),
        ),
{
    let after = dirs.update(at, dir);
    let now = tree_view(root, after);
    let goal = tree_view(root, dirs).record_listing(dir.path@, entries_view(dir.children->0@));
    lemma_dir_lookup(dirs, at);
    assert forall|i: int, j: int| 0 <= i < j < after.len() implies after[i].path@
        != after[j].path@ by {
        assert(dirs[i].path@ != dirs[j].path@);
    }
    lemma_dir_lookup(after, at);
    assert forall|p: Seq<char>| has_dir(after, p) <==> has_dir(dirs, p) by {
        if has_dir(after, p) {
            let k = dir_at(after, p);
            assert(dirs[k].path@ == p);
        }
        if has_dir(dirs, p) {
            let k = dir_at(dirs, p);
            assert(after[k].path@ == p);
        }
    }
    assert(now.expanded =~= goal.expanded);
    assert forall|p: Seq<char>| has_dir(dirs, p) implies dir_at(after, p) == dir_at(dirs, p) by {
        let k = dir_at(dirs, p);
        assert(after[k].path@ == p);
        lemma_dir_lookup(after, k);
    }
    assert(now.children =~= goal.children);
}

/// The directory tree of the sidebar.
///
/// Directories are identified by their paths. Children are kept for expanded
/// directories only; collapsing a directory drops its own children and
/// leaves the directories below it expanded as they were.
pub struct DirTree {
    root: DirEntry,
    dirs: Vec<ExpandedDir>,
}

impl View for DirTree {
    type V = TreeView;

    closed spec fn view(&self) -> TreeView {
        tree_view(self.root, self.dirs@)
    }
}

impl DirTree {
    #[verifier::type_invariant]
    spec fn well_formed(self) -> bool {
        self.root.is_dir && distinct_paths(self.dirs@)
    }

    /// A tree with the directory at `path`, shown as `name`, at the top and
    /// collapsed.
    pub fn new(path: String, name: String) -> (tree: Self)
        ensures
            tree@ == (TreeView {
                root: EntryView { path: path@, name: name@, is_dir: true },
                expanded: Set::empty(),
                children: Map::empty(),
            }),
            tree@.wf(),
    {
        let tree = DirTree { root: DirEntry { path, name, is_dir: true }, dirs: Vec::new() };
        assert(tree@.expanded =~= Set::empty());
        assert(tree@.children =~= Map::empty());
        tree
    }

    /// Takes the parts out, leaving an empty tree behind.
    fn take(&mut self) -> (parts: (DirEntry, Vec<ExpandedDir>))
        ensures
            parts.0 == old(self).root,
            parts.1 == old(self).dirs,
            parts.0.is_dir,
            distinct_paths(parts.1@),
    {
        proof {
            use_type_invariant(&*self);
        }
        let mut taken = DirTree::new(String::new(), String::new());
        std::mem::swap(self, &mut taken);
        let DirTree { root, dirs } = taken;
        (root, dirs)
    }

    /// The directory at the top.
    pub fn root(&self) -> (root: &DirEntry)
        ensures
            root@ == self@.root,
            self@.wf(),
    {
        proof {
            use_type_invariant(self);
        }
        &self.root
    }

    /// Where the expanded directory `path` is kept, if it is expanded.
    fn find_dir(&self, path: &str) -> (found: Option<usize>)
        ensures
            match found {
                Some(i) => i < self.dirs@.len() && self.dirs@[i as int].path@ == path@,
                None => !has_dir(self.dirs@, path@),
            },
    {
        let mut i: usize = 0;
        while i < self.dirs.len()
            invariant
                i <= self.dirs.len(),
                forall|k: int| 0 <= k < i ==> self.dirs@[k].path@ != path@,
            decreases self.dirs.len() - i,
        {
            if same_text(self.dirs[i].path.as_str(), path) {
                return Some(i);
            }
            i += 1;
        }
        None
    }

    /// Whether the directory `path` is expanded.
    pub fn is_expanded(&self, path: &str) -> (expanded: bool)
        ensures
            expanded == self@.expanded.contains(path@),
    {
        self.find_dir(path).is_some()
    }

    /// Reacts to a press on the row of directory `path`: collapses it if it
    /// is expanded, dropping the children read for it, and expands it
    /// otherwise. Returns whether the directory is expanded afterwards, in
    /// which case the caller reads it and calls
    /// [`DirTree::record_listing`].
    pub fn toggle_expand(&mut self, path: &str) -> (expanded: bool)
        ensures
            final(self)@ == old(self)@.toggle_expand(path@),
            expanded == !old(self)@.expanded.contains(path@),
            final(self)@.wf(),
    {
        let found = self.find_dir(path);
        let (root, mut dirs) = self.take();
        let expanded = match found {
            Some(i) => {
                proof {
                    lemma_view_after_remove(root, dirs@, i as int);
                }
                dirs.remove(i);
                false
            },
            None => {
                let dir = ExpandedDir { path: path.to_owned(), children: None };
                proof {
                    lemma_view_after_push(root, dirs@, dir);
                }
                dirs.push(dir);
                true
            },
        };
        *self = DirTree { root, dirs };
        expanded
    }

    /// Takes in what reading the directory `path` gave. If the directory is
    /// expanded, its children become those that [`list_children`] makes of
    /// `read`, in place of any recorded before; otherwise `read` is dropped.
    /// Returns whether the directory is expanded.
    pub fn record_listing(&mut self, path: &str, read: Option<Vec<Option<DirEntry>>>) -> (recorded:
        bool)
        ensures
            final(self)@ == old(self)@.record_listing(path@, listing_of(read)),
            recorded == old(self)@.expanded.contains(path@),
            final(self)@.wf(),
    {
        let found = self.find_dir(path);
        match found {
            Some(i) => {
                let (root, mut dirs) = self.take();
                let listing = list_children(read);
                let old_dir = dirs.remove(i);
                let dir = ExpandedDir { path: old_dir.path, children: Some(listing) };
                proof {
                    lemma_view_after_update(root, old(self).dirs@, i as int, dir);
                    assert(dirs@.insert(i as int, dir) =~= old(self).dirs@.update(i as int, dir));
                }
                dirs.insert(i, dir);
                *self = DirTree { root, dirs };
                true
            },
            None => {
                proof {
                    use_type_invariant(&*self);
                }
                false
            },
        }
    }

    /// Drops the children of every directory, so that each expanded
    /// directory waits to be read again.
    pub fn forget_listings(&mut self)
        ensures
            final(self)@ == old(self)@.forget_listings(),
            final(self)@.wf(),
    {
        let (root, dirs) = self.take();
        let mut kept: Vec<ExpandedDir> = Vec::new();
        for dir in each: dirs
            invariant
                each.seq() == dirs@,
                kept@.len() == each.index(),
                forall|k: int|
                    0 <= k < kept@.len() ==> kept@[k].path@ == dirs@[k].path@
                        && kept@[k].children is None,
        {
            kept.push(ExpandedDir { path: dir.path, children: None });
        }
        proof {
            let before = tree_view(root, dirs@);
            let after = tree_view(root, kept@);
            assert forall|p: Seq<char>| has_dir(kept@, p) <==> has_dir(dirs@, p) by {
                if has_dir(kept@, p) {
                    let k = dir_at(kept@, p);
                    assert(dirs@[k].path@ == p);
                }
                if has_dir(dirs@, p) {
                    let k = dir_at(dirs@, p);
                    assert(kept@[k].path@ == p);
                }
            }
            assert(after.expanded =~= before.expanded);
            assert(after.children =~= Map::empty());
            assert forall|i: int, j: int| 0 <= i < j < kept@.len() implies kept@[i].path@
                != kept@[j].path@ by {
                assert(dirs@[i].path@ != dirs@[j].path@);
            }
        }
        *self = DirTree { root, dirs: kept };
    }

    /// Whether `path` is among `ancestors`.
    fn is_ancestor(ancestors: &Vec<&str>, path: &str) -> (found: bool)
        ensures
            found == texts_view(ancestors@).contains(path@),
    {
        let mut i: usize = 0;
        while i < ancestors.len()
            invariant
                i <= ancestors.len(),
                forall|k: int| 0 <= k < i ==> texts_view(ancestors@)[k] != path@,
            decreases ancestors.len() - i,
        {
            if same_text(ancestors[i], path) {
                assert(texts_view(ancestors@)[i as int] == path@);
                return true;
            }
            i += 1;
        }
        false
    }

    /// Appends to `rows` the rows for `entry` below `ancestors`.
    fn push_rows<'a>(
        &'a self,
        entry: &'a DirEntry,
        ancestors: &mut Vec<&'a str>,
        rows: &mut Vec<TreeRow>,
    )
        ensures
            final(ancestors)@ == old(ancestors)@,
            rows_view(final(rows)@) == rows_view(old(rows)@) + self@.entry_rows(
                entry@,
                texts_view(old(ancestors)@),
            ),
        decreases MAX_DEPTH - old(ancestors)@.len(),
    {
        proof {
            use_type_invariant(self);
        }
        let ghost above = texts_view(ancestors@);
        let ghost before = rows_view(rows@);
        let depth = ancestors.len();
        if !entry.is_dir {
            let row = TreeRow {
                path: entry.path.clone(),
                name: entry.name.clone(),
                depth,
                kind: RowKind::File,
            };
            rows.push(row);
            assert(rows_view(rows@) =~= before + self@.entry_rows(entry@, above));
            return ;
        }
        let found = if depth >= MAX_DEPTH || Self::is_ancestor(ancestors, entry.path.as_str()) {
            None
        } else {
            self.find_dir(entry.path.as_str())
        };
        let kind = match found {
            None => RowKind::CollapsedDir,
            Some(i) => if self.dirs[i].children.is_some() {
                RowKind::OpenDir
            } else {
                RowKind::PendingDir
            },
        };
        proof {
            if let Some(i) = found {
                lemma_dir_lookup(self.dirs@, i as int);
            }
            assert(kind == self@.dir_kind(entry@.path, above));
        }
        let row = TreeRow { path: entry.path.clone(), name: entry.name.clone(), depth, kind };
        let ghost shown = row@;
        rows.push(row);
        assert(rows_view(rows@) =~= before + seq![shown]);
        if let Some(i) = found {
            if let Some(children) = &self.dirs[i].children {
                ancestors.push(entry.path.as_str());
                let ghost below = above.push(entry@.path);
                let ghost held = ancestors@;
                assert(texts_view(ancestors@) =~= below);
                assert(held.drop_last() =~= old(ancestors)@);
                let ghost listing = entries_view(children@);
                proof {
                    lemma_dir_lookup(self.dirs@, i as int);
                    assert(self@.children[entry@.path] == listing);
                }
                let mut k: usize = 0;
                while k < children.len()
                    invariant
                        k <= children.len(),
                        listing == entries_view(children@),
                        texts_view(ancestors@) == below,
                        ancestors@ == held,
                        held.len() == depth + 1,
                        old(ancestors)@.len() == depth,
                        depth < MAX_DEPTH,
                        rows_view(rows@) == before + seq![shown] + self@.listing_rows(
                            listing.take(k as int),
                            below,
                        ),
                    decreases children.len() - k,
                {
                    self.push_rows(&children[k], ancestors, rows);
                    proof {
                        let next = listing.take(k + 1);
                        assert(next.drop_last() =~= listing.take(k as int));
                        assert(next.last() == children[k as int]@);
                    }
                    k += 1;
                }
                assert(listing.take(k as int) =~= listing);
                ancestors.pop();
            }
        }
    }

    /// The rows of the tree from the top down: each directory's row is
    /// followed, if the directory is open, by the rows of its children, one
    /// level deeper.
    pub fn render(&self) -> (rows: Vec<TreeRow>)
        ensures
            rows_view(rows@) == self@.rows(),
    {
        let mut rows: Vec<TreeRow> = Vec::new();
        let mut ancestors: Vec<&str> = Vec::new();
        assert(texts_view(ancestors@) =~= Seq::empty());
        assert(rows_view(rows@) =~= Seq::empty());
        self.push_rows(&self.root, &mut ancestors, &mut rows);
        rows
    }

    /// The first directory, from the top down, that is shown expanded but
    /// whose children have not been recorded; `None` when the tree is
    /// complete.
    pub fn next_pending(&self) -> (pending: Option<String>)
        ensures
            match pending {
                Some(path) => first_pending(self@.rows()) == Some(path@),
                None => first_pending(self@.rows()) is None,
            },
    {
        let rows = self.render();
        let mut i: usize = 0;
        assert(rows_view(rows@).skip(0) =~= rows_view(rows@));
        while i < rows.len()
            invariant
                i <= rows.len(),
                rows_view(rows@) == self@.rows(),
                first_pending(rows_view(rows@)) == first_pending(
                    rows_view(rows@).skip(i as int),
                ),
            decreases rows.len() - i,
        {
            proof {
                let rest = rows_view(rows@).skip(i as int);
                assert(rest[0] == rows[i as int]@);
                assert(rest.drop_first() =~= rows_view(rows@).skip(i + 1));
            }
            if rows[i].kind == RowKind::PendingDir {
                return Some(rows[i].path.clone());
            }
            i += 1;
        }
        None
    }
}

} // verus!
