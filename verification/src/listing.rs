//! Directory listings: what a directory read yields and the order in which
//! its entries are shown.

use crate::text::{
    compare_text, lemma_order_mirrored, lemma_order_transitive, lemma_same_iff_equal, text_order,
    TextOrder,
};
use vstd::prelude::*;

verus! {

/// One entry of a directory.
#[derive(Clone, Debug, PartialEq, Eq)]
pub struct DirEntry {
    /// The entry's full path, which identifies it.
    pub path: String,
    /// The name shown for the entry.
    pub name: String,
    /// Whether the entry is a directory.
    pub is_dir: bool,
}

/// A directory entry as contracts see it.
pub struct EntryView {
    pub path: Seq<char>,
    pub name: Seq<char>,
    pub is_dir: bool,
}

impl View for DirEntry {
    type V = EntryView;

    open spec fn view(&self) -> EntryView {
        EntryView { path: self.path@, name: self.name@, is_dir: self.is_dir }
    }
}

/// The entries of `entries` as contracts see them.
pub open spec fn entries_view(entries: Seq<DirEntry>) -> Seq<EntryView> {
    entries.map_values(|e: DirEntry| e@)
}

/// Whether `a` must be shown before `b`: a directory before a file, and of
/// two directories or two files the one whose name comes first.
pub open spec fn comes_before(a: EntryView, b: EntryView) -> bool {
    if a.is_dir != b.is_dir {
        a.is_dir
    } else {
        text_order(a.name, b.name) == TextOrder::Before
    }
}

/// Whether neither of `a` and `b` must be shown before the other: both are
/// directories or both are files, and they have the same name.
pub open spec fn same_rank(a: EntryView, b: EntryView) -> bool {
    a.is_dir == b.is_dir && a.name == b.name
}

/// `listing` with `entry` put behind the last entry that `entry` need not
/// be shown before.
pub open spec fn insert_in_order(listing: Seq<EntryView>, entry: EntryView) -> Seq<EntryView>
    decreases listing.len(),
{
    if listing.len() > 0 && comes_before(entry, listing.last()) {
        insert_in_order(listing.drop_last(), entry).push(listing.last())
    } else {
        listing.push(entry)
    }
}

/// The entries of `entries` in the order of display: each one, in turn, is
/// put in its place among those before it.
pub open spec fn sorted_listing(entries: Seq<EntryView>) -> Seq<EntryView>
    decreases entries.len(),
{
    if entries.len() == 0 {
        Seq::empty()
    } else {
        insert_in_order(sorted_listing(entries.drop_last()), entries.last())
    }
}

/// The entries of a directory read that could be read, in the order of the
/// read.
pub open spec fn readable_entries(reads: Seq<Option<DirEntry>>) -> Seq<EntryView>
    decreases reads.len(),
{
    if reads.len() == 0 {
        Seq::empty()
    } else {
        let earlier = readable_entries(reads.drop_last());
        match reads.last() {
            Some(entry) => earlier.push(entry@),
            None => earlier,
        }
    }
}

/// What a directory read gave, entry by entry; nothing if the directory
/// could not be read.
pub open spec fn reads_of(read: Option<Vec<Option<DirEntry>>>) -> Seq<Option<DirEntry>> {
    match read {
        None => Seq::empty(),
        Some(reads) => reads@,
    }
}

/// The children shown for a directory whose read gave `read`: nothing if the
/// directory could not be read, otherwise its readable entries in the order
/// of display.
pub open spec fn listing_of(read: Option<Vec<Option<DirEntry>>>) -> Seq<EntryView> {
    sorted_listing(readable_entries(reads_of(read)))
}

/// Whether `listing` shows every directory before every file and, among the
/// directories and among the files, the names in ascending order.
pub open spec fn in_display_order(listing: Seq<EntryView>) -> bool {
    &&& forall|i: int, j: int|
        0 <= i < listing.len() && 0 <= j < listing.len() && listing[i].is_dir && !listing[j].is_dir
            ==> i < j
    &&& forall|i: int, j: int|
        0 <= i < j < listing.len() && listing[i].is_dir == listing[j].is_dir ==> text_order(
            listing[i].name,
            listing[j].name,
        ) != TextOrder::After
}

/// The entries of `entries` that rank with `model`, in their order.
pub open spec fn ranked_like(entries: Seq<EntryView>, model: EntryView) -> Seq<EntryView>
    decreases entries.len(),
{
    if entries.len() == 0 {
        Seq::empty()
    } else if same_rank(entries.last(), model) {
        ranked_like(entries.drop_last(), model).push(entries.last())
    } else {
        ranked_like(entries.drop_last(), model)
    }
}

/// Whether `a` must be shown before `b`.
pub fn entry_comes_before(a: &DirEntry, b: &DirEntry) -> (before: bool)
    ensures
        before == comes_before(a@, b@),
{
    if a.is_dir != b.is_dir {
        a.is_dir
    } else {
        compare_text(a.name.as_str(), b.name.as_str()) == TextOrder::Before
    }
}

/// Puts `entry` into `listing` behind the last entry that it need not be
/// shown before.
pub fn insert_entry(listing: &mut Vec<DirEntry>, entry: DirEntry)
    ensures
        entries_view(final(listing)@) == insert_in_order(entries_view(old(listing)@), entry@),
{
    let mut at = listing.len();
    while at > 0 && entry_comes_before(&entry, &listing[at - 1])
        invariant
            at <= listing.len(),
            forall|k: int| at <= k < listing.len() ==> comes_before(entry@, listing[k]@),
        decreases at,
    {
        at -= 1;
    }
    listing.insert(at, entry);
    proof {
        let before = entries_view(old(listing)@);
        lemma_insert_position(before, entry@, at as int);
        assert(entries_view(listing@) =~= before.insert(at as int, entry@));
    }
}

/// Turns what a directory read gave into the children to show: an unreadable
/// directory has none, unreadable entries are left out, and the others are
/// ordered with directories first and by name within directories and within
/// files; entries that rank alike keep the order of the read. The time
/// taken grows with the square of the number of entries.
pub fn list_children(read: Option<Vec<Option<DirEntry>>>) -> (listing: Vec<DirEntry>)
    ensures
        entries_view(listing@) == listing_of(read),
        in_display_order(entries_view(listing@)),
        entries_view(listing@).to_multiset() == readable_entries(reads_of(read)).to_multiset(),
        forall|model: EntryView| #[trigger]
            ranked_like(entries_view(listing@), model) == ranked_like(
                readable_entries(reads_of(read)),
                model,
            ),
{
    let mut listing: Vec<DirEntry> = Vec::new();
    let ghost all = reads_of(read);
    assert(entries_view(listing@) =~= Seq::empty());
    if let Some(reads) = read {
        for item in rest: reads
            invariant
                rest.seq() == all,
                entries_view(listing@) == sorted_listing(
                    readable_entries(all.take(rest.index())),
                ),
        {
            proof {
                let done = all.take(rest.index() + 1);
                assert(done.drop_last() =~= all.take(rest.index()));
                assert(done.last() == item);
            }
            if let Some(entry) = item {
                proof {
                    let earlier = readable_entries(all.take(rest.index()));
                    assert(earlier.push(entry@).drop_last() =~= earlier);
                }
                insert_entry(&mut listing, entry);
            }
        }
        assert(all.take(all.len() as int) =~= all);
    }
    proof {
        lemma_sorted_listing_in_order(readable_entries(all));
        lemma_sorted_listing_same_entries(readable_entries(all));
        assert forall|model: EntryView| #[trigger]
            ranked_like(entries_view(listing@), model) == ranked_like(
                readable_entries(all),
                model,
            ) by {
            lemma_sorted_listing_stable(readable_entries(all), model);
        }
    }
    listing
}

/// Where `insert_in_order` puts `entry`: at `at`, if `entry` comes before
/// every entry from `at` on and not before the one just ahead of `at`.
pub proof fn lemma_insert_position(listing: Seq<EntryView>, entry: EntryView, at: int)
    requires
        0 <= at <= listing.len(),
        forall|k: int| at <= k < listing.len() ==> comes_before(entry, listing[k]),
        at > 0 ==> !comes_before(entry, listing[at - 1]),
    ensures
        insert_in_order(listing, entry) == listing.insert(at, entry),
    decreases listing.len(),
{
    if at < listing.len() {
        lemma_insert_position(listing.drop_last(), entry, at);
        assert(listing.drop_last().insert(at, entry).push(listing.last()) =~= listing.insert(
            at,
            entry,
        ));
    } else {
        assert(listing.push(entry) =~= listing.insert(at, entry));
    }
}

/// Whether no entry of `listing` must be shown before an earlier one.
pub open spec fn ordered(listing: Seq<EntryView>) -> bool {
    forall|i: int, j: int| 0 <= i < j < listing.len() ==> !comes_before(listing[j], listing[i])
}

/// If `a` need not come after `b`, and `b` need not come after `c`, then `a`
/// need not come after `c`.
pub proof fn lemma_not_after_transitive(a: EntryView, b: EntryView, c: EntryView)
    requires
        !comes_before(b, a),
        !comes_before(c, b),
    ensures
        !comes_before(c, a),
{
    lemma_order_mirrored(a.name, b.name);
    lemma_order_mirrored(b.name, c.name);
    lemma_order_mirrored(a.name, c.name);
    lemma_order_mirrored(b.name, a.name);
    lemma_order_mirrored(c.name, b.name);
    lemma_order_mirrored(c.name, a.name);
    if a.is_dir == b.is_dir && b.is_dir == c.is_dir {
        lemma_order_transitive(a.name, b.name, c.name);
    }
}

/// Putting an entry in its place keeps a listing ordered.
pub proof fn lemma_insert_keeps_order(listing: Seq<EntryView>, entry: EntryView)
    requires
        ordered(listing),
    ensures
        ordered(insert_in_order(listing, entry)),
    decreases listing.len(),
{
    let result = insert_in_order(listing, entry);
    if listing.len() > 0 && comes_before(entry, listing.last()) {
        let shorter = listing.drop_last();
        let inner = insert_in_order(shorter, entry);
        lemma_insert_keeps_order(shorter, entry);
        lemma_insert_members(shorter, entry);
        assert forall|i: int, j: int| 0 <= i < j < result.len() implies !comes_before(
            result[j],
            result[i],
        ) by {
            if j == result.len() - 1 {
                // result[j] is the old last entry; result[i] is the new entry or an old one
                if result[i] == entry {
                    lemma_order_mirrored(entry.name, listing.last().name);
                } else {
                    let k = choose|k: int| 0 <= k < shorter.len() && shorter[k] == result[i];
                    assert(!comes_before(listing[listing.len() - 1], listing[k]));
                }
            } else {
                assert(result[i] == inner[i] && result[j] == inner[j]);
            }
        }
    } else {
        assert forall|i: int, j: int| 0 <= i < j < result.len() implies !comes_before(
            result[j],
            result[i],
        ) by {
            if j == result.len() - 1 && listing.len() > 0 {
                if i < listing.len() - 1 {
                    assert(!comes_before(listing[listing.len() - 1], listing[i]));
                    lemma_not_after_transitive(listing[i], listing.last(), entry);
                }
            }
        }
    }
}

/// Every entry of a listing with an entry put in is the new entry or one of
/// the old ones.
pub proof fn lemma_insert_members(listing: Seq<EntryView>, entry: EntryView)
    ensures
        insert_in_order(listing, entry).len() == listing.len() + 1,
        forall|i: int|
            0 <= i < listing.len() + 1 ==> {
                let e = #[trigger] insert_in_order(listing, entry)[i];
                e == entry || exists|k: int| 0 <= k < listing.len() && listing[k] == e
            },
    decreases listing.len(),
{
    let result = insert_in_order(listing, entry);
    if listing.len() > 0 && comes_before(entry, listing.last()) {
        let shorter = listing.drop_last();
        lemma_insert_members(shorter, entry);
        let inner = insert_in_order(shorter, entry);
        assert forall|i: int| 0 <= i < listing.len() + 1 implies {
            let e = #[trigger] result[i];
            e == entry || exists|k: int| 0 <= k < listing.len() && listing[k] == e
        } by {
            let e = result[i];
            if i < inner.len() {
                let f = inner[i];
                assert(e == f);
                if f != entry {
                    let k = choose|k: int| 0 <= k < shorter.len() && shorter[k] == f;
                    assert(listing[k] == e);
                }
            } else {
                assert(listing[listing.len() - 1] == e);
            }
        }
    } else {
        assert forall|i: int| 0 <= i < listing.len() + 1 implies {
            let e = #[trigger] result[i];
            e == entry || exists|k: int| 0 <= k < listing.len() && listing[k] == e
        } by {
            if i < listing.len() {
                assert(listing[i] == result[i]);
            }
        }
    }
}

/// A sorted listing is ordered.
pub proof fn lemma_sorted_listing_ordered(entries: Seq<EntryView>)
    ensures
        ordered(sorted_listing(entries)),
    decreases entries.len(),
{
    if entries.len() > 0 {
        lemma_sorted_listing_ordered(entries.drop_last());
        lemma_insert_keeps_order(sorted_listing(entries.drop_last()), entries.last());
    }
}

/// An ordered listing shows every directory before every file and the names
/// of each kind in ascending order.
pub proof fn lemma_ordered_in_display_order(listing: Seq<EntryView>)
    requires
        ordered(listing),
    ensures
        in_display_order(listing),
{
    assert forall|i: int, j: int|
        0 <= i < listing.len() && 0 <= j < listing.len() && listing[i].is_dir
            && !listing[j].is_dir implies i < j by {
        if j < i {
            assert(!comes_before(listing[i], listing[j]));
        }
    }
    assert forall|i: int, j: int|
        0 <= i < j < listing.len() && listing[i].is_dir == listing[j].is_dir implies text_order(
        listing[i].name,
        listing[j].name,
    ) != TextOrder::After by {
        assert(!comes_before(listing[j], listing[i]));
        lemma_order_mirrored(listing[j].name, listing[i].name);
    }
}

/// For every directory snapshot the listing shows every directory before
/// every file, and the directories and the files each by ascending name.
pub proof fn lemma_sorted_listing_in_order(entries: Seq<EntryView>)
    ensures
        in_display_order(sorted_listing(entries)),
{
    lemma_sorted_listing_ordered(entries);
    lemma_ordered_in_display_order(sorted_listing(entries));
}

/// Putting an entry in its place adds that entry and nothing else.
pub proof fn lemma_insert_adds_one(listing: Seq<EntryView>, entry: EntryView)
    ensures
        insert_in_order(listing, entry).to_multiset() == listing.to_multiset().insert(entry),
    decreases listing.len(),
{
    broadcast use vstd::seq_lib::to_multiset_build;
    if listing.len() > 0 && comes_before(entry, listing.last()) {
        let shorter = listing.drop_last();
        lemma_insert_adds_one(shorter, entry);
        assert(shorter.push(listing.last()) =~= listing);
        assert(insert_in_order(listing, entry).to_multiset() =~= listing.to_multiset().insert(
            entry,
        ));
    }
}

/// A sorted listing holds exactly the entries it was made from, each as
/// often as it occurred.
pub proof fn lemma_sorted_listing_same_entries(entries: Seq<EntryView>)
    ensures
        sorted_listing(entries).to_multiset() == entries.to_multiset(),
    decreases entries.len(),
{
    broadcast use vstd::seq_lib::to_multiset_build;
    if entries.len() > 0 {
        lemma_sorted_listing_same_entries(entries.drop_last());
        lemma_insert_adds_one(sorted_listing(entries.drop_last()), entries.last());
        assert(entries.drop_last().push(entries.last()) =~= entries);
    } else {
        assert(sorted_listing(entries) =~= entries);
    }
}

/// Putting an entry in its place leaves the entries of each rank in their
/// order, with the new entry behind those of its own rank.
pub proof fn lemma_insert_is_stable(listing: Seq<EntryView>, entry: EntryView, model: EntryView)
    ensures
        ranked_like(insert_in_order(listing, entry), model) == if same_rank(entry, model) {
            ranked_like(listing, model).push(entry)
        } else {
            ranked_like(listing, model)
        },
    decreases listing.len(),
{
    if listing.len() > 0 && comes_before(entry, listing.last()) {
        let shorter = listing.drop_last();
        let inner = insert_in_order(shorter, entry);
        lemma_insert_is_stable(shorter, entry, model);
        assert(inner.push(listing.last()).drop_last() =~= inner);
        if same_rank(entry, model) && same_rank(listing.last(), model) {
            lemma_same_iff_equal(entry.name, listing.last().name);
        }
    } else {
        assert(listing.push(entry).drop_last() =~= listing);
    }
}

/// Sorting is stable: the entries of each rank stand in the sorted listing
/// in the order in which the read gave them.
pub proof fn lemma_sorted_listing_stable(entries: Seq<EntryView>, model: EntryView)
    ensures
        ranked_like(sorted_listing(entries), model) == ranked_like(entries, model),
    decreases entries.len(),
{
    if entries.len() > 0 {
        lemma_sorted_listing_stable(entries.drop_last(), model);
        lemma_insert_is_stable(sorted_listing(entries.drop_last()), entries.last(), model);
    }
}

/// Two entries of which neither must be shown before the other rank alike.
pub proof fn lemma_neither_before_means_same_rank(a: EntryView, b: EntryView)
    requires
        !comes_before(a, b),
        !comes_before(b, a),
    ensures
        same_rank(a, b),
{
    lemma_order_mirrored(a.name, b.name);
    lemma_same_iff_equal(a.name, b.name);
}

/// The entries that rank with `model` are found in `ranked_like`: it is
/// empty exactly when no entry ranks with `model`.
pub proof fn lemma_ranked_like_members(entries: Seq<EntryView>, model: EntryView)
    ensures
        ranked_like(entries, model).len() > 0 <==> exists|i: int|
            0 <= i < entries.len() && same_rank(#[trigger] entries[i], model),
    decreases entries.len(),
{
    if entries.len() > 0 {
        let shorter = entries.drop_last();
        lemma_ranked_like_members(shorter, model);
        if same_rank(entries.last(), model) {
            assert(same_rank(entries[entries.len() - 1], model));
        } else if ranked_like(entries, model).len() > 0 {
            let i = choose|i: int| 0 <= i < shorter.len() && same_rank(#[trigger] shorter[i], model);
            assert(same_rank(entries[i], model));
        } else {
            assert forall|i: int| 0 <= i < entries.len() implies !same_rank(
                #[trigger] entries[i],
                model,
            ) by {
                if i < shorter.len() {
                    assert(shorter[i] == entries[i]);
                }
            }
        }
    }
}

/// Two ordered listings that hold, for every rank, the same entries in the
/// same order are the same listing.
pub proof fn lemma_display_order_unique(a: Seq<EntryView>, b: Seq<EntryView>)
    requires
        ordered(a),
        ordered(b),
        forall|model: EntryView| #[trigger] ranked_like(a, model) == ranked_like(b, model),
    ensures
        a == b,
    decreases a.len(),
{
    if a.len() == 0 {
        if b.len() > 0 {
            lemma_ranked_like_members(b, b.last());
            assert(same_rank(b[b.len() - 1], b.last()));
            assert(ranked_like(a, b.last()) == ranked_like(b, b.last()));
        }
        assert(a =~= b);
    } else {
        let x = a.last();
        assert(ranked_like(a, x) == ranked_like(b, x));
        assert(ranked_like(a, x).last() == x);
        let y = b.last();
        // Some entry of `b` ranks with `x`, and the last entry of `b` is not before it.
        lemma_ranked_like_members(b, x);
        let j = choose|j: int| 0 <= j < b.len() && same_rank(#[trigger] b[j], x);
        lemma_same_iff_equal(y.name, y.name);
        if j < b.len() - 1 {
            assert(!comes_before(b[b.len() - 1], b[j]));
        }
        assert(!comes_before(y, x));
        // Some entry of `a` ranks with `y`, and the last entry of `a` is not before it.
        assert(same_rank(b[b.len() - 1], y));
        lemma_ranked_like_members(b, y);
        assert(ranked_like(a, y) == ranked_like(b, y));
        lemma_ranked_like_members(a, y);
        let i = choose|i: int| 0 <= i < a.len() && same_rank(#[trigger] a[i], y);
        lemma_same_iff_equal(x.name, x.name);
        if i < a.len() - 1 {
            assert(!comes_before(a[a.len() - 1], a[i]));
        }
        assert(!comes_before(x, y));
        lemma_neither_before_means_same_rank(y, x);
        assert(ranked_like(b, x).last() == y);
        assert(x == y);
        let shorter_a = a.drop_last();
        let shorter_b = b.drop_last();
        assert forall|model: EntryView| #[trigger]
            ranked_like(shorter_a, model) == ranked_like(shorter_b, model) by {
            assert(ranked_like(a, model) == ranked_like(b, model));
            if same_rank(x, model) {
                assert(ranked_like(shorter_a, model).push(x).drop_last() =~= ranked_like(
                    shorter_a,
                    model,
                ));
                assert(ranked_like(shorter_b, model).push(y).drop_last() =~= ranked_like(
                    shorter_b,
                    model,
                ));
            }
        }
        assert forall|i: int, j: int| 0 <= i < j < shorter_a.len() implies !comes_before(
            shorter_a[j],
            shorter_a[i],
        ) by {
            assert(!comes_before(a[j], a[i]));
        }
        assert forall|i: int, j: int| 0 <= i < j < shorter_b.len() implies !comes_before(
            shorter_b[j],
            shorter_b[i],
        ) by {
            assert(!comes_before(b[j], b[i]));
        }
        lemma_display_order_unique(shorter_a, shorter_b);
        assert(a =~= shorter_a.push(x));
        assert(b =~= shorter_b.push(y));
    }
}

/// The sorted listing is the only ordered listing that holds, for every
/// rank, the entries of that rank in the order of the read.
pub proof fn lemma_sorted_listing_unique(entries: Seq<EntryView>, listing: Seq<EntryView>)
    requires
        ordered(listing),
        forall|model: EntryView| #[trigger]
            ranked_like(listing, model) == ranked_like(entries, model),
    ensures
        listing == sorted_listing(entries),
{
    lemma_sorted_listing_ordered(entries);
    assert forall|model: EntryView| #[trigger]
        ranked_like(listing, model) == ranked_like(sorted_listing(entries), model) by {
        lemma_sorted_listing_stable(entries, model);
        assert(ranked_like(listing, model) == ranked_like(entries, model));
    }
    lemma_display_order_unique(listing, sorted_listing(entries));
}

} // verus!
