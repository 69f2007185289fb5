use vstd::prelude::*;
use crate::models::{ClipboardItem, ItemView, item_views};
use crate::storage::{
    by_recency, enforce_max_items, load_clipboard_data, loaded, pinned_of, sort_by_recency,
    split_pinned, trimmed, unpinned_of,
};

verus! {

/// What a repository holds: its history, the bound on it, whether the history
/// changed since it was last handed out for saving, and where it is saved.
pub struct RepositoryView {
    pub items: Seq<ItemView>,
    pub max_items: u32,
    pub dirty: bool,
    pub data_dir: Seq<char>,
}

/// The clipboard history kept in memory; the data file is a snapshot of it
/// that `flush_now` hands out whenever the history changed.
pub struct ClipboardRepository {
    data_dir: String,
    max_items: u32,
    items: Vec<ClipboardItem>,
    dirty: bool,
}

impl View for ClipboardRepository {
    type V = RepositoryView;

    closed spec fn view(&self) -> RepositoryView {
        RepositoryView {
            items: item_views(self.items@),
            max_items: self.max_items,
            dirty: self.dirty,
            data_dir: self.data_dir@,
        }
    }
}

/// The history as it is shown: pinned entries first, then the others, each
/// group from newest to oldest.
pub open spec fn history_order(s: Seq<ItemView>) -> Seq<ItemView> {
    by_recency(pinned_of(s)) + by_recency(unpinned_of(s))
}

/// Whether an entry with the same content and type as `x` is present.
pub open spec fn has_duplicate(s: Seq<ItemView>, x: ItemView) -> bool {
    exists|i: int| 0 <= i < s.len() && s[i].content == x.content && s[i].item_type == x.item_type
}

/// Whether an entry with identifier `id` is present.
pub open spec fn has_id(s: Seq<ItemView>, id: Seq<char>) -> bool {
    exists|i: int| 0 <= i < s.len() && s[i].id == id
}

/// `i` is the position of the first entry with identifier `id`.
pub open spec fn is_first_with_id(s: Seq<ItemView>, id: Seq<char>, i: int) -> bool {
    &&& 0 <= i < s.len()
    &&& s[i].id == id
    &&& forall|j: int| 0 <= j < i ==> s[j].id != id
}

/// Whether an entry's identifier differs from `id`.
pub open spec fn id_is_not(id: Seq<char>) -> spec_fn(ItemView) -> bool {
    |x: ItemView| x.id != id
}

/// The history after importing `new`: each imported entry, in order, is
/// appended unless an entry with its identifier is already there.
pub open spec fn merge_by_id(cur: Seq<ItemView>, new: Seq<ItemView>) -> Seq<ItemView>
    decreases new.len(),
{
    if new.len() == 0 {
        cur
    } else {
        let m = merge_by_id(cur, new.drop_last());
        if has_id(m, new.last().id) {
            m
        } else {
            m.push(new.last())
        }
    }
}

/// What `add` of `x` does: it adds `x` exactly when no entry has the same
/// content and type; then `x` goes to the front, the history is cut down to
/// the bound and marked changed; otherwise nothing changes.
pub open spec fn add_outcome(
    before: RepositoryView,
    after: RepositoryView,
    x: ItemView,
    added: bool,
) -> bool {
    &&& added == !has_duplicate(before.items, x)
    &&& added ==> after == (RepositoryView {
        items: trimmed(seq![x] + before.items, before.max_items as nat),
        dirty: true,
        ..before
    })
    &&& !added ==> after == before
}

/// What `flush_now` does: a changed history is cut down to the bound, marked
/// saved and handed out as the snapshot; an unchanged one is left alone and
/// nothing is handed out.
pub open spec fn flush_outcome(
    before: RepositoryView,
    after: RepositoryView,
    snapshot: Option<Seq<ItemView>>,
) -> bool {
    if before.dirty {
        &&& after == (RepositoryView {
            items: trimmed(before.items, before.max_items as nat),
            dirty: false,
            ..before
        })
        &&& snapshot == Some(after.items)
    } else {
        after == before && snapshot is None
    }
}

/// The views of an optional list of entries.
pub open spec fn stored_views(stored: Option<Vec<ClipboardItem>>) -> Option<Seq<ItemView>> {
    match stored {
        Some(v) => Some(item_views(v@)),
        None => None,
    }
}

/// Copies every entry of a list, in order.
pub fn clone_items(v: &Vec<ClipboardItem>) -> (res: Vec<ClipboardItem>)
    ensures
        item_views(res@) == item_views(v@),
{
    let mut res: Vec<ClipboardItem> = Vec::new();
    for i in 0..v.len()
        invariant
            item_views(res@) == item_views(v@).take(i as int),
    {
        let ghost before = res@;
        res.push(v[i].clone());
        assert(item_views(res@) =~= item_views(v@).take(i + 1)) by {
            assert(item_views(res@) =~= item_views(before).push(v@[i as int]@));
        }
    }
    assert(item_views(v@).take(v.len() as int) =~= item_views(v@));
    res
}

/// Finds the first position of an entry with identifier `id`.
fn position_of_id(items: &Vec<ClipboardItem>, id: &String) -> (res: Option<usize>)
    ensures
        match res {
            Some(i) => is_first_with_id(item_views(items@), id@, i as int),
            None => !has_id(item_views(items@), id@),
        },
{
    let ghost vs = item_views(items@);
    for i in 0..items.len()
        invariant
            vs == item_views(items@),
            vs.len() == items@.len(),
            forall|j: int| 0 <= j < i ==> vs[j].id != id@,
    {
        if items[i].id == *id {
            return Some(i);
        }
    }
    None
}

impl ClipboardRepository {
    /// Opens the repository on what was read from its data file (`None` when
    /// there was nothing to read), cut down to `max_items`.
    pub fn new(data_dir: String, max_items: u32, stored: Option<Vec<ClipboardItem>>) -> (res: Self)
        ensures
            res@.items == loaded(stored_views(stored), max_items as nat),
            res@.max_items == max_items,
            !res@.dirty,
            res@.data_dir == data_dir@,
    {
        let items = load_clipboard_data(stored, max_items);
        ClipboardRepository { data_dir, max_items, items, dirty: false }
    }

    /// The directory that holds the data file.
    pub fn data_dir(&self) -> (res: &String)
        ensures
            res@ == self@.data_dir,
    {
        &self.data_dir
    }

    /// A copy of the whole history, in its stored order.
    pub fn get_items(&self) -> (res: Vec<ClipboardItem>)
        ensures
            item_views(res@) == self@.items,
    {
        clone_items(&self.items)
    }

    /// The first `max_items` entries of the history as it is shown: pinned
    /// entries first, then the others, each group from newest to oldest.
    pub fn get_history(&self, max_items: usize) -> (res: Vec<ClipboardItem>)
        ensures
            item_views(res@) == history_order(self@.items).take(
                if max_items < self@.items.len() { max_items as int } else { self@.items.len() as int },
            ),
    {
        let (pinned, rest) = split_pinned(&self.items);
        let mut sorted = sort_by_recency(&pinned);
        let mut others = sort_by_recency(&rest);
        proof {
            crate::storage::lemma_by_recency_len(pinned_of(self@.items));
            crate::storage::lemma_by_recency_len(unpinned_of(self@.items));
            crate::storage::lemma_filter_split_len(self@.items);
        }
        let ghost sv = sorted@;
        let ghost ov = others@;
        sorted.append(&mut others);
        assert(item_views(sorted@) =~= item_views(sv) + item_views(ov));
        sorted.truncate(max_items);
        assert(item_views(sorted@) =~= history_order(self@.items).take(
            if max_items < self@.items.len() { max_items as int } else { self@.items.len() as int },
        ));
        sorted
    }

    /// The first entry with identifier `id`, if there is one.
    pub fn find_by_id(&self, id: &str) -> (res: Option<ClipboardItem>)
        ensures
            match res {
                Some(x) => exists|i: int| is_first_with_id(self@.items, id@, i) && x@ == self@.items[i],
                None => !has_id(self@.items, id@),
            },
    {
        let key = id.to_owned();
        match position_of_id(&self.items, &key) {
            Some(i) => {
                assert(item_views(self.items@)[i as int] == self.items@[i as int]@);
                let x = self.items[i].clone();
                assert(is_first_with_id(self@.items, id@, i as int) && x@ == self@.items[i as int]);
                Some(x)
            },
            None => None,
        }
    }

    /// The number of entries.
    pub fn len(&self) -> (res: usize)
        ensures
            res == self@.items.len(),
    {
        self.items.len()
    }

    /// Whether the history is empty.
    pub fn is_empty(&self) -> (res: bool)
        ensures
            res == (self@.items.len() == 0),
    {
        self.items.len() == 0
    }

    /// Adds `item` at the front of the history and cuts the history down to
    /// the bound, unless an entry with the same content and type is already
    /// there; returns whether it was added.
    pub fn add(&mut self, item: ClipboardItem) -> (res: bool)
        ensures
            add_outcome(old(self)@, final(self)@, item@, res),
    {
        let ghost vs = item_views(self.items@);
        let mut dup = false;
        let mut i: usize = 0;
        while i < self.items.len()
            invariant
                vs == item_views(self.items@),
                vs.len() == self.items@.len(),
                i <= self.items@.len(),
                dup == (exists|j: int|
                    0 <= j < i && vs[j].content == item@.content && vs[j].item_type == item@.item_type),
            decreases self.items@.len() - i,
        {
            assert(vs[i as int] == self.items@[i as int]@);
            if self.items[i].content == item.content && self.items[i].item_type == item.item_type {
                dup = true;
            }
            i = i + 1;
        }
        if dup {
            return false;
        }
        let ghost before = self.items@;
        self.items.insert(0, item);
        assert(item_views(self.items@) =~= seq![item@] + item_views(before));
        enforce_max_items(&mut self.items, self.max_items);
        self.dirty = true;
        true
    }

    /// Removes every entry with identifier `id`.
    pub fn delete(&mut self, id: &str)
        ensures
            final(self)@ == (RepositoryView {
                items: old(self)@.items.filter(id_is_not(id@)),
                dirty: true,
                ..old(self)@
            }),
    {
        let key = id.to_owned();
        let ghost vs = item_views(self.items@);
        let mut kept: Vec<ClipboardItem> = Vec::new();
        for i in 0..self.items.len()
            invariant
                vs == item_views(self.items@),
                vs.len() == self.items@.len(),
                key@ == id@,
                item_views(kept@) == vs.take(i as int).filter(id_is_not(id@)),
        {
            proof {
                reveal(Seq::filter);
                assert(vs.take(i + 1).drop_last() =~= vs.take(i as int));
            }
            if self.items[i].id != key {
                let x = self.items[i].clone();
                let ghost before = kept@;
                kept.push(x);
                assert(item_views(kept@) =~= item_views(before).push(x@));
            }
        }
        assert(vs.take(self.items.len() as int) =~= vs);
        self.items = kept;
        self.dirty = true;
    }

    /// Replaces the first entry that has the identifier of `item` by `item`;
    /// does nothing when there is none.
    pub fn update(&mut self, item: ClipboardItem)
        ensures
            has_id(old(self)@.items, item@.id) ==> exists|i: int|
                is_first_with_id(old(self)@.items, item@.id, i) && final(self)@ == (RepositoryView {
                    items: old(self)@.items.update(i, item@),
                    dirty: true,
                    ..old(self)@
                }),
            !has_id(old(self)@.items, item@.id) ==> final(self)@ == old(self)@,
    {
        match position_of_id(&self.items, &item.id) {
            Some(idx) => {
                let ghost before = self.items@;
                let ghost iv = item@;
                self.items.set(idx, item);
                assert(item_views(self.items@) =~= item_views(before).update(idx as int, iv));
                self.dirty = true;
            },
            None => {},
        }
    }

    /// Empties the history.
    pub fn clear(&mut self)
        ensures
            final(self)@ == (RepositoryView { items: Seq::empty(), dirty: true, ..old(self)@ }),
    {
        self.items.clear();
        assert(item_views(self.items@) =~= Seq::<ItemView>::empty());
        self.dirty = true;
    }

    /// Imports entries: each one whose identifier is not yet present is
    /// appended, then the history is ordered from newest to oldest and cut
    /// down to the bound.
    pub fn import(&mut self, new_items: Vec<ClipboardItem>)
        ensures
            final(self)@ == (RepositoryView {
                items: trimmed(
                    by_recency(merge_by_id(old(self)@.items, item_views(new_items@))),
                    old(self)@.max_items as nat,
                ),
                dirty: true,
                ..old(self)@
            }),
    {
        let ghost start = item_views(self.items@);
        let ghost nv = item_views(new_items@);
        for i in 0..new_items.len()
            invariant
                nv == item_views(new_items@),
                nv.len() == new_items@.len(),
                item_views(self.items@) == merge_by_id(start, nv.take(i as int)),
                self.max_items == old(self).max_items,
                self.data_dir == old(self).data_dir,
        {
            assert(nv.take(i + 1).drop_last() =~= nv.take(i as int));
            let x = new_items[i].clone();
            match position_of_id(&self.items, &x.id) {
                Some(_) => {},
                None => {
                    let ghost before = self.items@;
                    self.items.push(x);
                    assert(item_views(self.items@) =~= item_views(before).push(x@));
                },
            }
        }
        assert(nv.take(new_items.len() as int) =~= nv);
        let mut sorted = sort_by_recency(&self.items);
        enforce_max_items(&mut sorted, self.max_items);
        self.items = sorted;
        self.dirty = true;
    }

    /// Sets the bound. Lowering it cuts the history down to the new bound and
    /// then flushes (see `flush_now`), whose snapshot is returned; raising it
    /// or keeping it changes nothing else and returns `None`.
    pub fn set_max_items(&mut self, new_max: u32) -> (res: Option<Vec<ClipboardItem>>)
        ensures
            final(self)@.max_items == new_max,
            final(self)@.data_dir == old(self)@.data_dir,
            new_max < old(self)@.max_items ==> ({
                &&& final(self)@.items == trimmed(old(self)@.items, new_max as nat)
                &&& !final(self)@.dirty
                &&& match res {
                    Some(v) => old(self)@.dirty && item_views(v@) == final(self)@.items,
                    None => !old(self)@.dirty,
                }
            }),
            new_max >= old(self)@.max_items ==> ({
                &&& final(self)@.items == old(self)@.items
                &&& final(self)@.dirty == old(self)@.dirty
                &&& (res is None)
            }),
    {
        let old_max = self.max_items;
        if new_max == old_max {
            return None;
        }
        self.max_items = new_max;
        if new_max < old_max {
            enforce_max_items(&mut self.items, new_max);
            proof {
                crate::storage::lemma_trimmed_idempotent(
                    item_views(old(self).items@),
                    new_max as nat,
                );
            }
            return self.flush_now();
        }
        None
    }

    /// The bound on the number of entries.
    pub fn max_items(&self) -> (res: u32)
        ensures
            res == self@.max_items,
    {
        self.max_items
    }

    /// When the history changed since the last flush: cuts it down to the
    /// bound, marks it saved and returns the snapshot that the data file is
    /// to hold; otherwise returns `None` and changes nothing.
    pub fn flush_now(&mut self) -> (res: Option<Vec<ClipboardItem>>)
        ensures
            flush_outcome(old(self)@, final(self)@, stored_views(res)),
    {
        if !self.dirty {
            return None;
        }
        self.dirty = false;
        enforce_max_items(&mut self.items, self.max_items);
        Some(clone_items(&self.items))
    }
}

// ------------------------------------------------------------------
// Laws of the repository
// ------------------------------------------------------------------

/// Every entry of `s` meets `p`.
pub open spec fn all_meet(s: Seq<ItemView>, p: spec_fn(ItemView) -> bool) -> bool {
    forall|i: int| 0 <= i < s.len() ==> p(#[trigger] s[i])
}

/// Sorting entries that all meet `p` gives entries that all meet `p`.
proof fn lemma_by_recency_all_meet(s: Seq<ItemView>, p: spec_fn(ItemView) -> bool)
    requires
        all_meet(s, p),
    ensures
        all_meet(by_recency(s), p),
{
    let r = by_recency(s);
    crate::storage::lemma_by_recency_properties(s);
    r.to_multiset_ensures();
    s.to_multiset_ensures();
    assert forall|i: int| 0 <= i < r.len() implies p(#[trigger] r[i]) by {
        assert(r.contains(r[i]));
        assert(r.to_multiset().count(r[i]) > 0);
        assert(s.contains(r[i]));
    }
}

/// Splitting entries into pinned and unpinned keeps every entry.
proof fn lemma_split_to_multiset(s: Seq<ItemView>)
    ensures
        (pinned_of(s) + unpinned_of(s)).to_multiset() == s.to_multiset(),
    decreases s.len(),
{
    broadcast use vstd::seq_lib::lemma_multiset_commutative;
    broadcast use vstd::seq_lib::to_multiset_build;

    reveal(Seq::filter);
    if s.len() == 0 {
        assert(pinned_of(s) + unpinned_of(s) =~= s);
    } else {
        let init = s.drop_last();
        lemma_split_to_multiset(init);
        assert(init.push(s.last()) =~= s);
    }
}

/// The history as shown holds exactly the entries of the history, pinned
/// entries before the others, and within each group newer entries before
/// older ones.
pub proof fn lemma_history_order_properties(s: Seq<ItemView>)
    ensures
        history_order(s).to_multiset() == s.to_multiset(),
        forall|i: int, j: int|
            0 <= i < j < history_order(s).len() ==> {
                let a = #[trigger] history_order(s)[i];
                let b = #[trigger] history_order(s)[j];
                (a.is_pinned && !b.is_pinned) || (a.is_pinned == b.is_pinned && a.created_at
                    >= b.created_at)
            },
{
    broadcast use vstd::seq_lib::lemma_multiset_commutative;
    broadcast use Seq::lemma_filter_pred;

    let ps = pinned_of(s);
    let us = unpinned_of(s);
    let p = by_recency(ps);
    let u = by_recency(us);
    crate::storage::lemma_by_recency_properties(ps);
    crate::storage::lemma_by_recency_properties(us);
    lemma_by_recency_all_meet(ps, |x: ItemView| x.is_pinned);
    lemma_by_recency_all_meet(us, |x: ItemView| !x.is_pinned);
    lemma_split_to_multiset(s);
    let h = history_order(s);
    assert forall|i: int, j: int| 0 <= i < j < h.len() implies {
        let a = #[trigger] h[i];
        let b = #[trigger] h[j];
        (a.is_pinned && !b.is_pinned) || (a.is_pinned == b.is_pinned && a.created_at
            >= b.created_at)
    } by {
        if j < p.len() {
            assert(h[i] == p[i] && h[j] == p[j]);
        } else if i < p.len() {
            assert(h[i] == p[i] && h[j] == u[j - p.len()]);
        } else {
            assert(h[i] == u[i - p.len()] && h[j] == u[j - p.len()]);
        }
    }
}

/// After deleting identifier `id`, no entry has it any more.
pub proof fn lemma_delete_removes_id(s: Seq<ItemView>, id: Seq<char>)
    ensures
        !has_id(s.filter(id_is_not(id)), id),
{
    broadcast use Seq::lemma_filter_pred;

}

/// Adding to a history that has room keeps the entry at the front without
/// dropping anything, and adding an entry with the same content and type
/// right after is refused and changes nothing.
pub proof fn lemma_add_then_duplicate(
    a: RepositoryView,
    b: RepositoryView,
    c: RepositoryView,
    x: ItemView,
    y: ItemView,
    added_again: bool,
)
    requires
        a.items.len() < a.max_items,
        add_outcome(a, b, x, true),
        add_outcome(b, c, y, added_again),
        y.content == x.content,
        y.item_type == x.item_type,
    ensures
        b.items == seq![x] + a.items,
        !added_again,
        c == b,
{
    assert(b.items[0] == x);
}

/// A flush right after a flush hands out nothing and changes nothing.
pub proof fn lemma_flush_twice(
    a: RepositoryView,
    b: RepositoryView,
    c: RepositoryView,
    first: Option<Seq<ItemView>>,
    second: Option<Seq<ItemView>>,
)
    requires
        flush_outcome(a, b, first),
        flush_outcome(b, c, second),
    ensures
        second is None,
        c == b,
{
}

/// A history flushed to its data file and loaded again with the same bound
/// is the history that was flushed.
pub proof fn lemma_flush_then_reload(
    a: RepositoryView,
    b: RepositoryView,
    snapshot: Seq<ItemView>,
)
    requires
        flush_outcome(a, b, Some(snapshot)),
    ensures
        loaded(Some(snapshot), b.max_items as nat) == b.items,
{
    crate::storage::lemma_trimmed_idempotent(a.items, a.max_items as nat);
}

/// After replacing the first entry with identifier `id`, that entry is the
/// first one with `id` and holds the replacement.
pub proof fn lemma_update_then_find(s: Seq<ItemView>, x: ItemView, i: int)
    requires
        is_first_with_id(s, x.id, i),
    ensures
        is_first_with_id(s.update(i, x), x.id, i),
        s.update(i, x)[i] == x,
{
}

/// No two entries share a key.
pub open spec fn unique_by<K>(s: Seq<ItemView>, key: spec_fn(ItemView) -> K) -> bool {
    forall|i: int, j: int| 0 <= i < j < s.len() ==> key(s[i]) != key(s[j])
}

/// An entry's identifier.
pub open spec fn id_key() -> spec_fn(ItemView) -> Seq<char> {
    |x: ItemView| x.id
}

/// What makes two entries duplicates: their content and type.
pub open spec fn content_key() -> spec_fn(ItemView) -> (Seq<char>, Seq<char>) {
    |x: ItemView| (x.content, x.item_type)
}

/// No two entries share an identifier.
pub open spec fn unique_ids(s: Seq<ItemView>) -> bool {
    forall|i: int, j: int| 0 <= i < j < s.len() ==> s[i].id != s[j].id
}

/// Importing never brings a second entry with an identifier already present,
/// and every imported identifier is present afterwards.
pub proof fn lemma_merge_by_id(cur: Seq<ItemView>, new: Seq<ItemView>)
    requires
        unique_ids(cur),
    ensures
        unique_ids(merge_by_id(cur, new)),
        forall|k: int| 0 <= k < new.len() ==> has_id(merge_by_id(cur, new), #[trigger] new[k].id),
        forall|k: int| 0 <= k < cur.len() ==> #[trigger] merge_by_id(cur, new)[k] == cur[k],
        merge_by_id(cur, new).len() >= cur.len(),
    decreases new.len(),
{
    if new.len() > 0 {
        let init = new.drop_last();
        lemma_merge_by_id(cur, init);
        let m = merge_by_id(cur, init);
        let r = merge_by_id(cur, new);
        assert forall|k: int| 0 <= k < new.len() implies has_id(r, #[trigger] new[k].id) by {
            if k < new.len() - 1 {
                assert(new[k] == init[k]);
                let w = choose|w: int| 0 <= w < m.len() && m[w].id == init[k].id;
                assert(r[w] == m[w]);
            } else if !has_id(m, new.last().id) {
                assert(r[m.len() as int] == new.last());
            }
        }
    }
}

/// Entries with pairwise different keys are pairwise different.
proof fn lemma_unique_by_no_duplicates<K>(s: Seq<ItemView>, key: spec_fn(ItemView) -> K)
    requires
        unique_by(s, key),
    ensures
        s.no_duplicates(),
{
    assert forall|i: int, j: int| 0 <= i < s.len() && 0 <= j < s.len() && i != j implies s[i]
        != s[j] by {
        if i < j {
            assert(key(s[i]) != key(s[j]));
        } else {
            assert(key(s[j]) != key(s[i]));
        }
    }
}

/// Reordering entries keeps their keys pairwise different.
proof fn lemma_unique_by_permutation<K>(s: Seq<ItemView>, r: Seq<ItemView>, key: spec_fn(ItemView) -> K)
    requires
        unique_by(s, key),
        r.to_multiset() == s.to_multiset(),
    ensures
        unique_by(r, key),
{
    lemma_unique_by_no_duplicates(s, key);
    s.lemma_multiset_has_no_duplicates();
    r.lemma_multiset_has_no_duplicates_conv();
    s.to_multiset_ensures();
    r.to_multiset_ensures();
    assert forall|i: int, j: int| 0 <= i < j < r.len() implies key(r[i]) != key(r[j]) by {
        assert(r[i] != r[j]);
        assert(r.contains(r[i]) && r.contains(r[j]));
        assert(s.to_multiset().count(r[i]) > 0 && s.to_multiset().count(r[j]) > 0);
        let a = choose|a: int| 0 <= a < s.len() && s[a] == r[i];
        let b = choose|b: int| 0 <= b < s.len() && s[b] == r[j];
        assert(a != b);
        if a < b {
            assert(key(s[a]) != key(s[b]));
        } else {
            assert(key(s[b]) != key(s[a]));
        }
    }
}

/// Keeping some of the entries keeps their keys pairwise different.
proof fn lemma_unique_by_filter<K>(s: Seq<ItemView>, p: spec_fn(ItemView) -> bool, key: spec_fn(ItemView) -> K)
    requires
        unique_by(s, key),
    ensures
        unique_by(s.filter(p), key),
    decreases s.len(),
{
    broadcast use Seq::lemma_filter_contains_rev;

    reveal(Seq::filter);
    if s.len() > 0 {
        let init = s.drop_last();
        lemma_unique_by_filter(init, p, key);
        let f = init.filter(p);
        if p(s.last()) {
            let g = f.push(s.last());
            assert forall|i: int, j: int| 0 <= i < j < g.len() implies key(g[i]) != key(g[j]) by {
                if j == g.len() - 1 {
                    assert(f.contains(g[i]));
                    assert(init.contains(g[i]));
                    let a = choose|a: int| 0 <= a < init.len() && init[a] == g[i];
                    assert(s[a] == g[i]);
                    assert(key(s[a]) != key(s[s.len() - 1]));
                } else {
                    assert(g[i] == f[i] && g[j] == f[j]);
                }
            }
        }
    }
}

/// Truncation keeps keys pairwise different.
proof fn lemma_unique_by_trimmed<K>(s: Seq<ItemView>, max: nat, key: spec_fn(ItemView) -> K)
    requires
        unique_by(s, key),
    ensures
        unique_by(trimmed(s, max), key),
{
    broadcast use Seq::lemma_filter_contains_rev;
    broadcast use Seq::lemma_filter_pred;

    if s.len() > max {
        let ps = pinned_of(s);
        let us = unpinned_of(s);
        let r = by_recency(us);
        crate::storage::lemma_by_recency_properties(us);
        crate::storage::lemma_by_recency_len(us);
        crate::storage::lemma_filter_split_len(s);
        lemma_unique_by_filter(s, |x: ItemView| x.is_pinned, key);
        lemma_unique_by_filter(s, |x: ItemView| !x.is_pinned, key);
        lemma_unique_by_permutation(us, r, key);
        lemma_by_recency_all_meet(us, |x: ItemView| !x.is_pinned);
        let k = crate::storage::unpinned_room(max, ps.len());
        let t = r.take(k as int);
        let whole = ps + t;
        assert(whole == trimmed(s, max));
        r.to_multiset_ensures();
        us.to_multiset_ensures();
        assert forall|i: int, j: int| 0 <= i < j < whole.len() implies key(whole[i])
            != key(whole[j]) by {
            if j < ps.len() {
                assert(whole[i] == ps[i] && whole[j] == ps[j]);
            } else if i >= ps.len() {
                assert(whole[i] == r[i - ps.len()] && whole[j] == r[j - ps.len()]);
            } else {
                let x = ps[i];
                let y = r[j - ps.len()];
                assert(whole[i] == x && whole[j] == y);
                assert(ps.contains(x));
                assert(s.contains(x));
                assert(r.contains(y));
                assert(us.to_multiset().count(y) > 0);
                assert(us.contains(y));
                assert(s.contains(y));
                assert(x.is_pinned);
                assert(!y.is_pinned);
                let a = choose|a: int| 0 <= a < s.len() && s[a] == x;
                let b = choose|b: int| 0 <= b < s.len() && s[b] == y;
                assert(a != b);
                if a < b {
                    assert(key(s[a]) != key(s[b]));
                } else {
                    assert(key(s[b]) != key(s[a]));
                }
            }
        }
    }
}

/// Importing into a history whose identifiers are pairwise different keeps
/// them pairwise different: no entry is ever there twice.
pub proof fn lemma_import_keeps_ids_unique(cur: Seq<ItemView>, new: Seq<ItemView>, max: nat)
    requires
        unique_ids(cur),
    ensures
        unique_ids(trimmed(by_recency(merge_by_id(cur, new)), max)),
{
    let m = merge_by_id(cur, new);
    lemma_merge_by_id(cur, new);
    crate::storage::lemma_by_recency_properties(m);
    assert(unique_by(m, id_key()));
    lemma_unique_by_permutation(m, by_recency(m), id_key());
    lemma_unique_by_trimmed(by_recency(m), max, id_key());
    let t = trimmed(by_recency(m), max);
    assert forall|i: int, j: int| 0 <= i < j < t.len() implies t[i].id != t[j].id by {
        assert(id_key()(t[i]) != id_key()(t[j]));
    }
}

/// Each entry that a truncation keeps comes from the truncated history.
proof fn lemma_trimmed_from(s: Seq<ItemView>, max: nat)
    ensures
        forall|i: int| 0 <= i < trimmed(s, max).len() ==> s.contains(#[trigger] trimmed(s, max)[i]),
{
    broadcast use Seq::lemma_filter_contains_rev;

    if s.len() > max {
        let ps = pinned_of(s);
        let us = unpinned_of(s);
        let r = by_recency(us);
        crate::storage::lemma_by_recency_properties(us);
        crate::storage::lemma_by_recency_len(us);
        crate::storage::lemma_filter_split_len(s);
        r.to_multiset_ensures();
        us.to_multiset_ensures();
        let t = trimmed(s, max);
        assert forall|i: int| 0 <= i < t.len() implies s.contains(#[trigger] t[i]) by {
            if i < ps.len() {
                assert(t[i] == ps[i]);
                assert(ps.contains(ps[i]));
            } else {
                let y = r[i - ps.len()];
                assert(t[i] == y);
                assert(r.contains(y));
                assert(us.to_multiset().count(y) > 0);
                assert(us.contains(y));
            }
        }
    }
}

/// Each entry of an import's result is an entry that was there, or an
/// imported entry whose identifier was not there; the entries that were
/// there stay first, in their order.
proof fn lemma_merge_sources(cur: Seq<ItemView>, new: Seq<ItemView>)
    ensures
        merge_by_id(cur, new).len() >= cur.len(),
        forall|k: int| 0 <= k < cur.len() ==> #[trigger] merge_by_id(cur, new)[k] == cur[k],
        forall|i: int|
            0 <= i < merge_by_id(cur, new).len() ==> cur.contains(#[trigger] merge_by_id(cur, new)[i])
                || (new.contains(merge_by_id(cur, new)[i]) && !has_id(
                cur,
                merge_by_id(cur, new)[i].id,
            )),
    decreases new.len(),
{
    if new.len() > 0 {
        let init = new.drop_last();
        lemma_merge_sources(cur, init);
        let m = merge_by_id(cur, init);
        let r = merge_by_id(cur, new);
        assert forall|i: int| 0 <= i < r.len() implies cur.contains(#[trigger] r[i]) || (new.contains(
            r[i],
        ) && !has_id(cur, r[i].id)) by {
            if i < m.len() {
                assert(r[i] == m[i]);
                if !cur.contains(m[i]) {
                    let k = choose|k: int| 0 <= k < init.len() && init[k] == m[i];
                    assert(new[k] == init[k]);
                }
            } else {
                assert(r[i] == new.last());
                assert(new[new.len() - 1] == new.last());
                if has_id(cur, new.last().id) {
                    let k = choose|k: int| 0 <= k < cur.len() && cur[k].id == new.last().id;
                    assert(m[k] == cur[k]);
                }
            }
        }
    }
}

/// An import keeps what was there: every entry afterwards was there before
/// or was imported, and an entry whose identifier was there before is the
/// entry that was there, never an imported one.
pub proof fn lemma_import_prefers_existing(cur: Seq<ItemView>, new: Seq<ItemView>, max: nat)
    ensures
        forall|i: int|
            0 <= i < trimmed(by_recency(merge_by_id(cur, new)), max).len() ==> {
                let y = #[trigger] trimmed(by_recency(merge_by_id(cur, new)), max)[i];
                &&& cur.contains(y) || new.contains(y)
                &&& has_id(cur, y.id) ==> cur.contains(y)
            },
{
    let m = merge_by_id(cur, new);
    let sorted = by_recency(m);
    let t = trimmed(sorted, max);
    lemma_merge_sources(cur, new);
    crate::storage::lemma_by_recency_properties(m);
    sorted.to_multiset_ensures();
    m.to_multiset_ensures();
    lemma_trimmed_from(sorted, max);
    assert forall|i: int| 0 <= i < t.len() implies {
        let y = #[trigger] t[i];
        &&& cur.contains(y) || new.contains(y)
        &&& has_id(cur, y.id) ==> cur.contains(y)
    } by {
        let y = t[i];
        assert(sorted.contains(y));
        assert(sorted.to_multiset().count(y) > 0);
        assert(m.contains(y));
        let k = choose|k: int| 0 <= k < m.len() && m[k] == y;
        assert(cur.contains(m[k]) || (new.contains(m[k]) && !has_id(cur, m[k].id)));
    }
}

/// A successful add keeps content-and-type pairs pairwise different, and
/// leaves at most as many entries as the bound, or as the pinned entries
/// when they alone are more.
pub proof fn lemma_add_keeps_history_sound(a: RepositoryView, b: RepositoryView, x: ItemView)
    requires
        unique_by(a.items, content_key()),
        add_outcome(a, b, x, true),
    ensures
        unique_by(b.items, content_key()),
        b.items.len() <= a.max_items || b.items.len() == pinned_of(b.items).len(),
{
    let t = seq![x] + a.items;
    assert forall|i: int, j: int| 0 <= i < j < t.len() implies content_key()(t[i])
        != content_key()(t[j]) by {
        if i == 0 {
            assert(t[j] == a.items[j - 1]);
            if content_key()(t[i]) == content_key()(t[j]) {
                assert(a.items[j - 1].content == x.content && a.items[j - 1].item_type
                    == x.item_type);
            }
        } else {
            assert(t[i] == a.items[i - 1] && t[j] == a.items[j - 1]);
        }
    }
    lemma_unique_by_trimmed(t, a.max_items as nat, content_key());
    crate::storage::lemma_trimmed_len(t, a.max_items as nat);
    crate::storage::lemma_trimmed_keeps_pinned(t, a.max_items as nat);
}

} // verus!
