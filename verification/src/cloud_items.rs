//! The item metadata that a cloud scan caches: a map from item id to
//! `CachedItem`, kept as a vector whose ids are pairwise distinct.

use vstd::prelude::*;
use crate::text::to_owned_string;

verus! {

/// One file or folder of a cloud drive, as the scan caches it.
#[derive(Debug)]
pub struct CachedItem {
    pub id: String,
    pub parent_id: Option<String>,
    pub name: String,
    pub size: u64,
    pub is_folder: bool,
}

/// The mathematical model of a `CachedItem`.
pub ghost struct ItemView {
    pub id: Seq<char>,
    pub parent_id: Option<Seq<char>>,
    pub name: Seq<char>,
    pub size: u64,
    pub is_folder: bool,
}

pub open spec fn opt_string_view(o: Option<String>) -> Option<Seq<char>> {
    match o {
        Some(s) => Some(s@),
        None => None,
    }
}

impl View for CachedItem {
    type V = ItemView;

    open spec fn view(&self) -> ItemView {
        ItemView {
            id: self.id@,
            parent_id: opt_string_view(self.parent_id),
            name: self.name@,
            size: self.size,
            is_folder: self.is_folder,
        }
    }
}

/// A copy of an optional string.
pub fn copy_opt_string(o: &Option<String>) -> (r: Option<String>)
    ensures
        r == *o,
        opt_string_view(r) == opt_string_view(*o),
{
    match o {
        Some(s) => Some(s.clone()),
        None => None,
    }
}

/// A copy of a list of strings.
pub fn copy_strings(v: &Vec<String>) -> (r: Vec<String>)
    ensures
        r@ == v@,
{
    let mut r: Vec<String> = Vec::new();
    for k in 0..v.len()
        invariant
            r@ == v@.take(k as int),
    {
        r.push(v[k].clone());
        assert(v@.take(k + 1) == v@.take(k as int).push(v@[k as int]));
    }
    assert(v@.take(v@.len() as int) == v@);
    r
}

impl CachedItem {
    /// A copy of the item.
    pub fn duplicate(&self) -> (r: CachedItem)
        ensures
            r@ == self@,
    {
        CachedItem {
            id: self.id.clone(),
            parent_id: copy_opt_string(&self.parent_id),
            name: self.name.clone(),
            size: self.size,
            is_folder: self.is_folder,
        }
    }
}

pub open spec fn items_view(v: Seq<CachedItem>) -> Seq<ItemView> {
    v.map_values(|x: CachedItem| x@)
}

/// No two items share an id: the sequence is the table of a map.
pub open spec fn ids_distinct(s: Seq<ItemView>) -> bool {
    forall|i: int, j: int| 0 <= i < s.len() && 0 <= j < s.len() && i != j ==> s[i].id != s[j].id
}

/// Some item has this id.
pub open spec fn has_id(s: Seq<ItemView>, id: Seq<char>) -> bool {
    exists|k: int| 0 <= k < s.len() && s[k].id == id
}

/// The map that the item table stands for.
pub open spec fn as_map(s: Seq<ItemView>) -> Map<Seq<char>, ItemView> {
    Map::new(|id: Seq<char>| has_id(s, id), |id: Seq<char>| s[choose|k: int| 0 <= k < s.len() && s[k].id == id])
}

/// The table after inserting an item: an item with the same id is replaced
/// in place, otherwise the item is appended (`HashMap::insert`).
pub open spec fn insert_item(s: Seq<ItemView>, x: ItemView) -> Seq<ItemView> {
    if has_id(s, x.id) {
        s.update(choose|k: int| 0 <= k < s.len() && s[k].id == x.id, x)
    } else {
        s.push(x)
    }
}

/// The table after removing the item with this id, if any (`HashMap::remove`).
pub open spec fn remove_item(s: Seq<ItemView>, id: Seq<char>) -> Seq<ItemView> {
    if has_id(s, id) {
        s.remove(choose|k: int| 0 <= k < s.len() && s[k].id == id)
    } else {
        s
    }
}

/// `id` is `root` or lies below it: a chain of at most `k` parent links
/// leads from the item with id `id` to `root`.
pub open spec fn below_within(s: Seq<ItemView>, root: Seq<char>, id: Seq<char>, k: nat) -> bool
    decreases k,
{
    id == root || (k > 0 && exists|j: int|
        0 <= j < s.len() && #[trigger] s[j].id == id && (match s[j].parent_id {
            Some(p) => below_within(s, root, p, (k - 1) as nat),
            None => false,
        }))
}

/// `id` is `root` or one of its descendants through parent links.
pub open spec fn in_subtree(s: Seq<ItemView>, root: Seq<char>, id: Seq<char>) -> bool {
    exists|k: nat| below_within(s, root, id, k)
}

/// The table without `root` and everything below it, order kept.
pub open spec fn without_subtree(s: Seq<ItemView>, root: Seq<char>) -> Seq<ItemView> {
    s.filter(outside_subtree(s, root))
}

/// The predicate of the items that `without_subtree` keeps.
pub open spec fn outside_subtree(s: Seq<ItemView>, root: Seq<char>) -> spec_fn(ItemView) -> bool {
    |x: ItemView| !in_subtree(s, root, x.id)
}

spec fn keep_matches(s: Seq<ItemView>, root: Seq<char>, marked: Seq<bool>) -> bool {
    forall|j: int| 0 <= j < s.len() ==> (#[trigger] outside_subtree(s, root)(s[j]) == !(s[j].id == root || marked[j]))
}

proof fn lemma_keep_at(s: Seq<ItemView>, root: Seq<char>, marked: Seq<bool>, j: int)
    requires
        keep_matches(s, root, marked),
        0 <= j < s.len(),
    ensures
        outside_subtree(s, root)(s[j]) == !(s[j].id == root || marked[j]),
{
}

proof fn lemma_keep_iff(s: Seq<ItemView>, root: Seq<char>, marked: Seq<bool>)
    requires
        ids_distinct(s),
        marked.len() == s.len(),
        marks_sound(s, root, marked),
        marks_closed(s, root, marked),
    ensures
        keep_matches(s, root, marked),
{
    assert forall|j: int| 0 <= j < s.len() implies (#[trigger] outside_subtree(s, root)(s[j]) == !(s[j].id == root || marked[j])) by {
        if marked[j] {
            assert(in_subtree(s, root, s[j].id));
        } else if s[j].id == root {
            assert(below_within(s, root, s[j].id, 0));
        } else if in_subtree(s, root, s[j].id) {
            let k = choose|k: nat| below_within(s, root, s[j].id, k);
            lemma_closed_complete(s, root, marked, s[j].id, k);
            let m = choose|m: int| 0 <= m < s.len() && marked[m] && s[m].id == s[j].id;
            assert(m == j);
        }
    }
}

/// Dropping items keeps the ids distinct.
pub proof fn lemma_filter_distinct(s: Seq<ItemView>, p: spec_fn(ItemView) -> bool)
    requires
        ids_distinct(s),
    ensures
        ids_distinct(s.filter(p)),
    decreases s.len(),
{
    reveal_with_fuel(Seq::<_>::filter, 1);
    if s.len() > 0 {
        let d = s.drop_last();
        assert(ids_distinct(d));
        lemma_filter_distinct(d, p);
        let f = d.filter(p);
        if p(s.last()) {
            assert forall|a: int| 0 <= a < f.len() implies f[a].id != s.last().id by {
                assert(f.contains(f[a]));
                d.lemma_filter_contains_rev(p, f[a]);
                let k = choose|k: int| 0 <= k < d.len() && d[k] == f[a];
                assert(s[k] == d[k]);
            }
            let g = f.push(s.last());
            assert forall|a: int, b: int| 0 <= a < g.len() && 0 <= b < g.len() && a != b implies g[a].id != g[b].id by {
                if a < f.len() && b < f.len() {
                } else if a == f.len() {
                    assert(g[b] == f[b]);
                } else {
                    assert(g[a] == f[a]);
                }
            }
        }
    }
}

/// `x` is `root` or the id of a marked item.
spec fn marked_id(s: Seq<ItemView>, root: Seq<char>, marked: Seq<bool>, x: Seq<char>) -> bool {
    x == root || exists|k: int| 0 <= k < s.len() && marked[k] && s[k].id == x
}

/// Every marked item lies in the subtree.
spec fn marks_sound(s: Seq<ItemView>, root: Seq<char>, marked: Seq<bool>) -> bool {
    forall|j: int| 0 <= j < s.len() && #[trigger] marked[j] ==> in_subtree(s, root, s[j].id)
}

/// Every item whose parent is the root or a marked item is marked.
spec fn marks_closed(s: Seq<ItemView>, root: Seq<char>, marked: Seq<bool>) -> bool {
    forall|j: int|
        0 <= j < s.len() && (#[trigger] s[j].parent_id matches Some(p) && marked_id(s, root, marked, p))
            ==> marked[j]
}

proof fn lemma_marked_id_in_subtree(s: Seq<ItemView>, root: Seq<char>, marked: Seq<bool>, x: Seq<char>)
    requires
        marked.len() == s.len(),
        marks_sound(s, root, marked),
        marked_id(s, root, marked, x),
    ensures
        in_subtree(s, root, x),
{
    if x == root {
        assert(below_within(s, root, x, 0));
    } else {
        let k = choose|k: int| 0 <= k < s.len() && marked[k] && s[k].id == x;
        assert(marked[k]);
    }
}

proof fn lemma_child_in_subtree(s: Seq<ItemView>, root: Seq<char>, marked: Seq<bool>, j: int, p: Seq<char>)
    requires
        marked.len() == s.len(),
        marks_sound(s, root, marked),
        0 <= j < s.len(),
        s[j].parent_id == Some(p),
        marked_id(s, root, marked, p),
    ensures
        in_subtree(s, root, s[j].id),
{
    lemma_marked_id_in_subtree(s, root, marked, p);
    let k = choose|k: nat| below_within(s, root, p, k);
    assert(below_within(s, root, s[j].id, (k + 1) as nat));
}

proof fn lemma_closed_complete(s: Seq<ItemView>, root: Seq<char>, marked: Seq<bool>, x: Seq<char>, k: nat)
    requires
        marked.len() == s.len(),
        marks_closed(s, root, marked),
        below_within(s, root, x, k),
    ensures
        marked_id(s, root, marked, x),
    decreases k,
{
    if x != root {
        let j = choose|j: int| 0 <= j < s.len() && #[trigger] s[j].id == x && (match s[j].parent_id {
            Some(p) => below_within(s, root, p, (k - 1) as nat),
            None => false,
        });
        match s[j].parent_id {
            Some(p) => {
                assert(below_within(s, root, p, (k - 1) as nat));
                lemma_closed_complete(s, root, marked, p, (k - 1) as nat);
                assert(marked[j]);
            },
            None => {
                assert(false);
            },
        }
    }
}

// ---------------------------------------------------------------------
// The table as a map
// ---------------------------------------------------------------------

proof fn lemma_unique_index(s: Seq<ItemView>, k: int)
    requires
        ids_distinct(s),
        0 <= k < s.len(),
    ensures
        (choose|m: int| 0 <= m < s.len() && s[m].id == s[k].id) == k,
{
    let c = choose|m: int| 0 <= m < s.len() && s[m].id == s[k].id;
    assert(0 <= c < s.len() && s[c].id == s[k].id);
}

/// Inserting into the table stores the item under its id and leaves every
/// other id as it was (`HashMap::insert`).
pub proof fn law_insert_item(s: Seq<ItemView>, x: ItemView)
    requires
        ids_distinct(s),
    ensures
        ids_distinct(insert_item(s, x)),
        as_map(insert_item(s, x)) == as_map(s).insert(x.id, x),
{
    let t = insert_item(s, x);
    if has_id(s, x.id) {
        let c = choose|k: int| 0 <= k < s.len() && s[k].id == x.id;
        assert(t == s.update(c, x));
        assert forall|a: int, b: int| 0 <= a < t.len() && 0 <= b < t.len() && a != b implies t[a].id != t[b].id by {
            if a != c && b != c {
                assert(t[a] == s[a] && t[b] == s[b]);
            } else if a == c {
                assert(t[b] == s[b]);
            } else {
                assert(t[a] == s[a]);
            }
        }
        assert forall|id: Seq<char>| #[trigger] has_id(t, id) == (has_id(s, id) || id == x.id) by {
            if has_id(s, id) {
                let k = choose|k: int| 0 <= k < s.len() && s[k].id == id;
                assert(t[k].id == id);
            }
            if id == x.id {
                assert(t[c].id == id);
            }
            if has_id(t, id) {
                let k = choose|k: int| 0 <= k < t.len() && t[k].id == id;
                if k != c {
                    assert(s[k].id == id);
                }
            }
        }
        assert forall|id: Seq<char>| has_id(t, id) implies #[trigger] as_map(t)[id] == as_map(s).insert(x.id, x)[id] by {
            let k = choose|k: int| 0 <= k < t.len() && t[k].id == id;
            lemma_unique_index(t, k);
            if k == c {
            } else {
                assert(s[k] == t[k]);
                lemma_unique_index(s, k);
            }
        }
    } else {
        assert(t == s.push(x));
        assert forall|a: int, b: int| 0 <= a < t.len() && 0 <= b < t.len() && a != b implies t[a].id != t[b].id by {
            if a < s.len() && b < s.len() {
                assert(t[a] == s[a] && t[b] == s[b]);
            } else if a == s.len() {
                assert(t[b] == s[b]);
                assert(!(s[b].id == x.id));
            } else {
                assert(t[a] == s[a]);
                assert(!(s[a].id == x.id));
            }
        }
        assert forall|id: Seq<char>| #[trigger] has_id(t, id) == (has_id(s, id) || id == x.id) by {
            if has_id(s, id) {
                let k = choose|k: int| 0 <= k < s.len() && s[k].id == id;
                assert(t[k].id == id);
            }
            if id == x.id {
                assert(t[s.len() as int].id == id);
            }
            if has_id(t, id) {
                let k = choose|k: int| 0 <= k < t.len() && t[k].id == id;
                if k < s.len() {
                    assert(s[k].id == id);
                }
            }
        }
        assert forall|id: Seq<char>| has_id(t, id) implies #[trigger] as_map(t)[id] == as_map(s).insert(x.id, x)[id] by {
            let k = choose|k: int| 0 <= k < t.len() && t[k].id == id;
            lemma_unique_index(t, k);
            if k < s.len() {
                assert(s[k] == t[k]);
                lemma_unique_index(s, k);
            }
        }
    }
    assert(as_map(t) =~= as_map(s).insert(x.id, x));
}

/// Removing from the table drops the item with this id and leaves every
/// other id as it was (`HashMap::remove`).
pub proof fn law_remove_item(s: Seq<ItemView>, id: Seq<char>)
    requires
        ids_distinct(s),
    ensures
        ids_distinct(remove_item(s, id)),
        as_map(remove_item(s, id)) == as_map(s).remove(id),
{
    let t = remove_item(s, id);
    if has_id(s, id) {
        let c = choose|k: int| 0 <= k < s.len() && s[k].id == id;
        assert(t == s.remove(c));
        assert forall|a: int| 0 <= a < t.len() implies #[trigger] t[a] == s[if a < c { a } else { a + 1 }] by {}
        assert forall|a: int, b: int| 0 <= a < t.len() && 0 <= b < t.len() && a != b implies t[a].id != t[b].id by {
            let a2 = if a < c { a } else { a + 1 };
            let b2 = if b < c { b } else { b + 1 };
            assert(t[a] == s[a2] && t[b] == s[b2]);
        }
        assert forall|q: Seq<char>| #[trigger] has_id(t, q) == (has_id(s, q) && q != id) by {
            if has_id(t, q) {
                let k = choose|k: int| 0 <= k < t.len() && t[k].id == q;
                let k2 = if k < c { k } else { k + 1 };
                assert(s[k2].id == q);
                assert(k2 != c);
            }
            if has_id(s, q) && q != id {
                let k = choose|k: int| 0 <= k < s.len() && s[k].id == q;
                assert(k != c);
                let k1 = if k < c { k } else { k - 1 };
                assert(t[k1] == s[k]);
            }
        }
        assert forall|q: Seq<char>| has_id(t, q) implies #[trigger] as_map(t)[q] == as_map(s).remove(id)[q] by {
            let k = choose|k: int| 0 <= k < t.len() && t[k].id == q;
            lemma_unique_index(t, k);
            let k2 = if k < c { k } else { k + 1 };
            assert(s[k2] == t[k]);
            lemma_unique_index(s, k2);
        }
    } else {
        assert forall|q: Seq<char>| #[trigger] has_id(t, q) == (has_id(s, q) && q != id) by {}
    }
    assert(as_map(t) =~= as_map(s).remove(id));
}

proof fn lemma_filter_all(s: Seq<ItemView>, p: spec_fn(ItemView) -> bool)
    requires
        forall|i: int| 0 <= i < s.len() ==> p(#[trigger] s[i]),
    ensures
        s.filter(p) == s,
    decreases s.len(),
{
    reveal(Seq::filter);
    if s.len() > 0 {
        lemma_filter_all(s.drop_last(), p);
        assert(s.drop_last().push(s.last()) == s);
    }
}

/// A parent chain through a table whose items all occur in another table is
/// a chain through that table too.
proof fn lemma_below_within_sub(t: Seq<ItemView>, s: Seq<ItemView>, root: Seq<char>, id: Seq<char>, k: nat)
    requires
        forall|j: int| 0 <= j < t.len() ==> s.contains(#[trigger] t[j]),
        below_within(t, root, id, k),
    ensures
        below_within(s, root, id, k),
    decreases k,
{
    if id != root {
        let j = choose|j: int|
            0 <= j < t.len() && #[trigger] t[j].id == id && (match t[j].parent_id {
                Some(p) => below_within(t, root, p, (k - 1) as nat),
                None => false,
            });
        assert(s.contains(t[j]));
        let i = choose|i: int| 0 <= i < s.len() && s[i] == t[j];
        let p = t[j].parent_id->Some_0;
        lemma_below_within_sub(t, s, root, p, (k - 1) as nat);
        assert(s[i].id == id);
    }
}

/// Removing a subtree a second time, with the same root, changes nothing.
pub proof fn law_subtree_removal_idempotent(s: Seq<ItemView>, root: Seq<char>)
    ensures
        without_subtree(without_subtree(s, root), root) == without_subtree(s, root),
{
    law_subtree_removal(s, root);
    let t = without_subtree(s, root);
    assert forall|j: int| 0 <= j < t.len() implies #[trigger] outside_subtree(t, root)(t[j]) by {
        assert(t.contains(t[j]));
        assert(s.contains(t[j]) && !in_subtree(s, root, t[j].id));
        if in_subtree(t, root, t[j].id) {
            let k = choose|k: nat| below_within(t, root, t[j].id, k);
            assert forall|m: int| 0 <= m < t.len() implies s.contains(#[trigger] t[m]) by {
                assert(t.contains(t[m]));
            }
            lemma_below_within_sub(t, s, root, t[j].id, k);
        }
    }
    lemma_filter_all(t, outside_subtree(t, root));
}

/// Removing a subtree drops its root and every item whose parent chain
/// reaches it, keeps every other item, and leaves no item whose parent
/// was dropped.
pub proof fn law_subtree_removal(s: Seq<ItemView>, root: Seq<char>)
    ensures
        !has_id(without_subtree(s, root), root),
        forall|x: ItemView| #[trigger] without_subtree(s, root).contains(x) <==> (s.contains(x) && !in_subtree(s, root, x.id)),
        forall|x: ItemView| #[trigger] without_subtree(s, root).contains(x) && x.parent_id is Some
            ==> !in_subtree(s, root, x.parent_id->Some_0),
{
    let t = without_subtree(s, root);
    let p = outside_subtree(s, root);
    assert(below_within(s, root, root, 0));
    assert(in_subtree(s, root, root));
    if has_id(t, root) {
        let k = choose|k: int| 0 <= k < t.len() && t[k].id == root;
        s.lemma_filter_pred(p, k);
    }
    assert forall|x: ItemView| #[trigger] t.contains(x) <==> (s.contains(x) && !in_subtree(s, root, x.id)) by {
        if t.contains(x) {
            s.lemma_filter_contains_rev(p, x);
            let k = choose|k: int| 0 <= k < t.len() && t[k] == x;
            s.lemma_filter_pred(p, k);
        }
        if s.contains(x) && !in_subtree(s, root, x.id) {
            let k = choose|k: int| 0 <= k < s.len() && s[k] == x;
            s.lemma_filter_contains(p, k);
        }
    }
    assert forall|x: ItemView| #[trigger] t.contains(x) && x.parent_id is Some implies !in_subtree(s, root, x.parent_id->Some_0) by {
        s.lemma_filter_contains_rev(p, x);
        let j = choose|j: int| 0 <= j < s.len() && s[j] == x;
        let q = x.parent_id->Some_0;
        if in_subtree(s, root, q) {
            let k = choose|k: nat| below_within(s, root, q, k);
            assert(s[j].id == x.id);
            assert(below_within(s, root, x.id, k + 1));
            assert(in_subtree(s, root, x.id));
        }
    }
}

/// Cached items keyed by id.
#[derive(Debug)]
pub struct CloudItems {
    items: Vec<CachedItem>,
}

impl View for CloudItems {
    type V = Seq<ItemView>;

    closed spec fn view(&self) -> Seq<ItemView> {
        items_view(self.items@)
    }
}

/// Number of `true` entries.
pub open spec fn count_true(v: Seq<bool>) -> nat
    decreases v.len(),
{
    if v.len() == 0 {
        0
    } else {
        count_true(v.drop_last()) + if v.last() {
            1nat
        } else {
            0nat
        }
    }
}

pub proof fn lemma_count_true_bound(v: Seq<bool>)
    ensures
        count_true(v) <= v.len(),
    decreases v.len(),
{
    if v.len() > 0 {
        lemma_count_true_bound(v.drop_last());
    }
}

pub proof fn lemma_count_true_set(v: Seq<bool>, i: int)
    requires
        0 <= i < v.len(),
        !v[i],
    ensures
        count_true(v.update(i, true)) == count_true(v) + 1,
    decreases v.len(),
{
    let w = v.update(i, true);
    if i == v.len() - 1 {
        assert(w.drop_last() == v.drop_last());
    } else {
        assert(w.drop_last() == v.drop_last().update(i, true));
        lemma_count_true_set(v.drop_last(), i);
    }
}

impl CloudItems {
    /// Pairwise distinct ids.
    pub closed spec fn wf(&self) -> bool {
        ids_distinct(self@)
    }

    pub proof fn lemma_wf(&self)
        requires
            self.wf(),
        ensures
            ids_distinct(self@),
    {
    }

    /// An empty table.
    pub fn new() -> (r: CloudItems)
        ensures
            r.wf(),
            r@ == Seq::<ItemView>::empty(),
    {
        let r = CloudItems { items: Vec::new() };
        assert(r@ == Seq::<ItemView>::empty());
        r
    }

    /// Number of items.
    pub fn len(&self) -> (r: usize)
        ensures
            r == self@.len(),
    {
        self.items.len()
    }

    /// The item at a position of the table.
    pub fn at(&self, k: usize) -> (r: &CachedItem)
        requires
            k < self@.len(),
        ensures
            r@ == self@[k as int],
    {
        &self.items[k]
    }

    /// Position of the item with this id, if any.
    pub fn find(&self, id: &str) -> (r: Option<usize>)
        requires
            self.wf(),
        ensures
            r matches Some(k) ==> k < self@.len() && self@[k as int].id == id@,
            r is None ==> !has_id(self@, id@),
    {
        let n = self.items.len();
        for k in 0..n
            invariant
                n == self@.len(),
                forall|m: int| 0 <= m < k ==> self@[m].id != id@,
        {
            let idc = to_owned_string(id);
            if self.items[k].id == idc {
                return Some(k);
            }
        }
        None
    }

    /// Whether an item with this id is cached (`HashMap::contains_key`).
    pub fn contains_key(&self, id: &str) -> (r: bool)
        requires
            self.wf(),
        ensures
            r == has_id(self@, id@),
    {
        self.find(id).is_some()
    }

    /// The cached item with this id (`HashMap::get`).
    pub fn get(&self, id: &str) -> (r: Option<&CachedItem>)
        requires
            self.wf(),
        ensures
            r is None <==> !has_id(self@, id@),
            r matches Some(x) ==> has_id(self@, id@) && x@ == as_map(self@)[id@],
    {
        match self.find(id) {
            Some(k) => {
                proof {
                    let c = choose|m: int| 0 <= m < self@.len() && self@[m].id == id@;
                    assert(c == k as int);
                }
                Some(&self.items[k])
            },
            None => None,
        }
    }

    /// Inserts an item under its id, replacing an item with the same id
    /// (`HashMap::insert`).
    pub fn insert(&mut self, item: CachedItem)
        requires
            old(self).wf(),
        ensures
            final(self).wf(),
            final(self)@ == insert_item(old(self)@, item@),
    {
        let ghost s = self@;
        let idc = item.id.clone();
        match self.find(idc.as_str()) {
            Some(k) => {
                proof {
                    let c = choose|m: int| 0 <= m < s.len() && s[m].id == item@.id;
                    assert(c == k as int);
                }
                self.items.set(k, item);
                assert(self@ == s.update(k as int, item@));
            },
            None => {
                self.items.push(item);
                assert(self@ == s.push(item@));
            },
        }
    }

    /// Whether the parent of item `j` is `root` or a marked item.
    fn parent_marked(&self, root: &String, marked: &Vec<bool>, j: usize) -> (r: bool)
        requires
            marked@.len() == self@.len(),
            j < self@.len(),
        ensures
            r == (self@[j as int].parent_id matches Some(p) && marked_id(self@, root@, marked@, p)),
    {
        match &self.items[j].parent_id {
            None => false,
            Some(p) => {
                let pc = p.clone();
                if pc == *root {
                    return true;
                }
                let n = self.items.len();
                for k in 0..n
                    invariant
                        n == self@.len(),
                        marked@.len() == n,
                        j < n,
                        self@[j as int].parent_id == Some(pc@),
                        pc@ != root@,
                        forall|m: int| 0 <= m < k ==> !(marked@[m] && self@[m].id == pc@),
                {
                    if marked[k] && self.items[k].id == pc {
                        return true;
                    }
                }
                false
            },
        }
    }

    /// Removes the item with id `root_id` and every item below it through
    /// parent links; the other items keep their order.
    pub fn remove_subtree(&mut self, root_id: &str)
        requires
            old(self).wf(),
        ensures
            final(self).wf(),
            final(self)@ == without_subtree(old(self)@, root_id@),
    {
        let ghost s = self@;
        let n = self.items.len();
        let root = to_owned_string(root_id);
        let mut marked: Vec<bool> = Vec::new();
        for i in 0..n
            invariant
                marked@.len() == i,
                forall|m: int| 0 <= m < i ==> !marked@[m],
        {
            marked.push(false);
        }
        proof {
            lemma_count_true_bound(marked@);
        }
        let mut changed = true;
        while changed
            invariant
                n == s.len(),
                self@ == s,
                root@ == root_id@,
                marked@.len() == n,
                marks_sound(s, root@, marked@),
                !changed ==> marks_closed(s, root@, marked@),
                count_true(marked@) <= n,
            decreases n - count_true(marked@) + (if changed { 1int } else { 0int }),
        {
            changed = false;
            let ghost start = marked@;
            for j in 0..n
                invariant
                    n == s.len(),
                    self@ == s,
                    root@ == root_id@,
                    marked@.len() == n,
                    marks_sound(s, root@, marked@),
                    count_true(marked@) >= count_true(start),
                    count_true(marked@) <= n,
                    changed ==> count_true(marked@) > count_true(start),
                    !changed ==> marked@ == start,
                    !changed ==> forall|m: int|
                        0 <= m < j && (#[trigger] s[m].parent_id matches Some(p) && marked_id(s, root@, marked@, p))
                            ==> marked@[m],
            {
                if !marked[j] && self.parent_marked(&root, &marked, j) {
                    proof {
                        let p = s[j as int].parent_id->Some_0;
                        lemma_child_in_subtree(s, root@, marked@, j as int, p);
                        lemma_count_true_set(marked@, j as int);
                        lemma_count_true_bound(marked@.update(j as int, true));
                    }
                    marked.set(j, true);
                    changed = true;
                }
            }
        }
        // Keep the items outside the subtree.
        proof {
            lemma_keep_iff(s, root_id@, marked@);
        }
        let mut out: Vec<CachedItem> = Vec::new();
        for j in 0..n
            invariant
                n == s.len(),
                self@ == s,
                root@ == root_id@,
                marked@.len() == n,
                keep_matches(s, root_id@, marked@),
                items_view(out@) == s.take(j as int).filter(outside_subtree(s, root_id@)),
        {
            proof {
                reveal_with_fuel(Seq::<_>::filter, 1);
                assert(s.take(j + 1).drop_last() == s.take(j as int));
            }
            let ghost before = items_view(out@);
            assert(self.items@[j as int]@ == s[j as int]);
            let keep_j = !(self.items[j].id == root || marked[j]);
            assert(keep_j == !(s[j as int].id == root_id@ || marked@[j as int]));
            proof {
                lemma_keep_at(s, root_id@, marked@, j as int);
            }
            assert(s.take(j + 1).last() == s[j as int]);
            if keep_j {
                let x = self.items[j].duplicate();
                out.push(x);
                assert(items_view(out@) == before.push(s[j as int]));
                assert(s.take(j + 1).filter(outside_subtree(s, root_id@)) == s.take(j as int).filter(outside_subtree(s, root_id@)).push(s[j as int]));
            } else {
                assert(!outside_subtree(s, root_id@)(s[j as int]));
                assert(s.take(j + 1).filter(outside_subtree(s, root_id@)) == s.take(j as int).filter(outside_subtree(s, root_id@)));
            }
        }
        assert(s.take(n as int) == s);
        self.items = out;
        proof {
            lemma_filter_distinct(s, outside_subtree(s, root_id@));
        }
    }

    /// Removes the item with this id, if any (`HashMap::remove`).
    pub fn remove(&mut self, id: &str)
        requires
            old(self).wf(),
        ensures
            final(self).wf(),
            final(self)@ == remove_item(old(self)@, id@),
    {
        let ghost s = self@;
        match self.find(id) {
            Some(k) => {
                proof {
                    let c = choose|m: int| 0 <= m < s.len() && s[m].id == id@;
                    assert(c == k as int);
                }
                self.items.remove(k);
                assert(self@ == s.remove(k as int));
            },
            None => {},
        }
    }
}

} // verus!
