//! The folder tree that a cloud scan reports: built from cached items and
//! their parent links, folder sizes summed from their children, children
//! ordered by size, largest first, and cycles in the links cut.

use vstd::prelude::*;
use crate::cloud_items::{
    CachedItem, CloudItems, ItemView, has_id, ids_distinct, count_true, lemma_count_true_bound,
    lemma_count_true_set, opt_string_view, items_view,
};

verus! {

/// One node of the reported tree.
#[derive(Debug)]
pub struct CloudNode {
    pub name: String,
    pub cloud_id: String,
    pub is_directory: bool,
    pub size: u64,
    pub children: Vec<CloudNode>,
}

/// The mathematical model of a tree node.
pub ghost struct NodeView {
    pub name: Seq<char>,
    pub cloud_id: Seq<char>,
    pub is_directory: bool,
    pub size: nat,
    pub children: Seq<NodeView>,
}

pub open spec fn node_view(n: CloudNode) -> NodeView
    decreases n,
{
    NodeView {
        name: n.name@,
        cloud_id: n.cloud_id@,
        is_directory: n.is_directory,
        size: n.size as nat,
        children: Seq::new(
            n.children@.len(),
            |k: int|
                if 0 <= k < n.children@.len() {
                    node_view(n.children@[k])
                } else {
                    NodeView {
                        name: Seq::empty(),
                        cloud_id: Seq::empty(),
                        is_directory: false,
                        size: 0,
                        children: Seq::empty(),
                    }
                },
        ),
    }
}

pub open spec fn nodes_view(v: Seq<CloudNode>) -> Seq<NodeView> {
    Seq::new(v.len(), |k: int| node_view(v[k]))
}

pub open spec fn opt_node_view(o: Option<CloudNode>) -> Option<NodeView> {
    match o {
        Some(n) => Some(node_view(n)),
        None => None,
    }
}

/// How items hang below one another.
#[derive(Clone, Copy, Debug)]
pub struct LinkRule {
    /// The item whose id is the root id is not listed below anything.
    pub skip_root: bool,
    /// An item without a parent, or whose parent is not cached, hangs
    /// below the root id.
    pub orphans_to_root: bool,
}

/// The id that item `j` is listed below, if any.
pub open spec fn attach(s: Seq<ItemView>, rule: LinkRule, root: Seq<char>, j: int) -> Option<Seq<char>> {
    if rule.skip_root && s[j].id == root {
        None
    } else if rule.orphans_to_root {
        match s[j].parent_id {
            Some(p) => if has_id(s, p) {
                Some(p)
            } else {
                Some(root)
            },
            None => Some(root),
        }
    } else {
        s[j].parent_id
    }
}

/// The positions `j < n` of the items listed below `pid`, ascending.
pub open spec fn attached_upto(s: Seq<ItemView>, rule: LinkRule, root: Seq<char>, pid: Seq<char>, n: int) -> Seq<int>
    decreases n,
{
    if n <= 0 {
        Seq::empty()
    } else {
        let rest = attached_upto(s, rule, root, pid, n - 1);
        if attach(s, rule, root, n - 1) == Some(pid) {
            rest.push(n - 1)
        } else {
            rest
        }
    }
}

/// The items listed below `pid`, in table order.
pub open spec fn attached(s: Seq<ItemView>, rule: LinkRule, root: Seq<char>, pid: Seq<char>) -> Seq<int> {
    attached_upto(s, rule, root, pid, s.len() as int)
}

pub open spec fn unmarked(marks: Seq<bool>) -> int {
    marks.len() - count_true(marks)
}

/// Sum of the sizes of the nodes.
pub open spec fn sum_sizes(v: Seq<NodeView>) -> nat
    decreases v.len(),
{
    if v.len() == 0 {
        0
    } else {
        sum_sizes(v.drop_last()) + v.last().size
    }
}

/// Inserts a node into a list ordered by size, largest first, after every
/// node that is at least as large (a stable placement).
pub open spec fn insert_desc(x: NodeView, v: Seq<NodeView>) -> Seq<NodeView>
    decreases v.len(),
{
    if v.len() == 0 {
        seq![x]
    } else if v[0].size < x.size {
        seq![x] + v
    } else {
        seq![v[0]] + insert_desc(x, v.drop_first())
    }
}

/// Stable sort by size, largest first (`sort_by_key(Reverse(size))`).
pub open spec fn sort_desc(v: Seq<NodeView>) -> Seq<NodeView>
    decreases v.len(),
{
    if v.len() == 0 {
        Seq::empty()
    } else {
        insert_desc(v.last(), sort_desc(v.drop_last()))
    }
}

/// The tree of item `i`, given the items on the current path (`marks`).
/// An item already on the path gives no node, which cuts link cycles.
pub open spec fn node_at(s: Seq<ItemView>, rule: LinkRule, root: Seq<char>, i: int, marks: Seq<bool>) -> Option<NodeView>
    decreases unmarked(marks), 0int,
{
    if !(0 <= i < s.len() && marks.len() == s.len()) || marks[i] {
        None
    } else {
        let m2 = marks.update(i, true);
        proof {
            lemma_count_true_set(marks, i);
            lemma_count_true_bound(m2);
        }
        let it = s[i];
        let ks = if it.is_folder {
            kids_of(s, rule, root, attached(s, rule, root, it.id), m2)
        } else {
            Seq::empty()
        };
        Some(
            NodeView {
                name: it.name,
                cloud_id: it.id,
                is_directory: it.is_folder,
                size: if it.is_folder {
                    sum_sizes(ks)
                } else {
                    it.size as nat
                },
                children: sort_desc(ks),
            },
        )
    }
}

/// The trees of the listed items, in list order, leaving out those that
/// give no node.
pub open spec fn kids_of(s: Seq<ItemView>, rule: LinkRule, root: Seq<char>, list: Seq<int>, marks: Seq<bool>) -> Seq<NodeView>
    decreases unmarked(marks), list.len() + 1,
{
    if list.len() == 0 {
        Seq::empty()
    } else {
        let rest = kids_of(s, rule, root, list.drop_last(), marks);
        match node_at(s, rule, root, list.last(), marks) {
            Some(n) => rest.push(n),
            None => rest,
        }
    }
}

pub open spec fn no_marks(n: nat) -> Seq<bool> {
    Seq::new(n, |k: int| false)
}

/// The top-level nodes below the root id, in table order, before sorting.
pub open spec fn top_nodes(s: Seq<ItemView>, rule: LinkRule, root: Seq<char>) -> Seq<NodeView> {
    kids_of(s, rule, root, attached(s, rule, root, root), no_marks(s.len()))
}

pub open spec fn ints(v: Seq<usize>) -> Seq<int> {
    v.map_values(|x: usize| x as int)
}

pub open spec fn node_fits(o: Option<NodeView>) -> bool {
    match o {
        Some(n) => n.size <= u64::MAX,
        None => true,
    }
}

// ---------------------------------------------------------------------
// Lemmas
// ---------------------------------------------------------------------

pub proof fn lemma_sum_kids_prefix(s: Seq<ItemView>, rule: LinkRule, root: Seq<char>, list: Seq<int>, marks: Seq<bool>, k: int)
    requires
        0 <= k <= list.len(),
    ensures
        sum_sizes(kids_of(s, rule, root, list.take(k), marks)) <= sum_sizes(kids_of(s, rule, root, list, marks)),
    decreases list.len() - k,
{
    if k < list.len() {
        lemma_sum_kids_prefix(s, rule, root, list, marks, k + 1);
        let t = list.take(k + 1);
        assert(t.drop_last() == list.take(k));
        let r = kids_of(s, rule, root, list.take(k), marks);
        match node_at(s, rule, root, t.last(), marks) {
            Some(n) => {
                assert(r.push(n).drop_last() == r);
            },
            None => {},
        }
    } else {
        assert(list.take(k) == list);
    }
}

pub proof fn lemma_sum_push(v: Seq<NodeView>, x: NodeView)
    ensures
        sum_sizes(v.push(x)) == sum_sizes(v) + x.size,
{
    assert(v.push(x).drop_last() == v);
}

pub proof fn lemma_insert_at(x: NodeView, v: Seq<NodeView>, p: int)
    requires
        0 <= p <= v.len(),
        forall|k: int| 0 <= k < p ==> !(v[k].size < x.size),
        p == v.len() || v[p].size < x.size,
    ensures
        insert_desc(x, v) == v.insert(p, x),
    decreases p,
{
    if v.len() == 0 {
        assert(v.insert(p, x) == seq![x]);
    } else if p == 0 {
        assert(v.insert(0, x) == seq![x] + v);
    } else {
        let d = v.drop_first();
        assert forall|k: int| 0 <= k < p - 1 implies !(d[k].size < x.size) by {
            assert(d[k] == v[k + 1]);
        }
        if p < v.len() {
            assert(d[p - 1] == v[p]);
        }
        lemma_insert_at(x, d, p - 1);
        assert(v.insert(p, x) == seq![v[0]] + d.insert(p - 1, x));
    }
}

pub proof fn lemma_insert_sum(x: NodeView, v: Seq<NodeView>)
    ensures
        sum_sizes(insert_desc(x, v)) == sum_sizes(v) + x.size,
    decreases v.len(),
{
    lemma_sum_append(seq![x], v);
    if v.len() > 0 && !(v[0].size < x.size) {
        lemma_insert_sum(x, v.drop_first());
        lemma_sum_append(seq![v[0]], insert_desc(x, v.drop_first()));
        lemma_sum_append(seq![v[0]], v.drop_first());
        assert(seq![v[0]] + v.drop_first() == v);
        lemma_sum_single(v[0]);
    } else {
        lemma_sum_single(x);
    }
}

pub proof fn lemma_sum_single(x: NodeView)
    ensures
        sum_sizes(seq![x]) == x.size,
{
    assert(seq![x].drop_last() == Seq::<NodeView>::empty());
    reveal_with_fuel(sum_sizes, 2);
}

pub proof fn lemma_sum_append(a: Seq<NodeView>, b: Seq<NodeView>)
    ensures
        sum_sizes(a + b) == sum_sizes(a) + sum_sizes(b),
    decreases b.len(),
{
    if b.len() == 0 {
        assert(a + b == a);
    } else {
        lemma_sum_append(a, b.drop_last());
        assert((a + b).drop_last() == a + b.drop_last());
    }
}

/// Sorting keeps the total size.
pub proof fn lemma_sort_sum(v: Seq<NodeView>)
    ensures
        sum_sizes(sort_desc(v)) == sum_sizes(v),
    decreases v.len(),
{
    if v.len() > 0 {
        lemma_sort_sum(v.drop_last());
        lemma_insert_sum(v.last(), sort_desc(v.drop_last()));
    }
}

/// A sequence ordered by size, largest first.
pub open spec fn sorted_desc(v: Seq<NodeView>) -> bool {
    forall|a: int, b: int| 0 <= a < b < v.len() ==> v[a].size >= v[b].size
}

pub proof fn lemma_insert_sorted(x: NodeView, v: Seq<NodeView>)
    requires
        sorted_desc(v),
    ensures
        sorted_desc(insert_desc(x, v)),
        insert_desc(x, v).to_multiset() == v.to_multiset().insert(x),
    decreases v.len(),
{
    broadcast use vstd::seq_lib::group_to_multiset_ensures;
    if v.len() == 0 {
        assert(v.to_multiset() =~= vstd::multiset::Multiset::empty());
        assert(seq![x] == v.push(x));
    } else if v[0].size < x.size {
        let r = seq![x] + v;
        assert forall|a: int, b: int| 0 <= a < b < r.len() implies r[a].size >= r[b].size by {
            if a == 0 {
                assert(r[b] == v[b - 1]);
                if b > 1 {
                    assert(v[0].size >= v[b - 1].size);
                }
            } else {
                assert(r[a] == v[a - 1]);
                assert(r[b] == v[b - 1]);
            }
        }
        vstd::seq_lib::lemma_multiset_commutative(seq![x], v);
        assert(seq![x].to_multiset() =~= vstd::multiset::Multiset::empty().insert(x)) by {
            assert(seq![x] == Seq::<NodeView>::empty().push(x));
            assert(Seq::<NodeView>::empty().to_multiset() =~= vstd::multiset::Multiset::empty());
        }
    } else {
        let d = v.drop_first();
        assert(sorted_desc(d)) by {
            assert forall|a: int, b: int| 0 <= a < b < d.len() implies d[a].size >= d[b].size by {
                assert(d[a] == v[a + 1]);
                assert(d[b] == v[b + 1]);
            }
        }
        lemma_insert_sorted(x, d);
        let t = insert_desc(x, d);
        let r = seq![v[0]] + t;
        assert forall|a: int, b: int| 0 <= a < b < r.len() implies r[a].size >= r[b].size by {
            if a == 0 {
                assert(r[b] == t[b - 1]);
                assert(t.to_multiset().count(t[b - 1]) > 0);
                assert(d.to_multiset().insert(x).count(t[b - 1]) > 0);
                if t[b - 1] != x {
                    assert(d.to_multiset().count(t[b - 1]) > 0);
                    assert(d.contains(t[b - 1]));
                    let k = choose|k: int| 0 <= k < d.len() && d[k] == t[b - 1];
                    assert(d[k] == v[k + 1]);
                }
            } else {
                assert(r[a] == t[a - 1]);
                assert(r[b] == t[b - 1]);
            }
        }
        vstd::seq_lib::lemma_multiset_commutative(seq![v[0]], t);
        vstd::seq_lib::lemma_multiset_commutative(seq![v[0]], d);
        assert(seq![v[0]] + d == v);
    }
}

/// The children of a node come ordered by size, largest first, and are a
/// rearrangement of the nodes they were made from.
pub proof fn lemma_sort_desc(v: Seq<NodeView>)
    ensures
        sorted_desc(sort_desc(v)),
        sort_desc(v).to_multiset() == v.to_multiset(),
    decreases v.len(),
{
    broadcast use vstd::seq_lib::group_to_multiset_ensures;
    if v.len() == 0 {
        assert(sort_desc(v).to_multiset() =~= v.to_multiset());
    } else {
        lemma_sort_desc(v.drop_last());
        lemma_insert_sorted(v.last(), sort_desc(v.drop_last()));
        assert(v.drop_last().push(v.last()) == v);
    }
}

pub proof fn lemma_sum_prefix(v: Seq<NodeView>, k: int)
    requires
        0 <= k <= v.len(),
    ensures
        sum_sizes(v.take(k)) <= sum_sizes(v),
    decreases v.len() - k,
{
    if k < v.len() {
        lemma_sum_prefix(v, k + 1);
        assert(v.take(k + 1).drop_last() == v.take(k));
    } else {
        assert(v.take(k) == v);
    }
}

pub proof fn lemma_node_view_children(n: CloudNode)
    ensures
        node_view(n).children == nodes_view(n.children@),
{
    assert(node_view(n).children =~= nodes_view(n.children@));
}

/// The child lists of the folders: `lists[i]` holds the positions of the
/// items listed below folder `i`.
pub open spec fn lists_ok(s: Seq<ItemView>, rule: LinkRule, root: Seq<char>, lists: Seq<Vec<usize>>) -> bool {
    &&& lists.len() == s.len()
    &&& forall|i: int| 0 <= i < s.len() && s[i].is_folder ==> ints(#[trigger] lists[i]@) == attached(s, rule, root, s[i].id)
    &&& forall|i: int, k: int| 0 <= i < s.len() && 0 <= k < lists[i]@.len() ==> #[trigger] lists[i]@[k] < s.len()
}

/// The id that item `j` is listed below.
fn attach_exec(items: &CloudItems, rule: LinkRule, root: &String, j: usize) -> (r: Option<String>)
    requires
        items.wf(),
        j < items@.len(),
    ensures
        opt_string_view(r) == attach(items@, rule, root@, j as int),
{
    let it = items.at(j);
    if rule.skip_root && it.id.eq(root) {
        return None;
    }
    if rule.orphans_to_root {
        match &it.parent_id {
            Some(p) => {
                if items.contains_key(p.as_str()) {
                    Some(p.clone())
                } else {
                    Some(root.clone())
                }
            },
            None => Some(root.clone()),
        }
    } else {
        crate::cloud_items::copy_opt_string(&it.parent_id)
    }
}

/// The positions of the items listed below `pid`, ascending.
fn attached_exec(
    targets: &Vec<Option<String>>,
    pid: &String,
    Ghost(s): Ghost<Seq<ItemView>>,
    Ghost(rule): Ghost<LinkRule>,
    Ghost(root): Ghost<Seq<char>>,
) -> (r: Vec<usize>)
    requires
        targets@.len() == s.len(),
        forall|j: int| 0 <= j < s.len() ==> opt_string_view(#[trigger] targets@[j]) == attach(s, rule, root, j),
    ensures
        ints(r@) == attached(s, rule, root, pid@),
        forall|k: int| 0 <= k < r@.len() ==> #[trigger] r@[k] < s.len(),
{
    let mut out: Vec<usize> = Vec::new();
    let n = targets.len();
    for j in 0..n
        invariant
            n == s.len(),
            targets@.len() == s.len(),
            forall|m: int| 0 <= m < s.len() ==> opt_string_view(#[trigger] targets@[m]) == attach(s, rule, root, m),
            ints(out@) == attached_upto(s, rule, root, pid@, j as int),
            forall|k: int| 0 <= k < out@.len() ==> #[trigger] out@[k] < j,
    {
        let hit = match &targets[j] {
            Some(t) => t.eq(pid),
            None => false,
        };
        assert(hit == (attach(s, rule, root, j as int) == Some(pid@))) by {
            assert(opt_string_view(targets@[j as int]) == attach(s, rule, root, j as int));
        }
        if hit {
            out.push(j);
            assert(ints(out@) == ints(out@.drop_last()).push(j as int));
            assert(out@.drop_last() == out@.take(out@.len() - 1));
        }
    }
    out
}

/// The child lists of all folders.
fn child_lists(items: &CloudItems, rule: LinkRule, root: &String) -> (r: Vec<Vec<usize>>)
    requires
        items.wf(),
    ensures
        lists_ok(items@, rule, root@, r@),
{
    let n = items.len();
    let mut targets: Vec<Option<String>> = Vec::new();
    for j in 0..n
        invariant
            n == items@.len(),
            items.wf(),
            targets@.len() == j,
            forall|m: int| 0 <= m < j ==> opt_string_view(#[trigger] targets@[m]) == attach(items@, rule, root@, m),
    {
        let t = attach_exec(items, rule, root, j);
        targets.push(t);
    }
    let mut lists: Vec<Vec<usize>> = Vec::new();
    for i in 0..n
        invariant
            n == items@.len(),
            items.wf(),
            targets@.len() == n,
            forall|m: int| 0 <= m < n ==> opt_string_view(#[trigger] targets@[m]) == attach(items@, rule, root@, m),
            lists@.len() == i,
            forall|m: int| 0 <= m < i && items@[m].is_folder ==> ints(#[trigger] lists@[m]@) == attached(items@, rule, root@, items@[m].id),
            forall|m: int, k: int| 0 <= m < i && 0 <= k < lists@[m]@.len() ==> #[trigger] lists@[m]@[k] < n,
    {
        let it = items.at(i);
        if it.is_folder {
            let l = attached_exec(&targets, &it.id, Ghost(items@), Ghost(rule), Ghost(root@));
            lists.push(l);
        } else {
            lists.push(Vec::new());
        }
    }
    lists
}

/// Sum of the node sizes.
fn sum_node_sizes(v: &Vec<CloudNode>) -> (r: u64)
    requires
        sum_sizes(nodes_view(v@)) <= u64::MAX,
    ensures
        r == sum_sizes(nodes_view(v@)),
{
    let mut total: u64 = 0;
    let n = v.len();
    for k in 0..n
        invariant
            n == v@.len(),
            sum_sizes(nodes_view(v@)) <= u64::MAX,
            total == sum_sizes(nodes_view(v@).take(k as int)),
    {
        proof {
            let w = nodes_view(v@);
            assert(w.take(k + 1).drop_last() == w.take(k as int));
            lemma_sum_prefix(w, k + 1);
            assert(w.take(k + 1).last() == node_view(v@[k as int]));
        }
        total = total + v[k].size;
    }
    assert(nodes_view(v@).take(n as int) == nodes_view(v@));
    total
}

/// Inserts a node after every node at least as large.
fn insert_node_desc(out: &mut Vec<CloudNode>, x: CloudNode)
    ensures
        nodes_view(final(out)@) == insert_desc(node_view(x), nodes_view(old(out)@)),
{
    let ghost v = nodes_view(out@);
    let mut p: usize = 0;
    while p < out.len() && !(out[p].size < x.size)
        invariant
            p <= out@.len(),
            v == nodes_view(out@),
            forall|k: int| 0 <= k < p ==> !(v[k].size < node_view(x).size),
        decreases out@.len() - p,
    {
        p = p + 1;
    }
    proof {
        lemma_insert_at(node_view(x), v, p as int);
    }
    out.insert(p, x);
    assert(nodes_view(out@) == v.insert(p as int, node_view(x)));
}

/// Stable sort by size, largest first.
fn sort_nodes_desc(v: Vec<CloudNode>) -> (r: Vec<CloudNode>)
    ensures
        nodes_view(r@) == sort_desc(nodes_view(v@)),
{
    let ghost w = nodes_view(v@);
    let mut out: Vec<CloudNode> = Vec::new();
    let mut rest = v;
    let mut taken: Vec<CloudNode> = Vec::new();
    let ghost orig = rest@;
    let n = rest.len();
    let mut k: usize = 0;
    while k < n
        invariant
            n == orig.len(),
            k <= n,
            w == nodes_view(orig),
            rest@ == orig.subrange(k as int, n as int),
            nodes_view(out@) == sort_desc(w.take(k as int)),
        decreases n - k,
    {
        let x = rest.remove(0);
        proof {
            assert(w.take(k + 1).drop_last() == w.take(k as int));
            assert(w.take(k + 1).last() == node_view(x));
        }
        insert_node_desc(&mut out, x);
        k = k + 1;
        assert(rest@ == orig.subrange(k as int, n as int));
    }
    assert(w.take(n as int) == w);
    out
}

/// The tree of item `i`; `marks` holds the items on the current path.
fn build_node(
    items: &CloudItems,
    lists: &Vec<Vec<usize>>,
    i: usize,
    marks: &mut Vec<bool>,
    Ghost(rule): Ghost<LinkRule>,
    Ghost(root): Ghost<Seq<char>>,
) -> (r: Option<CloudNode>)
    requires
        items.wf(),
        lists_ok(items@, rule, root, lists@),
        i < items@.len(),
        old(marks)@.len() == items@.len(),
        node_fits(node_at(items@, rule, root, i as int, old(marks)@)),
    ensures
        final(marks)@ == old(marks)@,
        opt_node_view(r) == node_at(items@, rule, root, i as int, old(marks)@),
    decreases unmarked(old(marks)@), 0int,
{
    let ghost s = items@;
    if marks[i] {
        return None;
    }
    let ghost m0 = marks@;
    proof {
        lemma_count_true_set(m0, i as int);
        lemma_count_true_bound(m0.update(i as int, true));
    }
    marks.set(i, true);
    let it = items.at(i);
    let kids = if it.is_folder {
        build_kids(items, lists, &lists[i], marks, Ghost(rule), Ghost(root))
    } else {
        Vec::new()
    };
    marks.set(i, false);
    assert(marks@ == m0);
    let ghost ks = if it.is_folder {
        kids_of(s, rule, root, attached(s, rule, root, s[i as int].id), m0.update(i as int, true))
    } else {
        Seq::<NodeView>::empty()
    };
    assert(nodes_view(kids@) == ks);
    let size = if it.is_folder {
        sum_node_sizes(&kids)
    } else {
        it.size
    };
    let children = sort_nodes_desc(kids);
    let node = CloudNode {
        name: it.name.clone(),
        cloud_id: it.id.clone(),
        is_directory: it.is_folder,
        size,
        children,
    };
    proof {
        lemma_node_view_children(node);
    }
    Some(node)
}

/// The trees of the listed items, in list order.
fn build_kids(
    items: &CloudItems,
    lists: &Vec<Vec<usize>>,
    list: &Vec<usize>,
    marks: &mut Vec<bool>,
    Ghost(rule): Ghost<LinkRule>,
    Ghost(root): Ghost<Seq<char>>,
) -> (r: Vec<CloudNode>)
    requires
        items.wf(),
        lists_ok(items@, rule, root, lists@),
        old(marks)@.len() == items@.len(),
        forall|k: int| 0 <= k < list@.len() ==> #[trigger] list@[k] < items@.len(),
        sum_sizes(kids_of(items@, rule, root, ints(list@), old(marks)@)) <= u64::MAX,
    ensures
        final(marks)@ == old(marks)@,
        nodes_view(r@) == kids_of(items@, rule, root, ints(list@), old(marks)@),
    decreases unmarked(old(marks)@), list@.len() + 1,
{
    let ghost s = items@;
    let ghost m0 = marks@;
    let ghost l = ints(list@);
    let mut out: Vec<CloudNode> = Vec::new();
    let n = list.len();
    for k in 0..n
        invariant
            n == list@.len(),
            l == ints(list@),
            s == items@,
            items.wf(),
            lists_ok(s, rule, root, lists@),
            marks@ == m0,
            m0 == old(marks)@,
            m0.len() == s.len(),
            forall|m: int| 0 <= m < list@.len() ==> #[trigger] list@[m] < s.len(),
            sum_sizes(kids_of(s, rule, root, l, m0)) <= u64::MAX,
            nodes_view(out@) == kids_of(s, rule, root, l.take(k as int), m0),
    {
        let ghost before = out@;
        proof {
            let t = l.take(k + 1);
            assert(t.drop_last() == l.take(k as int));
            assert(t.last() == list@[k as int] as int);
            lemma_sum_kids_prefix(s, rule, root, l, m0, k + 1);
            match node_at(s, rule, root, list@[k as int] as int, m0) {
                Some(nd) => {
                    lemma_sum_push(kids_of(s, rule, root, l.take(k as int), m0), nd);
                },
                None => {},
            }
        }
        let r = build_node(items, lists, list[k], marks, Ghost(rule), Ghost(root));
        match r {
            Some(nd) => {
                out.push(nd);
                assert(nodes_view(out@) == nodes_view(before).push(node_view(nd)));
            },
            None => {},
        }
    }
    assert(l.take(n as int) == l);
    out
}

/// The size of item `i`'s node, where it fits in 64 bits; an item that
/// gives no node adds nothing.
fn size_node(
    items: &CloudItems,
    lists: &Vec<Vec<usize>>,
    i: usize,
    marks: &mut Vec<bool>,
    Ghost(rule): Ghost<LinkRule>,
    Ghost(root): Ghost<Seq<char>>,
) -> (r: Option<u64>)
    requires
        items.wf(),
        lists_ok(items@, rule, root, lists@),
        i < items@.len(),
        old(marks)@.len() == items@.len(),
    ensures
        final(marks)@ == old(marks)@,
        node_at(items@, rule, root, i as int, old(marks)@) is None ==> r == Some(0u64),
        node_at(items@, rule, root, i as int, old(marks)@) matches Some(n) ==> (match r {
            Some(v) => v == n.size,
            None => n.size > u64::MAX,
        }),
    decreases unmarked(old(marks)@), 0int,
{
    let ghost s = items@;
    if marks[i] {
        return Some(0);
    }
    let ghost m0 = marks@;
    proof {
        lemma_count_true_set(m0, i as int);
        lemma_count_true_bound(m0.update(i as int, true));
    }
    let it = items.at(i);
    if !it.is_folder {
        return Some(it.size);
    }
    marks.set(i, true);
    let total = size_kids(items, lists, &lists[i], marks, Ghost(rule), Ghost(root));
    marks.set(i, false);
    assert(marks@ == m0);
    total
}

/// The total size of the listed items' nodes, where it fits in 64 bits.
fn size_kids(
    items: &CloudItems,
    lists: &Vec<Vec<usize>>,
    list: &Vec<usize>,
    marks: &mut Vec<bool>,
    Ghost(rule): Ghost<LinkRule>,
    Ghost(root): Ghost<Seq<char>>,
) -> (r: Option<u64>)
    requires
        items.wf(),
        lists_ok(items@, rule, root, lists@),
        old(marks)@.len() == items@.len(),
        forall|k: int| 0 <= k < list@.len() ==> #[trigger] list@[k] < items@.len(),
    ensures
        final(marks)@ == old(marks)@,
        match r {
            Some(v) => v == sum_sizes(kids_of(items@, rule, root, ints(list@), old(marks)@)),
            None => sum_sizes(kids_of(items@, rule, root, ints(list@), old(marks)@)) > u64::MAX,
        },
    decreases unmarked(old(marks)@), list@.len() + 1,
{
    let ghost s = items@;
    let ghost m0 = marks@;
    let ghost l = ints(list@);
    let mut total: u64 = 0;
    let n = list.len();
    for k in 0..n
        invariant
            n == list@.len(),
            l == ints(list@),
            s == items@,
            items.wf(),
            lists_ok(s, rule, root, lists@),
            marks@ == m0,
            m0 == old(marks)@,
            m0.len() == s.len(),
            forall|m: int| 0 <= m < list@.len() ==> #[trigger] list@[m] < s.len(),
            total == sum_sizes(kids_of(s, rule, root, l.take(k as int), m0)),
    {
        let ghost prev = kids_of(s, rule, root, l.take(k as int), m0);
        proof {
            let t = l.take(k + 1);
            assert(t.drop_last() == l.take(k as int));
            assert(t.last() == list@[k as int] as int);
            lemma_sum_kids_prefix(s, rule, root, l, m0, k + 1);
            match node_at(s, rule, root, list@[k as int] as int, m0) {
                Some(nd) => {
                    lemma_sum_push(prev, nd);
                },
                None => {},
            }
        }
        let r = size_node(items, lists, list[k], marks, Ghost(rule), Ghost(root));
        match r {
            Some(v) => {
                match total.checked_add(v) {
                    Some(t) => {
                        total = t;
                    },
                    None => {
                        return None;
                    },
                }
            },
            None => {
                return None;
            },
        }
    }
    assert(l.take(n as int) == l);
    Some(total)
}

/// Whether the tree below `root_id` has a total size that fits in 64 bits,
/// as `build_tree` needs.
pub fn tree_size_fits(items: &CloudItems, rule: LinkRule, root_id: &str) -> (r: bool)
    requires
        items.wf(),
    ensures
        r == (sum_sizes(top_nodes(items@, rule, root_id@)) <= u64::MAX),
{
    let root = crate::text::to_owned_string(root_id);
    let lists = child_lists(items, rule, &root);
    let n = items.len();
    let mut targets: Vec<Option<String>> = Vec::new();
    for j in 0..n
        invariant
            n == items@.len(),
            items.wf(),
            targets@.len() == j,
            forall|m: int| 0 <= m < j ==> opt_string_view(#[trigger] targets@[m]) == attach(items@, rule, root@, m),
    {
        let t = attach_exec(items, rule, &root, j);
        targets.push(t);
    }
    let top = attached_exec(&targets, &root, Ghost(items@), Ghost(rule), Ghost(root@));
    let mut marks: Vec<bool> = Vec::new();
    for k in 0..n
        invariant
            marks@.len() == k,
            forall|m: int| 0 <= m < k ==> !marks@[m],
    {
        marks.push(false);
    }
    assert(marks@ == no_marks(items@.len()));
    size_kids(items, &lists, &top, &mut marks, Ghost(rule), Ghost(root@)).is_some()
}

/// Whether the tree of the cached item `item_id` has a size that fits in
/// 64 bits, as `build_subtree` needs.
pub fn subtree_size_fits(items: &CloudItems, rule: LinkRule, root_id: &str, item_id: &str) -> (r: bool)
    requires
        items.wf(),
    ensures
        r == node_fits(item_node(items@, rule, root_id@, item_id@)),
{
    match items.find(item_id) {
        None => true,
        Some(i) => {
            proof {
                crate::cloud_items::CloudItems::lemma_wf(items);
                let c = choose|k: int| 0 <= k < items@.len() && items@[k].id == item_id@;
                assert(c == i as int);
            }
            let root = crate::text::to_owned_string(root_id);
            let lists = child_lists(items, rule, &root);
            let n = items.len();
            let mut marks: Vec<bool> = Vec::new();
            for k in 0..n
                invariant
                    marks@.len() == k,
                    forall|m: int| 0 <= m < k ==> !marks@[m],
            {
                marks.push(false);
            }
            assert(marks@ == no_marks(items@.len()));
            size_node(items, &lists, i, &mut marks, Ghost(rule), Ghost(root@)).is_some()
        },
    }
}

/// The tree below the root id, as a cloud scan reports it.
#[derive(Debug)]
pub struct CloudTree {
    pub display_name: String,
    pub root_id: String,
    pub size: u64,
    pub children: Vec<CloudNode>,
}

/// The tree of the cached item with id `id`, if it is cached.
pub open spec fn item_node(s: Seq<ItemView>, rule: LinkRule, root: Seq<char>, id: Seq<char>) -> Option<NodeView> {
    if has_id(s, id) {
        node_at(s, rule, root, choose|k: int| 0 <= k < s.len() && s[k].id == id, no_marks(s.len()))
    } else {
        None
    }
}

/// Builds the tree below `root_id`: the top-level nodes ordered by size,
/// largest first, and their total size.
pub fn build_tree(items: &CloudItems, rule: LinkRule, root_id: &str, display_name: String) -> (r: CloudTree)
    requires
        items.wf(),
        sum_sizes(top_nodes(items@, rule, root_id@)) <= u64::MAX,
    ensures
        r.display_name@ == display_name@,
        r.root_id@ == root_id@,
        r.size == sum_sizes(top_nodes(items@, rule, root_id@)),
        nodes_view(r.children@) == sort_desc(top_nodes(items@, rule, root_id@)),
{
    let root = crate::text::to_owned_string(root_id);
    let lists = child_lists(items, rule, &root);
    let n = items.len();
    let mut targets: Vec<Option<String>> = Vec::new();
    for j in 0..n
        invariant
            n == items@.len(),
            items.wf(),
            targets@.len() == j,
            forall|m: int| 0 <= m < j ==> opt_string_view(#[trigger] targets@[m]) == attach(items@, rule, root@, m),
    {
        let t = attach_exec(items, rule, &root, j);
        targets.push(t);
    }
    let top = attached_exec(&targets, &root, Ghost(items@), Ghost(rule), Ghost(root@));
    let mut marks: Vec<bool> = Vec::new();
    for k in 0..n
        invariant
            marks@.len() == k,
            forall|m: int| 0 <= m < k ==> !marks@[m],
    {
        marks.push(false);
    }
    assert(marks@ == no_marks(items@.len()));
    let kids = build_kids(items, &lists, &top, &mut marks, Ghost(rule), Ghost(root@));
    let size = sum_node_sizes(&kids);
    let children = sort_nodes_desc(kids);
    CloudTree { display_name, root_id: root, size, children }
}

/// Builds the tree of the cached item with id `item_id`.
pub fn build_subtree(items: &CloudItems, rule: LinkRule, root_id: &str, item_id: &str) -> (r: Option<CloudNode>)
    requires
        items.wf(),
        node_fits(item_node(items@, rule, root_id@, item_id@)),
    ensures
        opt_node_view(r) == item_node(items@, rule, root_id@, item_id@),
{
    match items.find(item_id) {
        None => None,
        Some(i) => {
            proof {
                crate::cloud_items::CloudItems::lemma_wf(items);
                let c = choose|k: int| 0 <= k < items@.len() && items@[k].id == item_id@;
                assert(c == i as int);
            }
            let root = crate::text::to_owned_string(root_id);
            let lists = child_lists(items, rule, &root);
            let n = items.len();
            let mut marks: Vec<bool> = Vec::new();
            for k in 0..n
                invariant
                    marks@.len() == k,
                    forall|m: int| 0 <= m < k ==> !marks@[m],
            {
                marks.push(false);
            }
            assert(marks@ == no_marks(items@.len()));
            build_node(items, &lists, i, &mut marks, Ghost(rule), Ghost(root@))
        },
    }
}

/// A folder's size is the sum of its children's sizes; a file's size is
/// the cached size and it has no children; the children come ordered by
/// size, largest first.
pub proof fn law_node_sizes(s: Seq<ItemView>, rule: LinkRule, root: Seq<char>, i: int, marks: Seq<bool>)
    requires
        node_at(s, rule, root, i, marks) is Some,
    ensures
        ({
            let n = node_at(s, rule, root, i, marks)->Some_0;
            &&& n.cloud_id == s[i].id
            &&& n.name == s[i].name
            &&& n.is_directory == s[i].is_folder
            &&& n.is_directory ==> n.size == sum_sizes(n.children)
            &&& !n.is_directory ==> n.size == s[i].size && n.children.len() == 0
            &&& sorted_desc(n.children)
        }),
{
    let m2 = marks.update(i, true);
    if s[i].is_folder {
        let ks = kids_of(s, rule, root, attached(s, rule, root, s[i].id), m2);
        lemma_sort_sum(ks);
        lemma_sort_desc(ks);
    } else {
        assert(sort_desc(Seq::<NodeView>::empty()) == Seq::<NodeView>::empty());
    }
}

/// The reported total is the sum of the top-level sizes, and the top-level
/// nodes come ordered by size, largest first.
pub proof fn law_tree_total(s: Seq<ItemView>, rule: LinkRule, root: Seq<char>)
    ensures
        sum_sizes(sort_desc(top_nodes(s, rule, root))) == sum_sizes(top_nodes(s, rule, root)),
        sorted_desc(sort_desc(top_nodes(s, rule, root))),
        sort_desc(top_nodes(s, rule, root)).to_multiset() == top_nodes(s, rule, root).to_multiset(),
{
    lemma_sort_sum(top_nodes(s, rule, root));
    lemma_sort_desc(top_nodes(s, rule, root));
}

/// The bytes of the files in a node's tree: a file's own size, a folder's
/// files below it.
pub open spec fn leaf_total(n: NodeView) -> nat
    decreases n, 0int,
{
    if n.is_directory {
        leaves_of(n.children, n.children.len() as int)
    } else {
        n.size
    }
}

/// The bytes of the files in the trees of the first `k` nodes.
pub open spec fn leaves_of(v: Seq<NodeView>, k: int) -> nat
    decreases v, k,
{
    if k <= 0 || k > v.len() {
        0
    } else {
        leaves_of(v, k - 1) + leaf_total(v[k - 1])
    }
}

pub open spec fn leaves_all(v: Seq<NodeView>) -> nat {
    leaves_of(v, v.len() as int)
}

proof fn lemma_leaves_prefix(v: Seq<NodeView>, w: Seq<NodeView>, k: int)
    requires
        0 <= k <= v.len(),
        k <= w.len(),
        forall|m: int| 0 <= m < k ==> v[m] == w[m],
    ensures
        leaves_of(v, k) == leaves_of(w, k),
    decreases k,
{
    if k > 0 {
        lemma_leaves_prefix(v, w, k - 1);
    }
}

proof fn lemma_leaves_push(v: Seq<NodeView>, x: NodeView)
    ensures
        leaves_all(v.push(x)) == leaves_all(v) + leaf_total(x),
{
    lemma_leaves_prefix(v, v.push(x), v.len() as int);
}

proof fn lemma_leaves_append(a: Seq<NodeView>, b: Seq<NodeView>)
    ensures
        leaves_all(a + b) == leaves_all(a) + leaves_all(b),
    decreases b.len(),
{
    if b.len() == 0 {
        assert(a + b == a);
    } else {
        lemma_leaves_append(a, b.drop_last());
        assert(a + b == (a + b.drop_last()).push(b.last()));
        assert(b == b.drop_last().push(b.last()));
        lemma_leaves_push(a + b.drop_last(), b.last());
        lemma_leaves_push(b.drop_last(), b.last());
    }
}

proof fn lemma_leaves_single(x: NodeView)
    ensures
        leaves_all(seq![x]) == leaf_total(x),
{
    lemma_leaves_push(Seq::<NodeView>::empty(), x);
    assert(Seq::<NodeView>::empty().push(x) == seq![x]);
}

proof fn lemma_leaves_insert(x: NodeView, v: Seq<NodeView>)
    ensures
        leaves_all(insert_desc(x, v)) == leaves_all(v) + leaf_total(x),
    decreases v.len(),
{
    lemma_leaves_single(x);
    lemma_leaves_append(seq![x], v);
    if v.len() > 0 && !(v[0].size < x.size) {
        lemma_leaves_insert(x, v.drop_first());
        lemma_leaves_append(seq![v[0]], insert_desc(x, v.drop_first()));
        lemma_leaves_append(seq![v[0]], v.drop_first());
        assert(seq![v[0]] + v.drop_first() == v);
        lemma_leaves_single(v[0]);
    }
}

proof fn lemma_leaves_sort(v: Seq<NodeView>)
    ensures
        leaves_all(sort_desc(v)) == leaves_all(v),
    decreases v.len(),
{
    if v.len() > 0 {
        lemma_leaves_sort(v.drop_last());
        lemma_leaves_insert(v.last(), sort_desc(v.drop_last()));
        assert(v == v.drop_last().push(v.last()));
        lemma_leaves_push(v.drop_last(), v.last());
    }
}

proof fn lemma_sum_is_leaves(v: Seq<NodeView>)
    requires
        forall|k: int| 0 <= k < v.len() ==> (#[trigger] v[k]).size == leaf_total(v[k]),
    ensures
        sum_sizes(v) == leaves_all(v),
    decreases v.len(),
{
    if v.len() > 0 {
        lemma_sum_is_leaves(v.drop_last());
        assert(v == v.drop_last().push(v.last()));
        lemma_leaves_push(v.drop_last(), v.last());
    }
}

proof fn lemma_node_leaves(s: Seq<ItemView>, rule: LinkRule, root: Seq<char>, i: int, marks: Seq<bool>)
    ensures
        node_at(s, rule, root, i, marks) matches Some(n) ==> n.size == leaf_total(n),
    decreases unmarked(marks), 0int,
{
    if 0 <= i < s.len() && marks.len() == s.len() && !marks[i] {
        let m2 = marks.update(i, true);
        lemma_count_true_set(marks, i);
        lemma_count_true_bound(m2);
        if s[i].is_folder {
            let ks = kids_of(s, rule, root, attached(s, rule, root, s[i].id), m2);
            lemma_kids_leaves(s, rule, root, attached(s, rule, root, s[i].id), m2);
            lemma_sum_is_leaves(ks);
            lemma_leaves_sort(ks);
        }
    }
}

proof fn lemma_kids_leaves(s: Seq<ItemView>, rule: LinkRule, root: Seq<char>, list: Seq<int>, marks: Seq<bool>)
    ensures
        forall|k: int| 0 <= k < kids_of(s, rule, root, list, marks).len()
            ==> (#[trigger] kids_of(s, rule, root, list, marks)[k]).size == leaf_total(kids_of(s, rule, root, list, marks)[k]),
    decreases unmarked(marks), list.len() + 1,
{
    if list.len() > 0 {
        lemma_kids_leaves(s, rule, root, list.drop_last(), marks);
        lemma_node_leaves(s, rule, root, list.last(), marks);
        let rest = kids_of(s, rule, root, list.drop_last(), marks);
        let all = kids_of(s, rule, root, list, marks);
        assert forall|k: int| 0 <= k < all.len() implies (#[trigger] all[k]).size == leaf_total(all[k]) by {
            if k < rest.len() {
                assert(all[k] == rest[k]);
            }
        }
    }
}

/// The reported total is the sum of the sizes of the files in the reported
/// tree, and so is every folder's size in its own tree.
pub proof fn law_tree_leaves(s: Seq<ItemView>, rule: LinkRule, root: Seq<char>)
    ensures
        sum_sizes(top_nodes(s, rule, root)) == leaves_all(sort_desc(top_nodes(s, rule, root))),
        forall|i: int, marks: Seq<bool>| #[trigger] node_at(s, rule, root, i, marks) is Some
            ==> node_at(s, rule, root, i, marks)->Some_0.size == leaf_total(node_at(s, rule, root, i, marks)->Some_0),
{
    let top = top_nodes(s, rule, root);
    lemma_kids_leaves(s, rule, root, attached(s, rule, root, root), no_marks(s.len()));
    lemma_sum_is_leaves(top);
    lemma_leaves_sort(top);
    assert forall|i: int, marks: Seq<bool>| #[trigger] node_at(s, rule, root, i, marks) is Some implies node_at(
        s,
        rule,
        root,
        i,
        marks,
    )->Some_0.size == leaf_total(node_at(s, rule, root, i, marks)->Some_0) by {
        lemma_node_leaves(s, rule, root, i, marks);
    }
}

// ---------------------------------------------------------------------
// Each item once
// ---------------------------------------------------------------------

/// Item `c` is listed below the id `pid`.
pub open spec fn under(s: Seq<ItemView>, rule: LinkRule, root: Seq<char>, c: int, pid: Seq<char>) -> bool {
    0 <= c < s.len() && attach(s, rule, root, c) == Some(pid)
}

/// Item `j` is listed below item `i`.
pub open spec fn hangs(s: Seq<ItemView>, rule: LinkRule, root: Seq<char>, j: int, i: int) -> bool {
    0 <= i < s.len() && under(s, rule, root, j, s[i].id)
}

/// Item `j` is item `i` or lies below it, through at most `k` links.
pub open spec fn below(s: Seq<ItemView>, rule: LinkRule, root: Seq<char>, j: int, i: int, k: nat) -> bool
    decreases k,
{
    0 <= j < s.len() && (j == i || (k > 0 && exists|m: int|
        #[trigger] hangs(s, rule, root, j, m) && below(s, rule, root, m, i, (k - 1) as nat)))
}

/// Item `j` is item `i` or lies below it.
pub open spec fn in_tree_of(s: Seq<ItemView>, rule: LinkRule, root: Seq<char>, j: int, i: int) -> bool {
    exists|k: nat| below(s, rule, root, j, i, k)
}

/// A rank that grows along every link, which no cycle of links allows.
pub open spec fn ranked(s: Seq<ItemView>, rule: LinkRule, root: Seq<char>, rank: spec_fn(int) -> nat) -> bool {
    forall|j: int, i: int| #[trigger] hangs(s, rule, root, j, i) ==> rank(i) < rank(j)
}

/// Every item that another is listed below is a folder.
pub open spec fn parents_are_folders(s: Seq<ItemView>, rule: LinkRule, root: Seq<char>) -> bool {
    forall|j: int, i: int| #[trigger] hangs(s, rule, root, j, i) ==> s[i].is_folder
}

proof fn lemma_hangs_unique(s: Seq<ItemView>, rule: LinkRule, root: Seq<char>, j: int, a: int, b: int)
    requires
        ids_distinct(s),
        hangs(s, rule, root, j, a),
        hangs(s, rule, root, j, b),
    ensures
        a == b,
{
}

proof fn lemma_below_rank(s: Seq<ItemView>, rule: LinkRule, root: Seq<char>, rank: spec_fn(int) -> nat, j: int, i: int, k: nat)
    requires
        ranked(s, rule, root, rank),
        below(s, rule, root, j, i, k),
    ensures
        rank(j) >= rank(i),
    decreases k,
{
    if j != i {
        let m = choose|m: int| #[trigger] hangs(s, rule, root, j, m) && below(s, rule, root, m, i, (k - 1) as nat);
        lemma_below_rank(s, rule, root, rank, m, i, (k - 1) as nat);
    }
}

proof fn lemma_below_extend(s: Seq<ItemView>, rule: LinkRule, root: Seq<char>, d: int, c: int, i: int, k: nat)
    requires
        below(s, rule, root, d, c, k),
        hangs(s, rule, root, c, i),
    ensures
        below(s, rule, root, d, i, k + 1),
    decreases k,
{
    if d == c {
        assert(below(s, rule, root, i, i, k));
        assert(hangs(s, rule, root, d, i) && below(s, rule, root, i, i, k));
    } else {
        let m = choose|m: int| #[trigger] hangs(s, rule, root, d, m) && below(s, rule, root, m, c, (k - 1) as nat);
        lemma_below_extend(s, rule, root, m, c, i, (k - 1) as nat);
        assert(hangs(s, rule, root, d, m) && below(s, rule, root, m, i, k));
    }
}

/// The item just below `i` on the links from `j`.
proof fn lemma_below_step(s: Seq<ItemView>, rule: LinkRule, root: Seq<char>, j: int, i: int, k: nat) -> (c: int)
    requires
        below(s, rule, root, j, i, k),
        j != i,
    ensures
        hangs(s, rule, root, c, i),
        in_tree_of(s, rule, root, j, c),
    decreases k,
{
    let m = choose|m: int| #[trigger] hangs(s, rule, root, j, m) && below(s, rule, root, m, i, (k - 1) as nat);
    if m == i {
        assert(below(s, rule, root, j, j, 0));
        j
    } else {
        let c = lemma_below_step(s, rule, root, m, i, (k - 1) as nat);
        let k2 = choose|k2: nat| below(s, rule, root, m, c, k2);
        lemma_below_extend(s, rule, root, j, j, m, 0);
        lemma_below_chain(s, rule, root, j, m, c, k2);
        c
    }
}

/// One link from `j` to `m`, then a chain from `m` to `c`.
proof fn lemma_below_chain(s: Seq<ItemView>, rule: LinkRule, root: Seq<char>, j: int, m: int, c: int, k: nat)
    requires
        hangs(s, rule, root, j, m),
        below(s, rule, root, m, c, k),
    ensures
        in_tree_of(s, rule, root, j, c),
{
    if j == c {
        assert(below(s, rule, root, j, c, 0));
    } else {
        assert(below(s, rule, root, j, c, k + 1));
    }
}

/// Two items that both lie on the links up from `j` lie one below the
/// other.
proof fn lemma_below_comparable(
    s: Seq<ItemView>,
    rule: LinkRule,
    root: Seq<char>,
    j: int,
    a: int,
    b: int,
    ka: nat,
    kb: nat,
)
    requires
        ids_distinct(s),
        below(s, rule, root, j, a, ka),
        below(s, rule, root, j, b, kb),
    ensures
        in_tree_of(s, rule, root, a, b) || in_tree_of(s, rule, root, b, a),
    decreases ka,
{
    if j == a {
        assert(below(s, rule, root, a, b, kb));
    } else if j == b {
        assert(below(s, rule, root, b, a, ka));
    } else {
        let m1 = choose|m: int| #[trigger] hangs(s, rule, root, j, m) && below(s, rule, root, m, a, (ka - 1) as nat);
        let m2 = choose|m: int| #[trigger] hangs(s, rule, root, j, m) && below(s, rule, root, m, b, (kb - 1) as nat);
        lemma_hangs_unique(s, rule, root, j, m1, m2);
        lemma_below_comparable(s, rule, root, m1, a, b, (ka - 1) as nat, (kb - 1) as nat);
    }
}


/// How many nodes of a node's tree carry the id `x`.
pub open spec fn id_count(n: NodeView, x: Seq<char>) -> nat
    decreases n, 0int,
{
    (if n.cloud_id == x {
        1nat
    } else {
        0nat
    }) + id_count_of(n.children, x, n.children.len() as int)
}

/// How many nodes of the trees of the first `k` nodes carry the id `x`.
pub open spec fn id_count_of(v: Seq<NodeView>, x: Seq<char>, k: int) -> nat
    decreases v, k,
{
    if k <= 0 || k > v.len() {
        0
    } else {
        id_count_of(v, x, k - 1) + id_count(v[k - 1], x)
    }
}

pub open spec fn id_count_all(v: Seq<NodeView>, x: Seq<char>) -> nat {
    id_count_of(v, x, v.len() as int)
}

proof fn lemma_count_prefix(v: Seq<NodeView>, w: Seq<NodeView>, x: Seq<char>, k: int)
    requires
        0 <= k <= v.len(),
        k <= w.len(),
        forall|m: int| 0 <= m < k ==> v[m] == w[m],
    ensures
        id_count_of(v, x, k) == id_count_of(w, x, k),
    decreases k,
{
    if k > 0 {
        lemma_count_prefix(v, w, x, k - 1);
    }
}

proof fn lemma_count_push(v: Seq<NodeView>, y: NodeView, x: Seq<char>)
    ensures
        id_count_all(v.push(y), x) == id_count_all(v, x) + id_count(y, x),
{
    lemma_count_prefix(v, v.push(y), x, v.len() as int);
}

proof fn lemma_count_append(a: Seq<NodeView>, b: Seq<NodeView>, x: Seq<char>)
    ensures
        id_count_all(a + b, x) == id_count_all(a, x) + id_count_all(b, x),
    decreases b.len(),
{
    if b.len() == 0 {
        assert(a + b == a);
    } else {
        lemma_count_append(a, b.drop_last(), x);
        assert(a + b == (a + b.drop_last()).push(b.last()));
        assert(b == b.drop_last().push(b.last()));
        lemma_count_push(a + b.drop_last(), b.last(), x);
        lemma_count_push(b.drop_last(), b.last(), x);
    }
}

proof fn lemma_count_single(y: NodeView, x: Seq<char>)
    ensures
        id_count_all(seq![y], x) == id_count(y, x),
{
    lemma_count_push(Seq::<NodeView>::empty(), y, x);
    assert(Seq::<NodeView>::empty().push(y) == seq![y]);
}

proof fn lemma_count_insert(y: NodeView, v: Seq<NodeView>, x: Seq<char>)
    ensures
        id_count_all(insert_desc(y, v), x) == id_count_all(v, x) + id_count(y, x),
    decreases v.len(),
{
    lemma_count_single(y, x);
    lemma_count_append(seq![y], v, x);
    if v.len() > 0 && !(v[0].size < y.size) {
        lemma_count_insert(y, v.drop_first(), x);
        lemma_count_append(seq![v[0]], insert_desc(y, v.drop_first()), x);
        lemma_count_append(seq![v[0]], v.drop_first(), x);
        assert(seq![v[0]] + v.drop_first() == v);
        lemma_count_single(v[0], x);
    }
}

proof fn lemma_count_sort(v: Seq<NodeView>, x: Seq<char>)
    ensures
        id_count_all(sort_desc(v), x) == id_count_all(v, x),
    decreases v.len(),
{
    if v.len() > 0 {
        lemma_count_sort(v.drop_last(), x);
        lemma_count_insert(v.last(), sort_desc(v.drop_last()), x);
        assert(v == v.drop_last().push(v.last()));
        lemma_count_push(v.drop_last(), v.last(), x);
    }
}

/// An item below `c1` is not below a second item listed under the same id.
proof fn lemma_not_below_sibling(
    s: Seq<ItemView>,
    rule: LinkRule,
    root: Seq<char>,
    rank: spec_fn(int) -> nat,
    pid: Seq<char>,
    c1: int,
    c2: int,
)
    requires
        ranked(s, rule, root, rank),
        under(s, rule, root, c1, pid),
        under(s, rule, root, c2, pid),
        in_tree_of(s, rule, root, c1, c2),
    ensures
        c1 == c2,
{
    if c1 != c2 {
        let k = choose|k: nat| below(s, rule, root, c1, c2, k);
        let m = choose|m: int| #[trigger] hangs(s, rule, root, c1, m) && below(s, rule, root, m, c2, (k - 1) as nat);
        assert(hangs(s, rule, root, c2, m));
        lemma_below_rank(s, rule, root, rank, m, c2, (k - 1) as nat);
    }
}

/// At most one item listed under an id has a given item in its tree.
proof fn lemma_one_branch(
    s: Seq<ItemView>,
    rule: LinkRule,
    root: Seq<char>,
    rank: spec_fn(int) -> nat,
    pid: Seq<char>,
    j: int,
    c1: int,
    c2: int,
)
    requires
        ids_distinct(s),
        ranked(s, rule, root, rank),
        under(s, rule, root, c1, pid),
        under(s, rule, root, c2, pid),
        in_tree_of(s, rule, root, j, c1),
        in_tree_of(s, rule, root, j, c2),
    ensures
        c1 == c2,
{
    let ka = choose|k: nat| below(s, rule, root, j, c1, k);
    let kb = choose|k: nat| below(s, rule, root, j, c2, k);
    lemma_below_comparable(s, rule, root, j, c1, c2, ka, kb);
    if in_tree_of(s, rule, root, c1, c2) {
        lemma_not_below_sibling(s, rule, root, rank, pid, c1, c2);
    } else {
        lemma_not_below_sibling(s, rule, root, rank, pid, c2, c1);
    }
}

/// The positions `attached_upto` lists are below `n`, ascending, each listed
/// under `pid`, and every such position is listed.
proof fn lemma_attached_upto(s: Seq<ItemView>, rule: LinkRule, root: Seq<char>, pid: Seq<char>, n: int)
    requires
        n <= s.len(),
    ensures
        forall|p: int| 0 <= p < attached_upto(s, rule, root, pid, n).len()
            ==> #[trigger] under(s, rule, root, attached_upto(s, rule, root, pid, n)[p], pid)
                && attached_upto(s, rule, root, pid, n)[p] < n,
        forall|p: int, q: int| 0 <= p < q < attached_upto(s, rule, root, pid, n).len()
            ==> #[trigger] attached_upto(s, rule, root, pid, n)[p] < #[trigger] attached_upto(s, rule, root, pid, n)[q],
        forall|c: int| 0 <= c < n && #[trigger] under(s, rule, root, c, pid)
            ==> attached_upto(s, rule, root, pid, n).contains(c),
    decreases n,
{
    if n > 0 {
        lemma_attached_upto(s, rule, root, pid, n - 1);
        let rest = attached_upto(s, rule, root, pid, n - 1);
        let all = attached_upto(s, rule, root, pid, n);
        assert forall|c: int| 0 <= c < n && #[trigger] under(s, rule, root, c, pid) implies all.contains(c) by {
            if c < n - 1 {
                let p = choose|p: int| 0 <= p < rest.len() && rest[p] == c;
                if attach(s, rule, root, n - 1) == Some(pid) {
                    assert(all[p] == c);
                }
            } else {
                assert(all[all.len() - 1] == c);
            }
        }
        if attach(s, rule, root, n - 1) == Some(pid) {
            assert forall|p: int| 0 <= p < all.len() implies #[trigger] under(s, rule, root, all[p], pid) && all[p] < n by {
                if p < rest.len() {
                    assert(all[p] == rest[p]);
                    assert(under(s, rule, root, rest[p], pid));
                } else {
                    assert(all[p] == n - 1);
                }
            }
            assert forall|p: int, q: int| 0 <= p < q < all.len() implies #[trigger] all[p] < #[trigger] all[q] by {
                assert(all[p] == rest[p]);
                if q < rest.len() {
                    assert(all[q] == rest[q]);
                } else {
                    assert(under(s, rule, root, rest[p], pid));
                }
            }
        }
    }
}

/// The node of an item counts each item of its tree once and no other.
proof fn lemma_node_count(
    s: Seq<ItemView>,
    rule: LinkRule,
    root: Seq<char>,
    rank: spec_fn(int) -> nat,
    i: int,
    marks: Seq<bool>,
    j: int,
)
    requires
        ids_distinct(s),
        ranked(s, rule, root, rank),
        parents_are_folders(s, rule, root),
        0 <= i < s.len(),
        0 <= j < s.len(),
        marks.len() == s.len(),
        forall|m: int| 0 <= m < s.len() && #[trigger] marks[m] ==> rank(m) < rank(i),
    ensures
        node_at(s, rule, root, i, marks) is Some,
        id_count(node_at(s, rule, root, i, marks)->Some_0, s[j].id) == if in_tree_of(s, rule, root, j, i) {
            1nat
        } else {
            0nat
        },
    decreases unmarked(marks), 0int,
{
    let m2 = marks.update(i, true);
    lemma_count_true_set(marks, i);
    lemma_count_true_bound(m2);
    let n = node_at(s, rule, root, i, marks)->Some_0;
    let own: nat = if i == j {
        1nat
    } else {
        0nat
    };
    assert(own == if s[i].id == s[j].id {
        1nat
    } else {
        0nat
    });
    if s[i].is_folder {
        let list = attached(s, rule, root, s[i].id);
        let ks = kids_of(s, rule, root, list, m2);
        lemma_attached_upto(s, rule, root, s[i].id, s.len() as int);
        assert forall|p: int, m: int| 0 <= p < list.len() && 0 <= m < s.len() && #[trigger] m2[m]
            implies rank(m) < rank(#[trigger] list[p]) by {
            assert(under(s, rule, root, list[p], s[i].id));
            assert(hangs(s, rule, root, list[p], i));
        }
        lemma_kids_count(s, rule, root, rank, s[i].id, list, m2, j);
        lemma_count_sort(ks, s[j].id);
        let anyk = exists|p: int| 0 <= p < list.len() && in_tree_of(s, rule, root, j, #[trigger] list[p]);
        if i == j {
            if anyk {
                let p = choose|p: int| 0 <= p < list.len() && in_tree_of(s, rule, root, j, #[trigger] list[p]);
                assert(under(s, rule, root, list[p], s[i].id));
                assert(hangs(s, rule, root, list[p], i));
                let k = choose|k: nat| below(s, rule, root, j, list[p], k);
                lemma_below_rank(s, rule, root, rank, j, list[p], k);
            }
            assert(below(s, rule, root, j, i, 0));
        } else if in_tree_of(s, rule, root, j, i) {
            let k = choose|k: nat| below(s, rule, root, j, i, k);
            let c = lemma_below_step(s, rule, root, j, i, k);
            assert(under(s, rule, root, c, s[i].id));
            let p = choose|p: int| 0 <= p < list.len() && list[p] == c;
            assert(in_tree_of(s, rule, root, j, list[p]));
        } else if anyk {
            let p = choose|p: int| 0 <= p < list.len() && in_tree_of(s, rule, root, j, #[trigger] list[p]);
            assert(under(s, rule, root, list[p], s[i].id));
            assert(hangs(s, rule, root, list[p], i));
            let k = choose|k: nat| below(s, rule, root, j, list[p], k);
            lemma_below_extend(s, rule, root, j, list[p], i, k);
        }
    } else {
        assert(n.children == sort_desc(Seq::<NodeView>::empty()));
        assert(id_count_of(n.children, s[j].id, 0) == 0);
        if i == j {
            assert(below(s, rule, root, j, i, 0));
        } else if in_tree_of(s, rule, root, j, i) {
            let k = choose|k: nat| below(s, rule, root, j, i, k);
            let c = lemma_below_step(s, rule, root, j, i, k);
        }
    }
}

/// The nodes of the listed items count each item in one of their trees
/// once and no other.
proof fn lemma_kids_count(
    s: Seq<ItemView>,
    rule: LinkRule,
    root: Seq<char>,
    rank: spec_fn(int) -> nat,
    pid: Seq<char>,
    list: Seq<int>,
    marks: Seq<bool>,
    j: int,
)
    requires
        ids_distinct(s),
        ranked(s, rule, root, rank),
        parents_are_folders(s, rule, root),
        0 <= j < s.len(),
        marks.len() == s.len(),
        forall|p: int| 0 <= p < list.len() ==> #[trigger] under(s, rule, root, list[p], pid),
        forall|p: int, q: int| 0 <= p < q < list.len() ==> #[trigger] list[p] < #[trigger] list[q],
        forall|p: int, m: int| 0 <= p < list.len() && 0 <= m < s.len() && #[trigger] marks[m]
            ==> rank(m) < rank(#[trigger] list[p]),
    ensures
        id_count_all(kids_of(s, rule, root, list, marks), s[j].id) == if exists|p: int|
            0 <= p < list.len() && in_tree_of(s, rule, root, j, #[trigger] list[p]) {
            1nat
        } else {
            0nat
        },
    decreases unmarked(marks), list.len() + 1,
{
    if list.len() == 0 {
        assert(id_count_of(Seq::<NodeView>::empty(), s[j].id, 0) == 0);
    } else {
        let front = list.drop_last();
        let c = list.last();
        assert(under(s, rule, root, list[list.len() - 1], pid));
        assert forall|p: int, m: int| 0 <= p < front.len() && 0 <= m < s.len() && #[trigger] marks[m]
            implies rank(m) < rank(#[trigger] front[p]) by {
            assert(front[p] == list[p]);
        }
        assert forall|p: int| 0 <= p < front.len() implies #[trigger] under(s, rule, root, front[p], pid) by {
            assert(front[p] == list[p]);
        }
        assert forall|p: int, q: int| 0 <= p < q < front.len() implies #[trigger] front[p] < #[trigger] front[q] by {
            assert(front[p] == list[p]);
            assert(front[q] == list[q]);
        }
        lemma_kids_count(s, rule, root, rank, pid, front, marks, j);
        assert forall|m: int| 0 <= m < s.len() && #[trigger] marks[m] implies rank(m) < rank(c) by {
            assert(rank(m) < rank(list[list.len() - 1]));
        }
        lemma_node_count(s, rule, root, rank, c, marks, j);
        let rest = kids_of(s, rule, root, front, marks);
        lemma_count_push(rest, node_at(s, rule, root, c, marks)->Some_0, s[j].id);
        let in_front = exists|p: int| 0 <= p < front.len() && in_tree_of(s, rule, root, j, #[trigger] front[p]);
        let in_all = exists|p: int| 0 <= p < list.len() && in_tree_of(s, rule, root, j, #[trigger] list[p]);
        if in_front {
            let p = choose|p: int| 0 <= p < front.len() && in_tree_of(s, rule, root, j, #[trigger] front[p]);
            assert(list[p] == front[p]);
            assert(in_all);
            if in_tree_of(s, rule, root, j, c) {
                assert(under(s, rule, root, list[p], pid));
                lemma_one_branch(s, rule, root, rank, pid, j, list[p], c);
                assert(list[p] < list[list.len() - 1]);
            }
        } else if in_tree_of(s, rule, root, j, c) {
            assert(in_tree_of(s, rule, root, j, list[list.len() - 1]));
            assert(in_all);
        } else {
            assert forall|p: int| 0 <= p < list.len() implies !in_tree_of(s, rule, root, j, #[trigger] list[p]) by {
                if p < front.len() {
                    assert(front[p] == list[p]);
                }
            }
        }
    }
}

/// Every item in the tree of an item listed below the root id is one node
/// of the reported tree, and no other item is: the nodes that carry an
/// item's id number one if it lies below the root id, else none. This holds
/// where the ids are distinct, the parent links form no cycle (some rank
/// grows along every link), and every item that another is listed below is
/// a folder.
pub proof fn law_tree_items_once(s: Seq<ItemView>, rule: LinkRule, root: Seq<char>, rank: spec_fn(int) -> nat, j: int)
    requires
        ids_distinct(s),
        ranked(s, rule, root, rank),
        parents_are_folders(s, rule, root),
        0 <= j < s.len(),
    ensures
        id_count_all(sort_desc(top_nodes(s, rule, root)), s[j].id) == if exists|c: int|
            under(s, rule, root, c, root) && #[trigger] in_tree_of(s, rule, root, j, c) {
            1nat
        } else {
            0nat
        },
{
    let list = attached(s, rule, root, root);
    lemma_attached_upto(s, rule, root, root, s.len() as int);
    lemma_kids_count(s, rule, root, rank, root, list, no_marks(s.len()), j);
    lemma_count_sort(top_nodes(s, rule, root), s[j].id);
    let in_list = exists|p: int| 0 <= p < list.len() && in_tree_of(s, rule, root, j, #[trigger] list[p]);
    let in_top = exists|c: int| under(s, rule, root, c, root) && #[trigger] in_tree_of(s, rule, root, j, c);
    if in_list {
        let p = choose|p: int| 0 <= p < list.len() && in_tree_of(s, rule, root, j, #[trigger] list[p]);
        assert(under(s, rule, root, list[p], root));
        assert(in_top);
    } else if in_top {
        let c = choose|c: int| under(s, rule, root, c, root) && #[trigger] in_tree_of(s, rule, root, j, c);
        let p = choose|p: int| 0 <= p < list.len() && list[p] == c;
        assert(in_tree_of(s, rule, root, j, list[p]));
    }
}

/// Where orphans hang below the root id, every item but the root item lies
/// in the tree of an item listed below the root id.
proof fn lemma_reaches_top(s: Seq<ItemView>, rule: LinkRule, root: Seq<char>, rank: spec_fn(int) -> nat, j: int)
    requires
        rule.skip_root,
        rule.orphans_to_root,
        ranked(s, rule, root, rank),
        0 <= j < s.len(),
        s[j].id != root,
    ensures
        exists|c: int| under(s, rule, root, c, root) && #[trigger] in_tree_of(s, rule, root, j, c),
    decreases rank(j),
{
    if attach(s, rule, root, j) == Some(root) {
        assert(below(s, rule, root, j, j, 0));
        assert(under(s, rule, root, j, root) && in_tree_of(s, rule, root, j, j));
    } else {
        let p = s[j].parent_id->Some_0;
        let m = choose|k: int| 0 <= k < s.len() && s[k].id == p;
        assert(hangs(s, rule, root, j, m));
        lemma_reaches_top(s, rule, root, rank, m);
        let c = choose|c: int| under(s, rule, root, c, root) && #[trigger] in_tree_of(s, rule, root, m, c);
        let k = choose|k: nat| below(s, rule, root, m, c, k);
        lemma_below_chain(s, rule, root, j, m, c, k);
    }
}

/// Where the root item is listed below nothing and orphans hang below the
/// root id (the rule of a full cloud scan), every cached item but the root
/// item is exactly one node of the reported tree, and the root item is
/// none. This holds where the ids are distinct, the parent links form no
/// cycle (some rank grows along every link), and every item that another
/// is listed below is a folder.
pub proof fn law_scan_items_once(s: Seq<ItemView>, rule: LinkRule, root: Seq<char>, rank: spec_fn(int) -> nat, j: int)
    requires
        rule.skip_root,
        rule.orphans_to_root,
        ids_distinct(s),
        ranked(s, rule, root, rank),
        parents_are_folders(s, rule, root),
        0 <= j < s.len(),
    ensures
        id_count_all(sort_desc(top_nodes(s, rule, root)), s[j].id) == if s[j].id == root {
            0nat
        } else {
            1nat
        },
{
    law_tree_items_once(s, rule, root, rank, j);
    if s[j].id == root {
        if exists|c: int| under(s, rule, root, c, root) && #[trigger] in_tree_of(s, rule, root, j, c) {
            let c = choose|c: int| under(s, rule, root, c, root) && #[trigger] in_tree_of(s, rule, root, j, c);
            let k = choose|k: nat| below(s, rule, root, j, c, k);
            if j != c {
                let m = choose|m: int| #[trigger] hangs(s, rule, root, j, m) && below(s, rule, root, m, c, (k - 1) as nat);
            }
        }
    } else {
        lemma_reaches_top(s, rule, root, rank, j);
    }
}

/// The sizes of the files among the first `n` items that `pick` picks.
pub open spec fn files_sum(s: Seq<ItemView>, pick: spec_fn(int) -> bool, n: int) -> nat
    decreases n,
{
    if n <= 0 {
        0
    } else {
        files_sum(s, pick, n - 1) + if pick(n - 1) && !s[n - 1].is_folder {
            s[n - 1].size as nat
        } else {
            0nat
        }
    }
}

/// The items in the tree of item `i`.
pub open spec fn tree_pick(s: Seq<ItemView>, rule: LinkRule, root: Seq<char>, i: int) -> spec_fn(int) -> bool {
    |j: int| in_tree_of(s, rule, root, j, i)
}

/// The items in the tree of one of the listed items.
pub open spec fn list_pick(s: Seq<ItemView>, rule: LinkRule, root: Seq<char>, list: Seq<int>) -> spec_fn(int) -> bool {
    |j: int| exists|p: int| 0 <= p < list.len() && in_tree_of(s, rule, root, j, #[trigger] list[p])
}

/// The items in the tree of an item listed below the root id.
pub open spec fn top_pick(s: Seq<ItemView>, rule: LinkRule, root: Seq<char>) -> spec_fn(int) -> bool {
    |j: int| exists|c: int| under(s, rule, root, c, root) && #[trigger] in_tree_of(s, rule, root, j, c)
}

/// Every cached item but the root item.
pub open spec fn non_root_pick(s: Seq<ItemView>, root: Seq<char>) -> spec_fn(int) -> bool {
    |j: int| s[j].id != root
}

proof fn lemma_files_ext(s: Seq<ItemView>, a: spec_fn(int) -> bool, b: spec_fn(int) -> bool, n: int)
    requires
        forall|j: int| 0 <= j < n && !s[j].is_folder ==> #[trigger] a(j) == b(j),
    ensures
        files_sum(s, a, n) == files_sum(s, b, n),
    decreases n,
{
    if n > 0 {
        lemma_files_ext(s, a, b, n - 1);
    }
}

proof fn lemma_files_split(s: Seq<ItemView>, a: spec_fn(int) -> bool, b: spec_fn(int) -> bool, r: spec_fn(int) -> bool, n: int)
    requires
        forall|j: int| 0 <= j < n ==> #[trigger] r(j) == (a(j) || b(j)),
        forall|j: int| 0 <= j < n ==> !(#[trigger] a(j) && b(j)),
    ensures
        files_sum(s, r, n) == files_sum(s, a, n) + files_sum(s, b, n),
    decreases n,
{
    if n > 0 {
        lemma_files_split(s, a, b, r, n - 1);
    }
}

proof fn lemma_files_one(s: Seq<ItemView>, a: spec_fn(int) -> bool, i: int, n: int)
    requires
        0 <= i,
        forall|j: int| 0 <= j < n ==> #[trigger] a(j) == (j == i),
    ensures
        files_sum(s, a, n) == if i < n && !s[i].is_folder {
            s[i].size as nat
        } else {
            0nat
        },
    decreases n,
{
    if n > 0 {
        lemma_files_one(s, a, i, n - 1);
    }
}

/// A node's files are the files of its item's tree.
proof fn lemma_node_files(
    s: Seq<ItemView>,
    rule: LinkRule,
    root: Seq<char>,
    rank: spec_fn(int) -> nat,
    i: int,
    marks: Seq<bool>,
)
    requires
        ids_distinct(s),
        ranked(s, rule, root, rank),
        parents_are_folders(s, rule, root),
        0 <= i < s.len(),
        marks.len() == s.len(),
        forall|m: int| 0 <= m < s.len() && #[trigger] marks[m] ==> rank(m) < rank(i),
    ensures
        node_at(s, rule, root, i, marks) is Some,
        leaf_total(node_at(s, rule, root, i, marks)->Some_0) == files_sum(s, tree_pick(s, rule, root, i), s.len() as int),
    decreases unmarked(marks), 0int,
{
    let m2 = marks.update(i, true);
    lemma_count_true_set(marks, i);
    lemma_count_true_bound(m2);
    let n = node_at(s, rule, root, i, marks)->Some_0;
    let tp = tree_pick(s, rule, root, i);
    if s[i].is_folder {
        let list = attached(s, rule, root, s[i].id);
        let ks = kids_of(s, rule, root, list, m2);
        lemma_attached_upto(s, rule, root, s[i].id, s.len() as int);
        assert forall|p: int, m: int| 0 <= p < list.len() && 0 <= m < s.len() && #[trigger] m2[m]
            implies rank(m) < rank(#[trigger] list[p]) by {
            assert(under(s, rule, root, list[p], s[i].id));
            assert(hangs(s, rule, root, list[p], i));
        }
        lemma_kids_files(s, rule, root, rank, s[i].id, list, m2);
        lemma_leaves_sort(ks);
        let lp = list_pick(s, rule, root, list);
        assert forall|j: int| 0 <= j < s.len() && !s[j].is_folder implies #[trigger] tp(j) == lp(j) by {
            if tp(j) {
                let k = choose|k: nat| below(s, rule, root, j, i, k);
                let c = lemma_below_step(s, rule, root, j, i, k);
                assert(under(s, rule, root, c, s[i].id));
                let p = choose|p: int| 0 <= p < list.len() && list[p] == c;
                assert(in_tree_of(s, rule, root, j, list[p]));
            }
            if lp(j) {
                let p = choose|p: int| 0 <= p < list.len() && in_tree_of(s, rule, root, j, #[trigger] list[p]);
                assert(under(s, rule, root, list[p], s[i].id));
                assert(hangs(s, rule, root, list[p], i));
                let k = choose|k: nat| below(s, rule, root, j, list[p], k);
                lemma_below_extend(s, rule, root, j, list[p], i, k);
            }
        }
        lemma_files_ext(s, tp, lp, s.len() as int);
    } else {
        assert forall|j: int| 0 <= j < s.len() implies #[trigger] tp(j) == (j == i) by {
            if j == i {
                assert(below(s, rule, root, j, i, 0));
            } else if tp(j) {
                let k = choose|k: nat| below(s, rule, root, j, i, k);
                let c = lemma_below_step(s, rule, root, j, i, k);
            }
        }
        lemma_files_one(s, tp, i, s.len() as int);
    }
}

/// The listed items' nodes hold the files of the listed items' trees.
proof fn lemma_kids_files(
    s: Seq<ItemView>,
    rule: LinkRule,
    root: Seq<char>,
    rank: spec_fn(int) -> nat,
    pid: Seq<char>,
    list: Seq<int>,
    marks: Seq<bool>,
)
    requires
        ids_distinct(s),
        ranked(s, rule, root, rank),
        parents_are_folders(s, rule, root),
        marks.len() == s.len(),
        forall|p: int| 0 <= p < list.len() ==> #[trigger] under(s, rule, root, list[p], pid),
        forall|p: int, q: int| 0 <= p < q < list.len() ==> #[trigger] list[p] < #[trigger] list[q],
        forall|p: int, m: int| 0 <= p < list.len() && 0 <= m < s.len() && #[trigger] marks[m]
            ==> rank(m) < rank(#[trigger] list[p]),
    ensures
        leaves_all(kids_of(s, rule, root, list, marks)) == files_sum(s, list_pick(s, rule, root, list), s.len() as int),
    decreases unmarked(marks), list.len() + 1,
{
    let lp = list_pick(s, rule, root, list);
    if list.len() == 0 {
        assert(leaves_of(Seq::<NodeView>::empty(), 0) == 0);
        lemma_files_ext(s, lp, |j: int| false, s.len() as int);
        lemma_files_one(s, |j: int| false, s.len() as int, s.len() as int);
    } else {
        let front = list.drop_last();
        let c = list.last();
        assert(under(s, rule, root, list[list.len() - 1], pid));
        assert forall|p: int, m: int| 0 <= p < front.len() && 0 <= m < s.len() && #[trigger] marks[m]
            implies rank(m) < rank(#[trigger] front[p]) by {
            assert(front[p] == list[p]);
        }
        assert forall|p: int| 0 <= p < front.len() implies #[trigger] under(s, rule, root, front[p], pid) by {
            assert(front[p] == list[p]);
        }
        assert forall|p: int, q: int| 0 <= p < q < front.len() implies #[trigger] front[p] < #[trigger] front[q] by {
            assert(front[p] == list[p]);
            assert(front[q] == list[q]);
        }
        lemma_kids_files(s, rule, root, rank, pid, front, marks);
        assert forall|m: int| 0 <= m < s.len() && #[trigger] marks[m] implies rank(m) < rank(c) by {
            assert(rank(m) < rank(list[list.len() - 1]));
        }
        lemma_node_files(s, rule, root, rank, c, marks);
        let rest = kids_of(s, rule, root, front, marks);
        lemma_leaves_push(rest, node_at(s, rule, root, c, marks)->Some_0);
        let fp = list_pick(s, rule, root, front);
        let cp = tree_pick(s, rule, root, c);
        assert forall|j: int| 0 <= j < s.len() implies #[trigger] lp(j) == (fp(j) || cp(j)) by {
            if lp(j) {
                let p = choose|p: int| 0 <= p < list.len() && in_tree_of(s, rule, root, j, #[trigger] list[p]);
                if p < front.len() {
                    assert(front[p] == list[p]);
                }
            }
            if fp(j) {
                let p = choose|p: int| 0 <= p < front.len() && in_tree_of(s, rule, root, j, #[trigger] front[p]);
                assert(front[p] == list[p]);
            }
            if cp(j) {
                assert(in_tree_of(s, rule, root, j, list[list.len() - 1]));
            }
        }
        assert forall|j: int| 0 <= j < s.len() implies !(#[trigger] fp(j) && cp(j)) by {
            if fp(j) && cp(j) {
                let p = choose|p: int| 0 <= p < front.len() && in_tree_of(s, rule, root, j, #[trigger] front[p]);
                assert(front[p] == list[p]);
                assert(under(s, rule, root, list[p], pid));
                lemma_one_branch(s, rule, root, rank, pid, j, list[p], c);
                assert(list[p] < list[list.len() - 1]);
            }
        }
        lemma_files_split(s, fp, cp, lp, s.len() as int);
    }
}

/// The total of the reported tree is the sum of the sizes of the cached
/// files in the trees of the items listed below the root id; where orphans
/// hang below the root id and the root item below nothing (a full cloud
/// scan), it is the sum of the sizes of all cached files but the root item.
/// This holds where the ids are distinct, the parent links form no cycle
/// (some rank grows along every link), and every item that another is
/// listed below is a folder.
pub proof fn law_tree_files_total(s: Seq<ItemView>, rule: LinkRule, root: Seq<char>, rank: spec_fn(int) -> nat)
    requires
        ids_distinct(s),
        ranked(s, rule, root, rank),
        parents_are_folders(s, rule, root),
    ensures
        sum_sizes(top_nodes(s, rule, root)) == files_sum(s, top_pick(s, rule, root), s.len() as int),
        rule.skip_root && rule.orphans_to_root ==> sum_sizes(top_nodes(s, rule, root)) == files_sum(
            s,
            non_root_pick(s, root),
            s.len() as int,
        ),
{
    let list = attached(s, rule, root, root);
    let top = top_nodes(s, rule, root);
    lemma_attached_upto(s, rule, root, root, s.len() as int);
    lemma_kids_files(s, rule, root, rank, root, list, no_marks(s.len()));
    lemma_kids_leaves(s, rule, root, list, no_marks(s.len()));
    lemma_sum_is_leaves(top);
    let lp = list_pick(s, rule, root, list);
    let tp = top_pick(s, rule, root);
    assert forall|j: int| 0 <= j < s.len() && !s[j].is_folder implies #[trigger] lp(j) == tp(j) by {
        if lp(j) {
            let p = choose|p: int| 0 <= p < list.len() && in_tree_of(s, rule, root, j, #[trigger] list[p]);
            assert(under(s, rule, root, list[p], root));
        }
        if tp(j) {
            let c = choose|c: int| under(s, rule, root, c, root) && #[trigger] in_tree_of(s, rule, root, j, c);
            let p = choose|p: int| 0 <= p < list.len() && list[p] == c;
            assert(in_tree_of(s, rule, root, j, list[p]));
        }
    }
    lemma_files_ext(s, lp, tp, s.len() as int);
    if rule.skip_root && rule.orphans_to_root {
        let np = non_root_pick(s, root);
        assert forall|j: int| 0 <= j < s.len() && !s[j].is_folder implies #[trigger] tp(j) == np(j) by {
            if s[j].id == root {
                if tp(j) {
                    let c = choose|c: int| under(s, rule, root, c, root) && #[trigger] in_tree_of(s, rule, root, j, c);
                    let k = choose|k: nat| below(s, rule, root, j, c, k);
                    if j != c {
                        let m = choose|m: int| #[trigger] hangs(s, rule, root, j, m) && below(s, rule, root, m, c, (k - 1) as nat);
                    }
                }
            } else {
                lemma_reaches_top(s, rule, root, rank, j);
            }
        }
        lemma_files_ext(s, tp, np, s.len() as int);
    }
}

} // verus!
