use vstd::prelude::*;

use crate::error::Error;
use crate::geometry::Rect;

verus! {

/// How a widget's internal record is currently borrowed.
///
/// Records follow single-writer/multiple-reader discipline with immediate
/// failure: an operation that needs access to a record that is already
/// borrowed incompatibly fails with `Error::BorrowConflict` instead of
/// blocking.
#[derive(Clone, Copy, Debug, PartialEq, Eq, Structural)]
pub enum GuardState {
    /// No outstanding borrow.
    Free,
    /// The given number of outstanding shared borrows (at least one).
    Shared(u32),
    /// One outstanding exclusive borrow.
    Exclusive,
}

/// The mathematical value of one widget record.
#[verifier::ext_equal]
pub ghost struct WidgetModel {
    pub id: u64,
    pub bounds: Rect,
    pub old_bounds: Option<Rect>,
    pub parent: Option<u64>,
    pub children: Seq<u64>,
    pub guard: GuardState,
}

/// `m` with its `bounds` field replaced.
pub open spec fn with_bounds(m: WidgetModel, bounds: Rect) -> WidgetModel {
    WidgetModel { bounds, ..m }
}

/// `m` with its `old_bounds` scratch slot replaced.
pub open spec fn with_old_bounds(m: WidgetModel, old_bounds: Option<Rect>) -> WidgetModel {
    WidgetModel { old_bounds, ..m }
}

/// `m` with its `parent` back edge replaced.
pub open spec fn with_parent(m: WidgetModel, parent: Option<u64>) -> WidgetModel {
    WidgetModel { parent, ..m }
}

/// `m` with its `children` sequence replaced.
pub open spec fn with_children(m: WidgetModel, children: Seq<u64>) -> WidgetModel {
    WidgetModel { children, ..m }
}

/// `m` with its guard state replaced.
pub open spec fn with_guard(m: WidgetModel, guard: GuardState) -> WidgetModel {
    WidgetModel { guard, ..m }
}

/// Whether one more shared borrow of a record with guard `g` may be
/// taken out.
pub open spec fn can_share(g: GuardState) -> bool {
    match g {
        GuardState::Free => true,
        GuardState::Shared(n) => n < u32::MAX,
        GuardState::Exclusive => false,
    }
}

/// The guard after one more shared borrow is taken out.
pub open spec fn after_share(g: GuardState) -> GuardState {
    match g {
        GuardState::Free => GuardState::Shared(1),
        GuardState::Shared(n) => GuardState::Shared((n + 1) as u32),
        GuardState::Exclusive => GuardState::Exclusive,
    }
}

/// The guard after one shared borrow is given back.
pub open spec fn after_unshare(g: GuardState) -> GuardState {
    match g {
        GuardState::Shared(n) => if n <= 1 {
            GuardState::Free
        } else {
            GuardState::Shared((n - 1) as u32)
        },
        _ => g,
    }
}

/// The record behind every widget handle: identity, geometry, the transient
/// scratch slot pairing a bounds-changing notification with the matching
/// bounds-changed one, the tree edges, and the record's borrow guard.
#[derive(Debug)]
pub struct WidgetInternal {
    id: u64,
    bounds: Rect,
    old_bounds: Option<Rect>,
    parent: Option<u64>,
    children: Vec<u64>,
    guard: GuardState,
}

impl View for WidgetInternal {
    type V = WidgetModel;

    closed spec fn view(&self) -> WidgetModel {
        WidgetModel {
            id: self.id,
            bounds: self.bounds,
            old_bounds: self.old_bounds,
            parent: self.parent,
            children: self.children@,
            guard: self.guard,
        }
    }
}

impl WidgetInternal {
    /// A fresh record: the given identity and bounds, no parent, no
    /// children, an empty scratch slot, and a free guard.
    pub fn new(id: u64, bounds: Rect) -> (w: WidgetInternal)
        ensures
            w@ =~= (WidgetModel {
                id,
                bounds,
                old_bounds: None,
                parent: None,
                children: Seq::empty(),
                guard: GuardState::Free,
            }),
    {
        WidgetInternal {
            id,
            bounds,
            old_bounds: None,
            parent: None,
            children: Vec::new(),
            guard: GuardState::Free,
        }
    }

    /// The record's identity.
    pub fn id(&self) -> (r: u64)
        ensures
            r == self@.id,
    {
        self.id
    }

    /// The record's current bounds.
    pub fn bounds(&self) -> (r: Rect)
        ensures
            r == self@.bounds,
    {
        self.bounds
    }
}

/// A GUI widget: a wrapper around the internal record. Handles into the
/// tree are the record identities themselves (`u64`), so this wrapper's
/// role is to own the record while it lives in a `WidgetTree`.
#[derive(Debug)]
pub struct Widget {
    internal: WidgetInternal,
}

impl View for Widget {
    type V = WidgetModel;

    closed spec fn view(&self) -> WidgetModel {
        self.internal@
    }
}

impl Widget {
    /// Wrap an internal record as a widget.
    pub fn from_internal(internal: WidgetInternal) -> (w: Widget)
        ensures
            w@ == internal@,
    {
        Widget { internal }
    }

    /// The internal record of the widget.
    pub fn internal(&self) -> (r: &WidgetInternal)
        ensures
            r@ == self@,
    {
        &self.internal
    }
}

/// The models of a sequence of widgets.
pub open spec fn models(q: Seq<Widget>) -> Seq<WidgetModel> {
    q.map_values(|w: Widget| w@)
}

/// The finite map from identity to record model that a sequence of widget
/// records denotes. A later record with the same identity wins, but the
/// tree keeps identities distinct, so the case never arises there.
pub open spec fn map_of(s: Seq<WidgetModel>) -> Map<u64, WidgetModel>
    decreases s.len(),
{
    if s.len() == 0 {
        Map::empty()
    } else {
        map_of(s.drop_last()).insert(s.last().id, s.last())
    }
}

/// No two records of the sequence share an identity.
pub open spec fn distinct_ids(s: Seq<WidgetModel>) -> bool {
    forall|i: int, j: int|
        0 <= i < s.len() && 0 <= j < s.len() && #[trigger] s[i].id == #[trigger] s[j].id ==> i == j
}

/// An identity is in the denoted map exactly when some record carries it.
proof fn lemma_map_of_dom(s: Seq<WidgetModel>, id: u64)
    ensures
        map_of(s).dom().contains(id) <==> exists|i: int| 0 <= i < s.len() && #[trigger] s[i].id == id,
    decreases s.len(),
{
    if s.len() > 0 {
        lemma_map_of_dom(s.drop_last(), id);
        if map_of(s).dom().contains(id) {
            if s.last().id != id {
                let i = choose|i: int| 0 <= i < s.drop_last().len() && #[trigger] s.drop_last()[i].id == id;
                assert(s[i].id == id);
            }
        }
        if exists|i: int| 0 <= i < s.len() && #[trigger] s[i].id == id {
            let i = choose|i: int| 0 <= i < s.len() && #[trigger] s[i].id == id;
            if i < s.len() - 1 {
                assert(s.drop_last()[i].id == id);
            }
        }
    }
}

/// Under distinct identities, the denoted map sends each record's identity
/// to that record.
proof fn lemma_map_of_index(s: Seq<WidgetModel>, i: int)
    requires
        distinct_ids(s),
        0 <= i < s.len(),
    ensures
        map_of(s).dom().contains(s[i].id),
        map_of(s)[s[i].id] == s[i],
    decreases s.len(),
{
    if i == s.len() - 1 {
    } else {
        assert(distinct_ids(s.drop_last())) by {
            assert forall|x: int, y: int|
                0 <= x < s.drop_last().len() && 0 <= y < s.drop_last().len()
                    && #[trigger] s.drop_last()[x].id == #[trigger] s.drop_last()[y].id implies x
                == y by {
                assert(s[x].id == s[y].id);
            }
        }
        assert(s.drop_last()[i] == s[i]);
        lemma_map_of_index(s.drop_last(), i);
        assert(s[i].id != s.last().id);
    }
}

/// Updating the record at one index updates the denoted map at that
/// record's identity, when identities are distinct and the identity is
/// kept.
proof fn lemma_map_of_update(s: Seq<WidgetModel>, i: int, w: WidgetModel)
    requires
        distinct_ids(s),
        0 <= i < s.len(),
        w.id == s[i].id,
    ensures
        map_of(s.update(i, w)) =~= map_of(s).insert(w.id, w),
    decreases s.len(),
{
    let t = s.update(i, w);
    if i == s.len() - 1 {
        assert(t.drop_last() =~= s.drop_last());
        assert(t.last() == w);
    } else {
        assert(distinct_ids(s.drop_last())) by {
            assert forall|x: int, y: int|
                0 <= x < s.drop_last().len() && 0 <= y < s.drop_last().len()
                    && #[trigger] s.drop_last()[x].id == #[trigger] s.drop_last()[y].id implies x
                == y by {
                assert(s[x].id == s[y].id);
            }
        }
        assert(s.drop_last()[i] == s[i]);
        lemma_map_of_update(s.drop_last(), i, w);
        assert(t.drop_last() =~= s.drop_last().update(i, w));
        assert(t.last() == s.last());
        assert(w.id != s.last().id);
    }
}

/// Appending a record extends the denoted map at its identity.
proof fn lemma_map_of_push(s: Seq<WidgetModel>, w: WidgetModel)
    ensures
        map_of(s.push(w)) =~= map_of(s).insert(w.id, w),
{
    assert(s.push(w).drop_last() =~= s);
    assert(s.push(w).last() == w);
}

/// Replacing a record by one with the same identity keeps identities
/// distinct.
proof fn lemma_update_keeps_distinct(s: Seq<WidgetModel>, i: int, w: WidgetModel)
    requires
        distinct_ids(s),
        0 <= i < s.len(),
        w.id == s[i].id,
    ensures
        distinct_ids(s.update(i, w)),
{
    let t = s.update(i, w);
    assert forall|x: int, y: int|
        0 <= x < t.len() && 0 <= y < t.len() && #[trigger] t[x].id == #[trigger] t[y].id implies x
        == y by {
        assert(t[x].id == s[x].id);
        assert(t[y].id == s[y].id);
    }
}

/// The tree-level well-formedness of a map from identity to record:
/// records carry their key as identity; every listed child exists and
/// points back at the one parent that lists it; no child is listed twice;
/// and every parent edge is matched by a listing.
pub open spec fn wf_model(m: Map<u64, WidgetModel>) -> bool {
    &&& forall|p: u64| #[trigger] m.dom().contains(p) ==> m[p].id == p
    &&& forall|p: u64, i: int|
        m.dom().contains(p) && 0 <= i < m[p].children.len() ==> {
            let c = #[trigger] m[p].children[i];
            &&& m.dom().contains(c)
            &&& m[c].parent == Some(p)
        }
    &&& forall|p: u64| #[trigger] m.dom().contains(p) ==> m[p].children.no_duplicates()
    &&& forall|c: u64|
        #[trigger] m.dom().contains(c) && m[c].parent is Some ==> {
            let p = m[c].parent->0;
            &&& m.dom().contains(p)
            &&& m[p].children.contains(c)
        }
}

/// What removing a value means for a duplicate-free sequence: that value
/// leaves, everything else stays.
proof fn lemma_remove_value_distinct(s: Seq<u64>, v: u64)
    requires
        s.no_duplicates(),
        s.contains(v),
    ensures
        s.remove_value(v).no_duplicates(),
        s.remove_value(v).len() == s.len() - 1,
        forall|x: u64| #[trigger] s.remove_value(v).contains(x) <==> (s.contains(x) && x != v),
{
    s.index_of_first_ensures(v);
    let i = s.index_of_first(v).unwrap();
    let t = s.remove_value(v);
    s.remove_ensures(i);
    assert forall|x: int, y: int|
        0 <= x < t.len() && 0 <= y < t.len() && x != y implies t[x] != t[y] by {
        let x2 = if x < i {
            x
        } else {
            x + 1
        };
        let y2 = if y < i {
            y
        } else {
            y + 1
        };
        assert(t[x] == s[x2]);
        assert(t[y] == s[y2]);
    }
    assert forall|x: u64| #[trigger] t.contains(x) implies s.contains(x) && x != v by {
        let k = choose|k: int| 0 <= k < t.len() && t[k] == x;
        let k2 = if k < i {
            k
        } else {
            k + 1
        };
        assert(t[k] == s[k2]);
        if x == v {
            assert(s[k2] == s[i]);
        }
    }
    assert forall|x: u64| s.contains(x) && x != v implies #[trigger] t.contains(x) by {
        let k = choose|k: int| 0 <= k < s.len() && s[k] == x;
        if k < i {
            assert(t[k] == x);
        } else {
            assert(k != i);
            assert(t[k - 1] == s[k]);
        }
    }
}

/// Appending a value not yet present keeps a sequence duplicate-free.
proof fn lemma_push_distinct(s: Seq<u64>, v: u64)
    requires
        s.no_duplicates(),
        !s.contains(v),
    ensures
        s.push(v).no_duplicates(),
        forall|x: u64| #[trigger] s.push(v).contains(x) <==> (s.contains(x) || x == v),
{
    let t = s.push(v);
    assert forall|x: int, y: int|
        0 <= x < t.len() && 0 <= y < t.len() && x != y implies t[x] != t[y] by {
        if x < s.len() && y < s.len() {
        } else if x < s.len() {
            assert(s.contains(s[x]));
        } else if y < s.len() {
            assert(s.contains(s[y]));
        }
    }
    assert forall|x: u64| #[trigger] t.contains(x) implies s.contains(x) || x == v by {
        let k = choose|k: int| 0 <= k < t.len() && t[k] == x;
        if k < s.len() {
            assert(s[k] == x);
        }
    }
    assert forall|x: u64| s.contains(x) || x == v implies #[trigger] t.contains(x) by {
        if s.contains(x) {
            let k = choose|k: int| 0 <= k < s.len() && s[k] == x;
            assert(t[k] == x);
        } else {
            assert(t[s.len() as int] == v);
        }
    }
}

/// Well-formedness depends only on identities and tree edges: a map that
/// agrees with a well-formed one on domain, `id`, `parent` and `children`
/// is well-formed too.
proof fn lemma_wf_model_same_edges(m1: Map<u64, WidgetModel>, m2: Map<u64, WidgetModel>)
    requires
        wf_model(m1),
        m2.dom() =~= m1.dom(),
        forall|k: u64| #[trigger] m2.dom().contains(k) ==> {
            &&& m2[k].id == m1[k].id
            &&& m2[k].parent == m1[k].parent
            &&& m2[k].children == m1[k].children
        },
    ensures
        wf_model(m2),
{
    assert forall|p: u64, i: int|
        m2.dom().contains(p) && 0 <= i < m2[p].children.len() implies {
        let c = #[trigger] m2[p].children[i];
        &&& m2.dom().contains(c)
        &&& m2[c].parent == Some(p)
    } by {
        assert(m1[p].children[i] == m2[p].children[i]);
    }
}

/// What removing a child from a parent's children sequence does to the
/// tree model: the listing goes, and with it the child's back edge. An
/// identity that is not listed changes nothing.
pub open spec fn remove_child_model(m: Map<u64, WidgetModel>, parent: u64, child: u64) -> Map<
    u64,
    WidgetModel,
> {
    if m[parent].children.contains(child) {
        let m1 = m.insert(parent, with_children(m[parent], m[parent].children.remove_value(child)));
        m1.insert(child, with_parent(m1[child], None))
    } else {
        m
    }
}

/// Removing an identity that is not listed in the parent's children
/// sequence changes nothing: idempotent removal is a no-op, not an
/// error.
pub proof fn lemma_remove_child_absent_noop(m: Map<u64, WidgetModel>, parent: u64, child: u64)
    requires
        !m[parent].children.contains(child),
    ensures
        remove_child_model(m, parent, child) == m,
{
}

/// Removing a child keeps the tree model well-formed.
proof fn lemma_remove_child_model_wf(m: Map<u64, WidgetModel>, p: u64, c: u64)
    requires
        wf_model(m),
        m.dom().contains(p),
    ensures
        wf_model(remove_child_model(m, p, c)),
        remove_child_model(m, p, c).dom() =~= m.dom(),
{
    if m[p].children.contains(c) {
        let k = choose|k: int| 0 <= k < m[p].children.len() && m[p].children[k] == c;
        assert(m.dom().contains(c) && m[c].parent == Some(p));
        lemma_remove_value_distinct(m[p].children, c);
        let m2 = remove_child_model(m, p, c);
        assert(m2.dom() =~= m.dom());
        assert forall|q: u64, i: int|
            m2.dom().contains(q) && 0 <= i < m2[q].children.len() implies {
            let x = #[trigger] m2[q].children[i];
            &&& m2.dom().contains(x)
            &&& m2[x].parent == Some(q)
        } by {
            let x = m2[q].children[i];
            if q == p {
                assert(m2[p].children == m[p].children.remove_value(c));
                assert(m2[p].children.contains(x));
                assert(m[p].children.contains(x) && x != c);
                assert(m[x].parent == Some(p));
            } else {
                assert(m2[q].children == m[q].children);
                assert(m[q].children.contains(x));
                assert(m[x].parent == Some(q));
                assert(x != c);
            }
        }
        assert forall|x: u64|
            #[trigger] m2.dom().contains(x) && m2[x].parent is Some implies {
            let q = m2[x].parent->0;
            &&& m2.dom().contains(q)
            &&& m2[q].children.contains(x)
        } by {
            let q = m2[x].parent->0;
            assert(x != c);
            assert(m[x].parent == Some(q));
            assert(m[q].children.contains(x));
            if q == p {
                assert(m2[p].children.contains(x));
            }
        }
    }
}

/// What re-parenting does to the tree model, as one logical operation:
/// the child leaves its current parent's children sequence if it has a
/// parent, its parent edge is set to the new parent, and it is appended
/// to the new parent's children sequence.
pub open spec fn set_parent_model(m: Map<u64, WidgetModel>, parent: u64, child: u64) -> Map<
    u64,
    WidgetModel,
> {
    let m1 = match m[child].parent {
        Some(op) => m.insert(op, with_children(m[op], m[op].children.remove_value(child))),
        None => m,
    };
    let m2 = m1.insert(child, with_parent(m1[child], Some(parent)));
    m2.insert(parent, with_children(m2[parent], m2[parent].children.push(child)))
}

/// Whether re-parenting may proceed: the child's record, the new parent's
/// record and the current parent's record (if any) must all be free of
/// outstanding borrows.
pub open spec fn set_parent_guards_free(m: Map<u64, WidgetModel>, parent: u64, child: u64) -> bool {
    &&& m[child].guard == GuardState::Free
    &&& m[parent].guard == GuardState::Free
    &&& match m[child].parent {
        Some(op) => m[op].guard == GuardState::Free,
        None => true,
    }
}

/// Re-parenting keeps the tree model well-formed.
proof fn lemma_set_parent_model_wf(m: Map<u64, WidgetModel>, p: u64, c: u64)
    requires
        wf_model(m),
        m.dom().contains(p),
        m.dom().contains(c),
    ensures
        wf_model(set_parent_model(m, p, c)),
        set_parent_model(m, p, c).dom() =~= m.dom(),
{
    let m1 = match m[c].parent {
        Some(op) => m.insert(op, with_children(m[op], m[op].children.remove_value(c))),
        None => m,
    };
    let m2 = m1.insert(c, with_parent(m1[c], Some(p)));
    let m3 = set_parent_model(m, p, c);
    if m[c].parent is Some {
        let op = m[c].parent->0;
        assert(m.dom().contains(op));
        assert(m[op].children.contains(c));
        lemma_remove_value_distinct(m[op].children, c);
    }
    assert(m3.dom() =~= m.dom());
    // the new parent's children sequence does not hold the child yet
    assert(!m2[p].children.contains(c)) by {
        match m[c].parent {
            Some(op) => {
                if op != p {
                    if m[p].children.contains(c) {
                        let i = choose|i: int|
                            0 <= i < m[p].children.len() && m[p].children[i] == c;
                        assert(m[c].parent == Some(p));
                    }
                }
            },
            None => {
                if m[p].children.contains(c) {
                    let i = choose|i: int| 0 <= i < m[p].children.len() && m[p].children[i] == c;
                    assert(m[c].parent == Some(p));
                }
            },
        }
    }
    assert(m2[p].children.no_duplicates());
    lemma_push_distinct(m2[p].children, c);
    assert forall|q: u64, i: int|
        m3.dom().contains(q) && 0 <= i < m3[q].children.len() implies {
        let x = #[trigger] m3[q].children[i];
        &&& m3.dom().contains(x)
        &&& m3[x].parent == Some(q)
    } by {
        let x = m3[q].children[i];
        if q == p {
            assert(m3[p].children == m2[p].children.push(c));
            assert(m3[p].children.contains(x));
            if x == c {
                assert(m3[c].parent == Some(p));
            } else {
                assert(m2[p].children.contains(x));
                if m[c].parent == Some(p) {
                    assert(m[p].children.contains(x));
                } else {
                    assert(m[p].children.contains(x));
                }
                assert(m[x].parent == Some(p));
                assert(m3[x].parent == Some(p));
            }
        } else {
            assert(m3[q].children == m1[q].children);
            assert(m1[q].children.contains(x));
            if m[c].parent == Some(q) {
                assert(m1[q].children == m[q].children.remove_value(c));
                assert(m[q].children.contains(x) && x != c);
                assert(m[x].parent == Some(q));
            } else {
                assert(m1[q].children == m[q].children);
                assert(m[q].children.contains(x));
                assert(m[x].parent == Some(q));
                assert(x != c);
            }
            assert(m3[x].parent == Some(q));
        }
    }
    assert forall|x: u64|
        #[trigger] m3.dom().contains(x) && m3[x].parent is Some implies {
        let q = m3[x].parent->0;
        &&& m3.dom().contains(q)
        &&& m3[q].children.contains(x)
    } by {
        let q = m3[x].parent->0;
        if x == c {
            assert(q == p);
            assert(m3[p].children == m2[p].children.push(c));
            assert(m3[p].children.contains(c));
        } else {
            assert(m3[x].parent == m[x].parent);
            assert(m[q].children.contains(x));
            if q == p {
                assert(m2[p].children.contains(x));
                assert(m3[p].children.contains(x));
            } else if m[c].parent == Some(q) {
                assert(m3[q].children == m[q].children.remove_value(c));
                assert(m3[q].children.contains(x));
            } else {
                assert(m3[q].children == m[q].children);
            }
        }
    }
}

/// The index of the first occurrence of a value in a vector, if any.
fn find_first(v: &Vec<u64>, x: u64) -> (r: Option<usize>)
    ensures
        match r {
            Some(j) => {
                &&& j < v@.len()
                &&& v@[j as int] == x
                &&& v@.index_of_first(x) == Some(j as int)
            },
            None => !v@.contains(x),
        },
{
    let n = v.len();
    let mut j: usize = 0;
    while j < n
        invariant
            n == v@.len(),
            j <= n,
            forall|k: int| 0 <= k < j ==> v@[k] != x,
        decreases n - j,
    {
        if v[j] == x {
            proof {
                v@.index_of_first_ensures(x);
                assert(v@.contains(x));
                let i = v@.index_of_first(x).unwrap();
                if i < j {
                    assert(v@[i] != x);
                }
            }
            return Some(j);
        }
        j += 1;
    }
    None
}

/// The arena that owns every widget record, addressed by stable identity.
/// Cheap widget handles are the identities themselves; any number of them
/// may alias one record, and each access goes through the record's guard.
#[derive(Debug)]
pub struct WidgetTree {
    widgets: Vec<Widget>,
    next_id: u64,
}

impl View for WidgetTree {
    type V = Map<u64, WidgetModel>;

    closed spec fn view(&self) -> Map<u64, WidgetModel> {
        map_of(models(self.widgets@))
    }
}

impl WidgetTree {
    /// The tree's invariant: identities are distinct and below the
    /// allocation cursor, and the denoted map is well-formed.
    pub closed spec fn wf(self) -> bool {
        &&& distinct_ids(models(self.widgets@))
        &&& forall|i: int|
            0 <= i < self.widgets@.len() ==> (#[trigger] models(self.widgets@)[i]).id
                < self.next_id
        &&& wf_model(self@)
    }

    /// A well-formed tree denotes a well-formed map.
    pub proof fn lemma_wf_model(&self)
        requires
            self.wf(),
        ensures
            wf_model(self@),
    {
    }

    /// The record at a given index is what the denoted map holds for its
    /// identity.
    proof fn lemma_at(&self, i: int)
        requires
            self.wf(),
            0 <= i < self.widgets@.len(),
        ensures
            self@.dom().contains(models(self.widgets@)[i].id),
            self@[models(self.widgets@)[i].id] == models(self.widgets@)[i],
    {
        lemma_map_of_index(models(self.widgets@), i);
    }

    /// Whether the tree's identity space is exhausted: every identity
    /// the allocation cursor will ever hand out has been handed out, so
    /// no further widget can be allocated.
    pub closed spec fn exhausted(self) -> bool {
        self.next_id == u64::MAX
    }

    /// An empty tree.
    pub fn new() -> (t: WidgetTree)
        ensures
            t.wf(),
            t@ =~= Map::<u64, WidgetModel>::empty(),
            !t.exhausted(),
    {
        let t = WidgetTree { widgets: Vec::new(), next_id: 0 };
        proof {
            assert(models(t.widgets@) =~= Seq::<WidgetModel>::empty());
        }
        t
    }

    /// The index of the record with the given identity, if the tree holds
    /// one.
    fn find(&self, id: u64) -> (r: Option<usize>)
        requires
            self.wf(),
        ensures
            match r {
                Some(i) => {
                    &&& i < self.widgets@.len()
                    &&& models(self.widgets@)[i as int].id == id
                    &&& self@.dom().contains(id)
                    &&& self@[id] == models(self.widgets@)[i as int]
                },
                None => !self@.dom().contains(id),
            },
    {
        let n = self.widgets.len();
        let mut j: usize = 0;
        while j < n
            invariant
                n == self.widgets@.len(),
                j <= n,
                forall|k: int| 0 <= k < j ==> (#[trigger] models(self.widgets@)[k]).id != id,
                self.wf(),
            decreases n - j,
        {
            if self.widgets[j].internal.id == id {
                proof {
                    self.lemma_at(j as int);
                }
                return Some(j);
            }
            j += 1;
        }
        proof {
            lemma_map_of_dom(models(self.widgets@), id);
        }
        None
    }

    /// Whether the tree holds a widget with the given identity.
    pub fn has_widget(&self, id: u64) -> (r: bool)
        requires
            self.wf(),
        ensures
            r == self@.dom().contains(id),
    {
        self.find(id).is_some()
    }

    /// Allocate a fresh widget with the given bounds and hand back its
    /// identity. Returns `None` exactly when the identity space is
    /// exhausted; on any tree that is not, allocation succeeds.
    pub fn new_widget(&mut self, bounds: Rect) -> (r: Option<u64>)
        requires
            old(self).wf(),
        ensures
            final(self).wf(),
            r is None <==> old(self).exhausted(),
            match r {
                Some(id) => {
                    &&& !old(self)@.dom().contains(id)
                    &&& final(self)@ =~= old(self)@.insert(
                        id,
                        WidgetModel {
                            id,
                            bounds,
                            old_bounds: None,
                            parent: None,
                            children: Seq::empty(),
                            guard: GuardState::Free,
                        },
                    )
                },
                None => final(self)@ == old(self)@ && final(self).exhausted(),
            },
    {
        if self.next_id == u64::MAX {
            return None;
        }
        let id = self.next_id;
        let ghost pre = models(self.widgets@);
        proof {
            lemma_map_of_dom(pre, id);
        }
        let w = Widget::from_internal(WidgetInternal::new(id, bounds));
        self.widgets.push(w);
        self.next_id = self.next_id + 1;
        proof {
            let post = models(self.widgets@);
            assert(post =~= pre.push(w@));
            lemma_map_of_push(pre, w@);
            let m = map_of(pre);
            let m2 = self@;
            assert(m2 =~= m.insert(id, w@));
            assert forall|x: int, y: int|
                0 <= x < post.len() && 0 <= y < post.len() && #[trigger] post[x].id
                    == #[trigger] post[y].id implies x == y by {
                if x < post.len() - 1 && y < post.len() - 1 {
                    assert(pre[x].id == pre[y].id);
                }
            }
            assert(wf_model(m2)) by {
                assert forall|p: u64, i: int|
                    m2.dom().contains(p) && 0 <= i < m2[p].children.len() implies {
                    let c = #[trigger] m2[p].children[i];
                    &&& m2.dom().contains(c)
                    &&& m2[c].parent == Some(p)
                } by {
                    if p != id {
                        assert(m[p].children[i] == m2[p].children[i]);
                    }
                }
            }
        }
        Some(id)
    }

    /// The index of the record with the given identity, which the caller
    /// knows to be present.
    fn index_of(&self, widget: u64) -> (i: usize)
        requires
            self.wf(),
            self@.dom().contains(widget),
        ensures
            i < self.widgets@.len(),
            models(self.widgets@)[i as int] == self@[widget],
            models(self.widgets@)[i as int].id == widget,
    {
        match self.find(widget) {
            Some(i) => i,
            None => {
                proof {
                    assert(false);
                }
                0
            },
        }
    }

    /// Replacing one record by one with the same identity and tree edges
    /// preserves the invariant and updates the denoted map at that
    /// identity.
    proof fn lemma_record_update(pre: WidgetTree, post: WidgetTree, i: int, w2: WidgetModel)
        requires
            pre.wf(),
            0 <= i < pre.widgets@.len(),
            post.next_id == pre.next_id,
            models(post.widgets@) =~= models(pre.widgets@).update(i, w2),
            w2.id == models(pre.widgets@)[i].id,
            w2.parent == models(pre.widgets@)[i].parent,
            w2.children == models(pre.widgets@)[i].children,
        ensures
            post.wf(),
            post@ =~= pre@.insert(w2.id, w2),
    {
        let s = models(pre.widgets@);
        lemma_map_of_update(s, i, w2);
        lemma_update_keeps_distinct(s, i, w2);
        lemma_map_of_index(s, i);
        assert(post@ =~= pre@.insert(w2.id, w2));
        assert(post@.dom() =~= pre@.dom());
        lemma_wf_model_same_edges(pre@, post@);
        assert forall|k: int| 0 <= k < post.widgets@.len() implies (#[trigger] models(
            post.widgets@,
        )[k]).id < post.next_id by {
            assert(models(post.widgets@)[k].id == s.update(i, w2)[k].id);
            assert(s.update(i, w2)[k].id == s[k].id);
        }
    }

    /// The identity of the widget, read through its guard: fails exactly
    /// when the record is exclusively borrowed.
    pub fn id(&self, widget: u64) -> (r: Result<u64, Error>)
        requires
            self.wf(),
            self@.dom().contains(widget),
        ensures
            match r {
                Ok(id) => self@[widget].guard != GuardState::Exclusive && id == widget,
                Err(e) => {
                    &&& e == Error::BorrowConflict
                    &&& self@[widget].guard == GuardState::Exclusive
                },
            },
    {
        let i = self.index_of(widget);
        match self.widgets[i].internal.guard {
            GuardState::Exclusive => Err(Error::BorrowConflict),
            _ => Ok(self.widgets[i].internal.id),
        }
    }

    /// The widget's current bounds, read through its guard.
    pub fn bounds(&self, widget: u64) -> (r: Result<Rect, Error>)
        requires
            self.wf(),
            self@.dom().contains(widget),
        ensures
            match r {
                Ok(b) => self@[widget].guard != GuardState::Exclusive && b == self@[widget].bounds,
                Err(e) => {
                    &&& e == Error::BorrowConflict
                    &&& self@[widget].guard == GuardState::Exclusive
                },
            },
    {
        let i = self.index_of(widget);
        match self.widgets[i].internal.guard {
            GuardState::Exclusive => Err(Error::BorrowConflict),
            _ => Ok(self.widgets[i].internal.bounds),
        }
    }

    /// The widget's scratch slot, read through its guard without
    /// consuming it: the old bounds stored by a pending bounds-changing
    /// notification, if one is in flight.
    pub fn old_bounds(&self, widget: u64) -> (r: Result<Option<Rect>, Error>)
        requires
            self.wf(),
            self@.dom().contains(widget),
        ensures
            match r {
                Ok(b) => {
                    &&& self@[widget].guard != GuardState::Exclusive
                    &&& b == self@[widget].old_bounds
                },
                Err(e) => {
                    &&& e == Error::BorrowConflict
                    &&& self@[widget].guard == GuardState::Exclusive
                },
            },
    {
        let i = self.index_of(widget);
        match self.widgets[i].internal.guard {
            GuardState::Exclusive => Err(Error::BorrowConflict),
            _ => Ok(self.widgets[i].internal.old_bounds),
        }
    }

    /// The widget's parent, read through its guard.
    pub fn parent(&self, widget: u64) -> (r: Result<Option<u64>, Error>)
        requires
            self.wf(),
            self@.dom().contains(widget),
        ensures
            match r {
                Ok(p) => self@[widget].guard != GuardState::Exclusive && p == self@[widget].parent,
                Err(e) => {
                    &&& e == Error::BorrowConflict
                    &&& self@[widget].guard == GuardState::Exclusive
                },
            },
    {
        let i = self.index_of(widget);
        match self.widgets[i].internal.guard {
            GuardState::Exclusive => Err(Error::BorrowConflict),
            _ => Ok(self.widgets[i].internal.parent),
        }
    }

    /// A snapshot of the widget's children, in insertion order, read
    /// through its guard.
    pub fn children(&self, widget: u64) -> (r: Result<Vec<u64>, Error>)
        requires
            self.wf(),
            self@.dom().contains(widget),
        ensures
            match r {
                Ok(v) => {
                    &&& self@[widget].guard != GuardState::Exclusive
                    &&& v@ =~= self@[widget].children
                },
                Err(e) => {
                    &&& e == Error::BorrowConflict
                    &&& self@[widget].guard == GuardState::Exclusive
                },
            },
    {
        let i = self.index_of(widget);
        match self.widgets[i].internal.guard {
            GuardState::Exclusive => Err(Error::BorrowConflict),
            _ => {
                let src = &self.widgets[i].internal.children;
                let n = src.len();
                let mut out: Vec<u64> = Vec::new();
                let mut j: usize = 0;
                while j < n
                    invariant
                        n == src@.len(),
                        j <= n,
                        out@ =~= src@.subrange(0, j as int),
                    decreases n - j,
                {
                    out.push(src[j]);
                    j += 1;
                }
                proof {
                    assert(out@ =~= src@);
                }
                Ok(out)
            },
        }
    }

    /// Set the widget's bounds, through its guard: fails exactly when any
    /// borrow of the record is outstanding.
    pub fn set_bounds(&mut self, widget: u64, bounds: Rect) -> (r: Result<(), Error>)
        requires
            old(self).wf(),
            old(self)@.dom().contains(widget),
        ensures
            final(self).wf(),
            match r {
                Ok(()) => {
                    &&& old(self)@[widget].guard == GuardState::Free
                    &&& final(self)@ =~= old(self)@.insert(
                        widget,
                        with_bounds(old(self)@[widget], bounds),
                    )
                },
                Err(e) => {
                    &&& e == Error::BorrowConflict
                    &&& old(self)@[widget].guard != GuardState::Free
                    &&& final(self)@ == old(self)@
                },
            },
    {
        let i = self.index_of(widget);
        match self.widgets[i].internal.guard {
            GuardState::Free => {
                self.widgets[i].internal.bounds = bounds;
                proof {
                    let w2 = with_bounds(old(self)@[widget], bounds);
                    assert(models(self.widgets@) =~= models(old(self).widgets@).update(
                        i as int,
                        w2,
                    ));
                    Self::lemma_record_update(*old(self), *self, i as int, w2);
                }
                Ok(())
            },
            _ => Err(Error::BorrowConflict),
        }
    }

    /// Copy the widget's current bounds into its scratch slot, overwriting
    /// any unresolved value there; the slot pairs a bounds-changing
    /// notification with the matching bounds-changed one.
    pub fn store_old_bounds(&mut self, widget: u64) -> (r: Result<(), Error>)
        requires
            old(self).wf(),
            old(self)@.dom().contains(widget),
        ensures
            final(self).wf(),
            match r {
                Ok(()) => {
                    &&& old(self)@[widget].guard == GuardState::Free
                    &&& final(self)@ =~= old(self)@.insert(
                        widget,
                        with_old_bounds(old(self)@[widget], Some(old(self)@[widget].bounds)),
                    )
                },
                Err(e) => {
                    &&& e == Error::BorrowConflict
                    &&& old(self)@[widget].guard != GuardState::Free
                    &&& final(self)@ == old(self)@
                },
            },
    {
        let i = self.index_of(widget);
        match self.widgets[i].internal.guard {
            GuardState::Free => {
                let b = self.widgets[i].internal.bounds;
                self.widgets[i].internal.old_bounds = Some(b);
                proof {
                    let w2 = with_old_bounds(old(self)@[widget], Some(old(self)@[widget].bounds));
                    assert(models(self.widgets@) =~= models(old(self).widgets@).update(
                        i as int,
                        w2,
                    ));
                    Self::lemma_record_update(*old(self), *self, i as int, w2);
                }
                Ok(())
            },
            _ => Err(Error::BorrowConflict),
        }
    }

    /// Take the scratch slot's value, leaving it empty: the consuming half
    /// of the bounds-changing/bounds-changed pairing.
    pub fn take_old_bounds(&mut self, widget: u64) -> (r: Result<Option<Rect>, Error>)
        requires
            old(self).wf(),
            old(self)@.dom().contains(widget),
        ensures
            final(self).wf(),
            match r {
                Ok(b) => {
                    &&& old(self)@[widget].guard == GuardState::Free
                    &&& b == old(self)@[widget].old_bounds
                    &&& final(self)@ =~= old(self)@.insert(
                        widget,
                        with_old_bounds(old(self)@[widget], None),
                    )
                },
                Err(e) => {
                    &&& e == Error::BorrowConflict
                    &&& old(self)@[widget].guard != GuardState::Free
                    &&& final(self)@ == old(self)@
                },
            },
    {
        let i = self.index_of(widget);
        match self.widgets[i].internal.guard {
            GuardState::Free => {
                let b = self.widgets[i].internal.old_bounds;
                self.widgets[i].internal.old_bounds = None;
                proof {
                    let w2 = with_old_bounds(old(self)@[widget], None);
                    assert(models(self.widgets@) =~= models(old(self).widgets@).update(
                        i as int,
                        w2,
                    ));
                    Self::lemma_record_update(*old(self), *self, i as int, w2);
                }
                Ok(b)
            },
            _ => Err(Error::BorrowConflict),
        }
    }

    /// Take out a scoped shared borrow of the widget's record, as an
    /// operation reading the inner peer object does for its duration.
    /// Fails exactly when the record is exclusively borrowed or the
    /// shared-borrow count would overflow.
    pub fn borrow_inner(&mut self, widget: u64) -> (r: Result<(), Error>)
        requires
            old(self).wf(),
            old(self)@.dom().contains(widget),
        ensures
            final(self).wf(),
            match r {
                Ok(()) => {
                    &&& can_share(old(self)@[widget].guard)
                    &&& final(self)@ =~= old(self)@.insert(
                        widget,
                        with_guard(old(self)@[widget], after_share(old(self)@[widget].guard)),
                    )
                },
                Err(e) => {
                    &&& e == Error::BorrowConflict
                    &&& !can_share(old(self)@[widget].guard)
                    &&& final(self)@ == old(self)@
                },
            },
    {
        let i = self.index_of(widget);
        let next = match self.widgets[i].internal.guard {
            GuardState::Free => GuardState::Shared(1),
            GuardState::Shared(n) => {
                if n == u32::MAX {
                    return Err(Error::BorrowConflict);
                }
                GuardState::Shared(n + 1)
            },
            GuardState::Exclusive => {
                return Err(Error::BorrowConflict);
            },
        };
        self.widgets[i].internal.guard = next;
        proof {
            let w2 = with_guard(old(self)@[widget], after_share(old(self)@[widget].guard));
            assert(models(self.widgets@) =~= models(old(self).widgets@).update(i as int, w2));
            Self::lemma_record_update(*old(self), *self, i as int, w2);
        }
        Ok(())
    }

    /// Take out a scoped exclusive borrow of the widget's record, as an
    /// operation mutating the inner peer object does for its duration.
    /// Fails exactly when any borrow is outstanding.
    pub fn borrow_inner_mut(&mut self, widget: u64) -> (r: Result<(), Error>)
        requires
            old(self).wf(),
            old(self)@.dom().contains(widget),
        ensures
            final(self).wf(),
            match r {
                Ok(()) => {
                    &&& old(self)@[widget].guard == GuardState::Free
                    &&& final(self)@ =~= old(self)@.insert(
                        widget,
                        with_guard(old(self)@[widget], GuardState::Exclusive),
                    )
                },
                Err(e) => {
                    &&& e == Error::BorrowConflict
                    &&& old(self)@[widget].guard != GuardState::Free
                    &&& final(self)@ == old(self)@
                },
            },
    {
        let i = self.index_of(widget);
        match self.widgets[i].internal.guard {
            GuardState::Free => {
                self.widgets[i].internal.guard = GuardState::Exclusive;
                proof {
                    let w2 = with_guard(old(self)@[widget], GuardState::Exclusive);
                    assert(models(self.widgets@) =~= models(old(self).widgets@).update(
                        i as int,
                        w2,
                    ));
                    Self::lemma_record_update(*old(self), *self, i as int, w2);
                }
                Ok(())
            },
            _ => Err(Error::BorrowConflict),
        }
    }

    /// Remove the given identity from the widget's children sequence,
    /// clearing the removed child's parent edge with it. Removing an
    /// identity that is not listed is a no-op that still succeeds.
    pub fn remove_child(&mut self, parent: u64, child: u64) -> (r: Result<(), Error>)
        requires
            old(self).wf(),
            old(self)@.dom().contains(parent),
        ensures
            final(self).wf(),
            match r {
                Ok(()) => {
                    &&& old(self)@[parent].guard == GuardState::Free
                    &&& (old(self)@[parent].children.contains(child) ==> old(self)@[child].guard
                        == GuardState::Free)
                    &&& final(self)@ =~= remove_child_model(old(self)@, parent, child)
                },
                Err(e) => {
                    &&& e == Error::BorrowConflict
                    &&& {
                        ||| old(self)@[parent].guard != GuardState::Free
                        ||| (old(self)@[parent].children.contains(child) && old(self)@[child].guard
                            != GuardState::Free)
                    }
                    &&& final(self)@ == old(self)@
                },
            },
    {
        let pi = self.index_of(parent);
        match self.widgets[pi].internal.guard {
            GuardState::Free => {},
            _ => {
                return Err(Error::BorrowConflict);
            },
        }
        let fo = find_first(&self.widgets[pi].internal.children, child);
        match fo {
            None => {
                proof {
                    assert(!old(self)@[parent].children.contains(child));
                }
                Ok(())
            },
            Some(j) => {
                proof {
                    assert(old(self)@[parent].children[j as int] == child);
                    assert(old(self)@.dom().contains(child) && old(self)@[child].parent == Some(
                        parent,
                    ));
                }
                let ci = self.index_of(child);
                match self.widgets[ci].internal.guard {
                    GuardState::Free => {},
                    _ => {
                        return Err(Error::BorrowConflict);
                    },
                }
                let _removed: u64 = self.widgets[pi].internal.children.remove(j);
                let ghost mid = *self;
                self.widgets[ci].internal.parent = None;
                proof {
                    let m = old(self)@;
                    let pre = models(old(self).widgets@);
                    let s = m[parent].children;
                    s.index_of_first_ensures(child);
                    assert(s.remove_value(child) == s.remove(j as int));
                    let w_p = with_children(m[parent], s.remove_value(child));
                    assert(models(mid.widgets@) =~= pre.update(pi as int, w_p));
                    lemma_map_of_update(pre, pi as int, w_p);
                    lemma_update_keeps_distinct(pre, pi as int, w_p);
                    let m1 = m.insert(parent, w_p);
                    assert(mid@ =~= m1);
                    assert(models(mid.widgets@)[ci as int].id == child);
                    lemma_map_of_index(models(mid.widgets@), ci as int);
                    assert(models(mid.widgets@)[ci as int] == m1[child]);
                    let w_c = with_parent(m1[child], None);
                    assert(models(self.widgets@) =~= models(mid.widgets@).update(ci as int, w_c));
                    lemma_map_of_update(models(mid.widgets@), ci as int, w_c);
                    lemma_update_keeps_distinct(models(mid.widgets@), ci as int, w_c);
                    assert(self@ =~= m1.insert(child, w_c));
                    assert(final(self)@ =~= remove_child_model(m, parent, child));
                    lemma_remove_child_model_wf(m, parent, child);
                    assert forall|k: int| 0 <= k < self.widgets@.len() implies (#[trigger] models(
                        self.widgets@,
                    )[k]).id < self.next_id by {
                        assert(models(self.widgets@)[k].id == pre[k].id);
                    }
                }
                Ok(())
            },
        }
    }

    /// Give back one shared borrow taken out with `borrow_inner`.
    pub fn release_inner(&mut self, widget: u64)
        requires
            old(self).wf(),
            old(self)@.dom().contains(widget),
            old(self)@[widget].guard is Shared,
        ensures
            final(self).wf(),
            final(self)@ =~= old(self)@.insert(
                widget,
                with_guard(old(self)@[widget], after_unshare(old(self)@[widget].guard)),
            ),
    {
        let i = self.index_of(widget);
        let next = match self.widgets[i].internal.guard {
            GuardState::Shared(n) => {
                if n <= 1 {
                    GuardState::Free
                } else {
                    GuardState::Shared(n - 1)
                }
            },
            _ => {
                proof {
                    assert(false);
                }
                GuardState::Free
            },
        };
        self.widgets[i].internal.guard = next;
        proof {
            let w2 = with_guard(old(self)@[widget], after_unshare(old(self)@[widget].guard));
            assert(models(self.widgets@) =~= models(old(self).widgets@).update(i as int, w2));
            Self::lemma_record_update(*old(self), *self, i as int, w2);
        }
    }

    /// Re-parent a widget: shorthand for `set_parent_internal` with this
    /// widget as the child.
    pub fn set_parent(&mut self, widget: u64, parent: u64) -> (r: Result<(), Error>)
        requires
            old(self).wf(),
            old(self)@.dom().contains(widget),
            old(self)@.dom().contains(parent),
        ensures
            final(self).wf(),
            match r {
                Ok(()) => {
                    &&& set_parent_guards_free(old(self)@, parent, widget)
                    &&& final(self)@ =~= set_parent_model(old(self)@, parent, widget)
                },
                Err(e) => {
                    &&& e == Error::BorrowConflict
                    &&& !set_parent_guards_free(old(self)@, parent, widget)
                    &&& final(self)@ == old(self)@
                },
            },
    {
        set_parent_internal(self, parent, widget)
    }

    /// Adopt a widget as the last child: re-parenting with the roles
    /// reversed.
    pub fn add_child(&mut self, widget: u64, child: u64) -> (r: Result<(), Error>)
        requires
            old(self).wf(),
            old(self)@.dom().contains(widget),
            old(self)@.dom().contains(child),
        ensures
            final(self).wf(),
            match r {
                Ok(()) => {
                    &&& set_parent_guards_free(old(self)@, widget, child)
                    &&& final(self)@ =~= set_parent_model(old(self)@, widget, child)
                },
                Err(e) => {
                    &&& e == Error::BorrowConflict
                    &&& !set_parent_guards_free(old(self)@, widget, child)
                    &&& final(self)@ == old(self)@
                },
            },
    {
        set_parent_internal(self, widget, child)
    }

    /// Give back the exclusive borrow taken out with `borrow_inner_mut`.
    pub fn release_inner_mut(&mut self, widget: u64)
        requires
            old(self).wf(),
            old(self)@.dom().contains(widget),
            old(self)@[widget].guard == GuardState::Exclusive,
        ensures
            final(self).wf(),
            final(self)@ =~= old(self)@.insert(
                widget,
                with_guard(old(self)@[widget], GuardState::Free),
            ),
    {
        let i = self.index_of(widget);
        self.widgets[i].internal.guard = GuardState::Free;
        proof {
            let w2 = with_guard(old(self)@[widget], GuardState::Free);
            assert(models(self.widgets@) =~= models(old(self).widgets@).update(i as int, w2));
            Self::lemma_record_update(*old(self), *self, i as int, w2);
        }
    }
}

/// Re-parent `child` under `parent`, as one logical operation: remove the
/// child from its current parent's children sequence if it has one, set
/// the child's parent edge, and append the child to the new parent's
/// children sequence. All three records are checked for outstanding
/// borrows before anything is written, so a failing call leaves the tree
/// exactly as it was and no half-updated state is ever observable.
pub fn set_parent_internal(tree: &mut WidgetTree, parent: u64, child: u64) -> (r: Result<
    (),
    Error,
>)
    requires
        old(tree).wf(),
        old(tree)@.dom().contains(parent),
        old(tree)@.dom().contains(child),
    ensures
        final(tree).wf(),
        match r {
            Ok(()) => {
                &&& set_parent_guards_free(old(tree)@, parent, child)
                &&& final(tree)@ =~= set_parent_model(old(tree)@, parent, child)
            },
            Err(e) => {
                &&& e == Error::BorrowConflict
                &&& !set_parent_guards_free(old(tree)@, parent, child)
                &&& final(tree)@ == old(tree)@
            },
        },
{
    let ghost m = old(tree)@;
    let ghost pre = models(old(tree).widgets@);
    let ci = tree.index_of(child);
    match tree.widgets[ci].internal.guard {
        GuardState::Free => {},
        _ => {
            return Err(Error::BorrowConflict);
        },
    }
    let pi = tree.index_of(parent);
    match tree.widgets[pi].internal.guard {
        GuardState::Free => {},
        _ => {
            return Err(Error::BorrowConflict);
        },
    }
    let ghost m1 = match m[child].parent {
        Some(op) => m.insert(op, with_children(m[op], m[op].children.remove_value(child))),
        None => m,
    };
    let opo = tree.widgets[ci].internal.parent;
    match opo {
        Some(op) => {
            proof {
                assert(m[child].parent == Some(op));
                assert(m.dom().contains(op) && m[op].children.contains(child));
            }
            let oi = tree.index_of(op);
            match tree.widgets[oi].internal.guard {
                GuardState::Free => {},
                _ => {
                    return Err(Error::BorrowConflict);
                },
            }
            let fo = find_first(&tree.widgets[oi].internal.children, child);
            match fo {
                Some(j) => {
                    let _removed: u64 = tree.widgets[oi].internal.children.remove(j);
                    proof {
                        let s = m[op].children;
                        s.index_of_first_ensures(child);
                        assert(s.remove_value(child) == s.remove(j as int));
                        let w_o = with_children(m[op], s.remove_value(child));
                        assert(models(tree.widgets@) =~= pre.update(oi as int, w_o));
                        lemma_map_of_update(pre, oi as int, w_o);
                        lemma_update_keeps_distinct(pre, oi as int, w_o);
                        assert(tree@ =~= m1);
                    }
                },
                None => {
                    proof {
                        assert(false);
                    }
                },
            }
        },
        None => {
            proof {
                assert(m1 == m);
            }
        },
    }
    let ghost mid1 = *tree;
    proof {
        assert(mid1@ =~= m1);
        assert(distinct_ids(models(mid1.widgets@)));
        assert(models(mid1.widgets@)[ci as int].id == child);
        assert(models(mid1.widgets@)[pi as int].id == parent);
        lemma_map_of_index(models(mid1.widgets@), ci as int);
    }
    tree.widgets[ci].internal.parent = Some(parent);
    let ghost m2 = m1.insert(child, with_parent(m1[child], Some(parent)));
    let ghost mid2 = *tree;
    proof {
        let w_c = with_parent(m1[child], Some(parent));
        assert(models(mid1.widgets@)[ci as int] == m1[child]);
        assert(models(mid2.widgets@) =~= models(mid1.widgets@).update(ci as int, w_c));
        lemma_map_of_update(models(mid1.widgets@), ci as int, w_c);
        lemma_update_keeps_distinct(models(mid1.widgets@), ci as int, w_c);
        assert(mid2@ =~= m2);
        lemma_map_of_index(models(mid2.widgets@), pi as int);
        assert(models(mid2.widgets@)[pi as int] == m2[parent]);
    }
    tree.widgets[pi].internal.children.push(child);
    proof {
        let w_p = with_children(m2[parent], m2[parent].children.push(child));
        assert(models(tree.widgets@) =~= models(mid2.widgets@).update(pi as int, w_p));
        lemma_map_of_update(models(mid2.widgets@), pi as int, w_p);
        lemma_update_keeps_distinct(models(mid2.widgets@), pi as int, w_p);
        assert(tree@ =~= m2.insert(parent, w_p));
        assert(final(tree)@ =~= set_parent_model(m, parent, child));
        lemma_set_parent_model_wf(m, parent, child);
        assert forall|k: int| 0 <= k < tree.widgets@.len() implies (#[trigger] models(
            tree.widgets@,
        )[k]).id < tree.next_id by {
            assert(models(tree.widgets@)[k].id == pre[k].id);
        }
    }
    Ok(())
}

/// How often a value occurs in a sequence.
pub open spec fn occurrences(s: Seq<u64>, v: u64) -> nat
    decreases s.len(),
{
    if s.len() == 0 {
        0
    } else {
        occurrences(s.drop_last(), v) + (if s.last() == v {
            1nat
        } else {
            0nat
        })
    }
}

/// A value occurs zero times exactly when the sequence does not contain
/// it.
proof fn lemma_occurrences_zero(s: Seq<u64>, v: u64)
    ensures
        occurrences(s, v) == 0 <==> !s.contains(v),
    decreases s.len(),
{
    if s.len() > 0 {
        lemma_occurrences_zero(s.drop_last(), v);
        if s.contains(v) {
            let k = choose|k: int| 0 <= k < s.len() && s[k] == v;
            if k < s.len() - 1 {
                assert(s.drop_last()[k] == v);
            }
        }
        if s.drop_last().contains(v) {
            let k = choose|k: int| 0 <= k < s.drop_last().len() && s.drop_last()[k] == v;
            assert(s[k] == v);
        }
    }
}

/// In a duplicate-free sequence, a value it contains occurs exactly once.
proof fn lemma_occurrences_distinct(s: Seq<u64>, v: u64)
    requires
        s.no_duplicates(),
        s.contains(v),
    ensures
        occurrences(s, v) == 1,
    decreases s.len(),
{
    let t = s.drop_last();
    if s.last() == v {
        assert(!t.contains(v)) by {
            if t.contains(v) {
                let k = choose|k: int| 0 <= k < t.len() && t[k] == v;
                assert(s[k] == s[s.len() - 1]);
            }
        }
        lemma_occurrences_zero(t, v);
    } else {
        assert(t.contains(v)) by {
            let k = choose|k: int| 0 <= k < s.len() && s[k] == v;
            assert(k < s.len() - 1);
            assert(t[k] == v);
        }
        assert(t.no_duplicates());
        lemma_occurrences_distinct(t, v);
    }
}

/// In a well-formed tree, a widget stands in a children sequence exactly
/// as often as its parent edge points there: once in its parent's
/// sequence, and nowhere else.
pub proof fn lemma_child_occurrences(m: Map<u64, WidgetModel>, w: u64, p: u64)
    requires
        wf_model(m),
        m.dom().contains(w),
        m.dom().contains(p),
    ensures
        occurrences(m[p].children, w) == (if m[w].parent == Some(p) {
            1nat
        } else {
            0nat
        }),
{
    if m[w].parent == Some(p) {
        assert(m[p].children.contains(w));
        lemma_occurrences_distinct(m[p].children, w);
    } else {
        assert(!m[p].children.contains(w)) by {
            if m[p].children.contains(w) {
                let i = choose|i: int| 0 <= i < m[p].children.len() && m[p].children[i] == w;
                assert(m[w].parent == Some(p));
            }
        }
        lemma_occurrences_zero(m[p].children, w);
    }
}

/// After re-parenting, the child's parent edge points at the new parent
/// and the child stands in the new parent's children sequence exactly
/// once.
pub proof fn lemma_set_parent_establishes_link(m: Map<u64, WidgetModel>, p: u64, c: u64)
    requires
        wf_model(m),
        m.dom().contains(p),
        m.dom().contains(c),
    ensures
        set_parent_model(m, p, c)[c].parent == Some(p),
        occurrences(set_parent_model(m, p, c)[p].children, c) == 1,
{
    let m3 = set_parent_model(m, p, c);
    lemma_set_parent_model_wf(m, p, c);
    assert(m3[c].parent == Some(p));
    lemma_child_occurrences(m3, c, p);
}

/// After re-parenting away from a different prior parent, the child no
/// longer stands in the prior parent's children sequence, stands in the
/// new parent's exactly once, and stands in exactly one children sequence
/// over the whole tree.
pub proof fn lemma_reparent_moves_child(m: Map<u64, WidgetModel>, p1: u64, p2: u64, c: u64)
    requires
        wf_model(m),
        m.dom().contains(p2),
        m.dom().contains(c),
        m[c].parent == Some(p1),
        p1 != p2,
    ensures
        !set_parent_model(m, p2, c)[p1].children.contains(c),
        occurrences(set_parent_model(m, p2, c)[p2].children, c) == 1,
        forall|q: u64|
            #[trigger] set_parent_model(m, p2, c).dom().contains(q) ==> occurrences(
                set_parent_model(m, p2, c)[q].children,
                c,
            ) == (if q == p2 {
                1nat
            } else {
                0nat
            }),
{
    let m3 = set_parent_model(m, p2, c);
    lemma_set_parent_model_wf(m, p2, c);
    assert(m.dom().contains(p1));
    assert(m3[c].parent == Some(p2));
    assert forall|q: u64| #[trigger] m3.dom().contains(q) implies occurrences(m3[q].children, c)
        == (if q == p2 {
        1nat
    } else {
        0nat
    }) by {
        lemma_child_occurrences(m3, c, q);
    }
    assert(occurrences(m3[p1].children, c) == 0);
    lemma_occurrences_zero(m3[p1].children, c);
}

} // verus!
