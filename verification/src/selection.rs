//! Hierarchical entity selection model.
//!
//! Tracks the ordered set of currently-selected entities, the most recent
//! selection action (polled once per frame by the gizmo arbiter), and the
//! anchor used to resolve range selection against a caller-supplied sibling
//! order. The sibling order is the flattened, filtered ordering of entities
//! at the same tree depth as the anchor; keeping it caller-supplied keeps the
//! model decoupled from tree-traversal policy.

use vstd::prelude::*;
use crate::scene::EntityRef;

verus! {

/// Selection mode derived from modifier-key state: exactly one mode is
/// active per selection-producing input event.
#[derive(Clone, Copy, PartialEq, Eq, Structural, Debug)]
pub enum SelectionMode {
    /// No modifiers: the subject becomes the whole selection.
    Replace,
    /// Ctrl held: the subject's membership is flipped.
    Toggle,
    /// Shift held: the inclusive sibling range from the anchor to the
    /// subject joins the selection.
    RangeExtend,
}

/// The kind recorded for the most recent selection mutation.
#[derive(Clone, Copy, PartialEq, Eq, Structural, Debug)]
pub enum ActionKind {
    Replace,
    Add,
    Remove,
    RangeExtend,
}

/// The most recent selection mutation: its kind and its subject. Consumed at
/// most once per frame by the downstream observer.
#[derive(Clone, Copy, PartialEq, Eq, Structural, Debug)]
pub struct LastAction {
    pub kind: ActionKind,
    pub subject: EntityRef,
}

/// Abstract state of the selection model: the selection in insertion order,
/// the not-yet-consumed last action, and the range anchor.
pub struct SelectionView {
    pub sel: Seq<EntityRef>,
    pub pending: Option<LastAction>,
    pub anchor: Option<EntityRef>,
}

/// No entity occurs twice.
pub open spec fn no_dups(s: Seq<EntityRef>) -> bool {
    forall|i: int, j: int| 0 <= i < j < s.len() ==> s[i] != s[j]
}

/// Appends an entity unless it is already present.
pub open spec fn insert_new(s: Seq<EntityRef>, e: EntityRef) -> Seq<EntityRef> {
    if s.contains(e) {
        s
    } else {
        s.push(e)
    }
}

/// Appends, in order, every entity of `add` not already present.
pub open spec fn insert_all(s: Seq<EntityRef>, add: Seq<EntityRef>) -> Seq<EntityRef>
    decreases add.len(),
{
    if add.len() == 0 {
        s
    } else {
        insert_all(insert_new(s, add[0]), add.drop_first())
    }
}

/// Replace-mode transition: the subject becomes the whole selection and the
/// new anchor.
pub open spec fn replace_transition(subject: EntityRef) -> SelectionView {
    SelectionView {
        sel: seq![subject],
        pending: Some(LastAction { kind: ActionKind::Replace, subject }),
        anchor: Some(subject),
    }
}

/// Toggle-mode transition: remove the subject if present, insert it
/// otherwise; other selections are kept.
pub open spec fn toggle_transition(v: SelectionView, subject: EntityRef) -> SelectionView {
    if v.sel.contains(subject) {
        SelectionView {
            sel: v.sel.remove_value(subject),
            pending: Some(LastAction { kind: ActionKind::Remove, subject }),
            anchor: Some(subject),
        }
    } else {
        SelectionView {
            sel: v.sel.push(subject),
            pending: Some(LastAction { kind: ActionKind::Add, subject }),
            anchor: Some(subject),
        }
    }
}

/// Range-mode transition: every entity in the inclusive sibling range
/// between the anchor and the subject joins the selection. With no anchor,
/// or when the anchor or the subject does not occur in the sibling order,
/// the selection degrades to a replace-mode selection of the subject.
pub open spec fn range_transition(
    v: SelectionView,
    subject: EntityRef,
    order: Seq<EntityRef>,
) -> SelectionView {
    match v.anchor {
        Some(a) => match (order.index_of_first(a), order.index_of_first(subject)) {
            (Some(ia), Some(js)) => {
                let lo = if ia <= js {
                    ia
                } else {
                    js
                };
                let hi = if ia <= js {
                    js
                } else {
                    ia
                };
                SelectionView {
                    sel: insert_all(v.sel, order.subrange(lo, hi + 1)),
                    pending: Some(LastAction { kind: ActionKind::RangeExtend, subject }),
                    anchor: Some(subject),
                }
            },
            _ => replace_transition(subject),
        },
        None => replace_transition(subject),
    }
}

/// The whole selection state machine, one mutation at a time.
pub open spec fn select_transition(
    v: SelectionView,
    mode: SelectionMode,
    subject: EntityRef,
    order: Seq<EntityRef>,
) -> SelectionView {
    match mode {
        SelectionMode::Replace => replace_transition(subject),
        SelectionMode::Toggle => toggle_transition(v, subject),
        SelectionMode::RangeExtend => range_transition(v, subject, order),
    }
}

/// The selection model: selected entities in insertion order (no
/// duplicates), the pending last action, and the range anchor.
pub struct SelectionModel {
    entries: Vec<EntityRef>,
    pending: Option<LastAction>,
    anchor: Option<EntityRef>,
}

impl View for SelectionModel {
    type V = SelectionView;

    closed spec fn view(&self) -> SelectionView {
        SelectionView { sel: self.entries@, pending: self.pending, anchor: self.anchor }
    }
}

/// Membership test on a plain vector of entity handles.
pub(crate) fn vec_contains(v: &Vec<EntityRef>, e: EntityRef) -> (r: bool)
    ensures
        r == v@.contains(e),
{
    let mut k: usize = 0;
    while k < v.len()
        invariant
            k <= v@.len(),
            forall|j: int| 0 <= j < k ==> v@[j] != e,
        decreases v@.len() - k,
    {
        if v[k] == e {
            return true;
        }
        k = k + 1;
    }
    false
}

/// Pushing a fresh entity keeps a selection duplicate-free.
pub(crate) proof fn lemma_push_keeps_no_dups(s: Seq<EntityRef>, e: EntityRef)
    requires
        no_dups(s),
        !s.contains(e),
    ensures
        no_dups(s.push(e)),
{
    let sp = s.push(e);
    assert forall|i: int, j: int| 0 <= i < j < sp.len() implies sp[i] != sp[j] by {
        if j == sp.len() - 1 {
            assert(sp[j] == e);
            if sp[i] == e {
                assert(s.contains(e)) by {
                    assert(s[i] == e);
                }
            }
        }
    }
}

/// Removes the first occurrence of an entity, if any, keeping the order of
/// the rest.
pub(crate) fn vec_remove_value(v: &mut Vec<EntityRef>, e: EntityRef)
    ensures
        final(v)@ == old(v)@.remove_value(e),
        no_dups(old(v)@) ==> no_dups(final(v)@),
{
    match position_of(v, e) {
        Some(i) => {
            v.remove(i);
            proof {
                let s = old(v)@;
                s.index_of_first_ensures(e);
                assert(s.contains(e)) by {
                    assert(s[i as int] == e);
                }
                let fi = s.index_of_first(e)->0;
                assert(fi == i as int) by {
                    if fi < i as int {
                        assert(s[fi] != e);
                    } else if (i as int) < fi {
                        assert(s[i as int] != e);
                    }
                }
                if no_dups(s) {
                    assert forall|a: int, b: int| 0 <= a < b < v@.len() implies v@[a] != v@[b] by {
                        if b < i as int {
                            assert(v@[a] == s[a] && v@[b] == s[b]);
                        } else if a < i as int {
                            assert(v@[a] == s[a] && v@[b] == s[b + 1]);
                        } else {
                            assert(v@[a] == s[a + 1] && v@[b] == s[b + 1]);
                        }
                    }
                }
            }
        },
        None => {
            proof {
                old(v)@.index_of_first_ensures(e);
                assert(old(v)@.index_of_first(e) is None) by {
                    if old(v)@.index_of_first(e) is Some {
                        assert(old(v)@.contains(e));
                    }
                }
            }
        },
    }
}

/// First position of an entity in a sibling order, if any.
pub(crate) fn position_of(order: &Vec<EntityRef>, e: EntityRef) -> (r: Option<usize>)
    ensures
        match r {
            Some(i) => i < order@.len() && order@[i as int] == e && (forall|j: int|
                0 <= j < i ==> order@[j] != e),
            None => !order@.contains(e),
        },
{
    let mut k: usize = 0;
    while k < order.len()
        invariant
            k <= order@.len(),
            forall|j: int| 0 <= j < k ==> order@[j] != e,
        decreases order@.len() - k,
    {
        if order[k] == e {
            return Some(k);
        }
        k = k + 1;
    }
    None
}

impl SelectionModel {
    /// Well-formed: the selection holds no duplicate handle.
    pub open spec fn wf(&self) -> bool {
        no_dups(self@.sel)
    }

    /// A fresh model: nothing selected, no pending action, no anchor.
    pub fn new() -> (m: Self)
        ensures
            m.wf(),
            m@.sel == Seq::<EntityRef>::empty(),
            m@.pending is None,
            m@.anchor is None,
    {
        SelectionModel { entries: Vec::new(), pending: None, anchor: None }
    }

    /// Membership test; no side effect.
    pub fn contains(&self, entity: EntityRef) -> (r: bool)
        ensures
            r == self@.sel.contains(entity),
    {
        vec_contains(&self.entries, entity)
    }

    /// Number of selected entities.
    pub fn count(&self) -> (n: usize)
        ensures
            n == self@.sel.len(),
    {
        self.entries.len()
    }

    /// The selection in insertion order.
    pub fn entries(&self) -> (r: &Vec<EntityRef>)
        ensures
            r@ == self@.sel,
    {
        &self.entries
    }

    /// Consuming read of the most recent action: the single designated
    /// per-frame consumer drains it; a second read within the same frame
    /// yields nothing.
    pub fn last_action(&mut self) -> (r: Option<LastAction>)
        ensures
            r == old(self)@.pending,
            final(self)@.pending is None,
            final(self)@.sel == old(self)@.sel,
            final(self)@.anchor == old(self)@.anchor,
    {
        let r = self.pending;
        self.pending = None;
        r
    }

    /// Replace-mode mutation: clear, insert the subject, record the action.
    fn do_replace(&mut self, subject: EntityRef)
        ensures
            final(self)@ == replace_transition(subject),
            final(self).wf(),
    {
        self.entries.clear();
        self.entries.push(subject);
        self.pending = Some(LastAction { kind: ActionKind::Replace, subject });
        self.anchor = Some(subject);
        proof {
            assert(self@.sel =~= seq![subject]);
        }
    }

    /// One selection mutation, driven by the mode derived from the modifier
    /// keys. `sibling_order` is the caller-supplied flattened, filtered
    /// ordering of the anchor's siblings; it is read only by range
    /// selection, which falls back to a replace when the anchor is missing
    /// or either endpoint does not occur in it.
    pub fn select(&mut self, mode: SelectionMode, subject: EntityRef, sibling_order: &Vec<EntityRef>)
        requires
            old(self).wf(),
        ensures
            final(self).wf(),
            final(self)@ == select_transition(old(self)@, mode, subject, sibling_order@),
    {
        match mode {
            SelectionMode::Replace => {
                self.do_replace(subject);
            },
            SelectionMode::Toggle => {
                if vec_contains(&self.entries, subject) {
                    vec_remove_value(&mut self.entries, subject);
                    self.pending = Some(LastAction { kind: ActionKind::Remove, subject });
                } else {
                    self.entries.push(subject);
                    self.pending = Some(LastAction { kind: ActionKind::Add, subject });
                }
                self.anchor = Some(subject);
            },
            SelectionMode::RangeExtend => {
                let anchor = self.anchor;
                match anchor {
                    Some(a) => {
                        let pa = position_of(sibling_order, a);
                        let ps = position_of(sibling_order, subject);
                        match (pa, ps) {
                            (Some(ia), Some(js)) => {
                                proof {
                                    let o = sibling_order@;
                                    o.index_of_first_ensures(a);
                                    o.index_of_first_ensures(subject);
                                    assert(o.contains(a)) by {
                                        assert(o[ia as int] == a);
                                    }
                                    assert(o.contains(subject)) by {
                                        assert(o[js as int] == subject);
                                    }
                                    assert(o.index_of_first(a) is Some);
                                    assert(o.index_of_first(subject) is Some);
                                    let fa = o.index_of_first(a)->0;
                                    let fs = o.index_of_first(subject)->0;
                                    assert(fa == ia as int) by {
                                        if fa < ia as int {
                                            assert(o[fa] != a);
                                        } else if (ia as int) < fa {
                                            assert(o[ia as int] != a);
                                        }
                                    }
                                    assert(fs == js as int) by {
                                        if fs < js as int {
                                            assert(o[fs] != subject);
                                        } else if (js as int) < fs {
                                            assert(o[js as int] != subject);
                                        }
                                    }
                                }
                                let lo: usize = if ia <= js {
                                    ia
                                } else {
                                    js
                                };
                                let hi: usize = if ia <= js {
                                    js
                                } else {
                                    ia
                                };
                                self.extend_with_range(sibling_order, lo, hi);
                                self.pending = Some(
                                    LastAction { kind: ActionKind::RangeExtend, subject },
                                );
                                self.anchor = Some(subject);
                            },
                            _ => {
                                proof {
                                    let o = sibling_order@;
                                    o.index_of_first_ensures(a);
                                    o.index_of_first_ensures(subject);
                                    if pa is None {
                                        assert(o.index_of_first(a) is None) by {
                                            if o.index_of_first(a) is Some {
                                                assert(o.contains(a));
                                            }
                                        }
                                    }
                                    if ps is None {
                                        assert(o.index_of_first(subject) is None) by {
                                            if o.index_of_first(subject) is Some {
                                                assert(o.contains(subject));
                                            }
                                        }
                                    }
                                }
                                self.do_replace(subject);
                            },
                        }
                    },
                    None => {
                        self.do_replace(subject);
                    },
                }
            },
        }
    }

    /// Inserts, in order, every entity of `order[lo ..= hi]` not already
    /// selected.
    fn extend_with_range(&mut self, order: &Vec<EntityRef>, lo: usize, hi: usize)
        requires
            old(self).wf(),
            lo <= hi < order@.len(),
        ensures
            final(self).wf(),
            final(self)@.sel == insert_all(old(self)@.sel, order@.subrange(lo as int, hi + 1)),
            final(self)@.pending == old(self)@.pending,
            final(self)@.anchor == old(self)@.anchor,
    {
        let ghost s0 = self@.sel;
        let n: usize = order.len();
        let mut k: usize = lo;
        proof {
            assert(order@.subrange(lo as int, lo as int) =~= Seq::<EntityRef>::empty());
        }
        while k <= hi
            invariant
                lo <= k <= hi + 1,
                hi < n,
                n == order@.len(),
                no_dups(self@.sel),
                self@.sel == insert_all(s0, order@.subrange(lo as int, k as int)),
                self@.pending == old(self)@.pending,
                self@.anchor == old(self)@.anchor,
            decreases hi + 1 - k,
        {
            let e = order[k];
            let ghost pre = self@.sel;
            if !vec_contains(&self.entries, e) {
                self.entries.push(e);
                proof {
                    let post = self@.sel;
                    assert forall|i: int, j: int|
                        0 <= i < j < post.len() implies post[i] != post[j] by {
                        if j == post.len() - 1 {
                            assert(post[j] == e);
                            assert(post[i] == pre[i]);
                            if post[i] == e {
                                assert(pre.contains(e)) by {
                                    assert(pre[i] == e);
                                }
                            }
                        }
                    }
                }
            }
            proof {
                assert(self@.sel == insert_new(pre, e));
                lemma_insert_all_snoc(s0, order@.subrange(lo as int, k as int), e);
                assert(order@.subrange(lo as int, k as int).push(e) =~= order@.subrange(
                    lo as int,
                    k + 1,
                ));
            }
            k = k + 1;
        }
    }
}

/// First parent pair matching the child, if any: the parent-lookup
/// capability the host supplies, as plain pairs.
pub open spec fn parent_of(pm: Seq<(EntityRef, EntityRef)>, e: EntityRef) -> Option<EntityRef>
    decreases pm.len(),
{
    if pm.len() == 0 {
        None::<EntityRef>
    } else if pm[0].0 == e {
        Some(pm[0].1)
    } else {
        parent_of(pm.drop_first(), e)
    }
}

/// The entity reached from `e` after exactly `k` parent steps, if the chain
/// goes that far.
pub open spec fn ancestor_at(pm: Seq<(EntityRef, EntityRef)>, e: EntityRef, k: nat) -> Option<
    EntityRef,
>
    decreases k,
{
    if k == 0 {
        Some(e)
    } else {
        match ancestor_at(pm, e, (k - 1) as nat) {
            Some(p) => parent_of(pm, p),
            None => None::<EntityRef>,
        }
    }
}

/// Whether `x` is a strict ancestor, within at most `pm.len()` parent steps,
/// of some selected entity. On an acyclic parent map the step bound is no
/// restriction: no ancestor chain is longer than the map itself.
pub open spec fn is_open_ancestor(
    sel: Seq<EntityRef>,
    pm: Seq<(EntityRef, EntityRef)>,
    x: EntityRef,
) -> bool {
    exists|s: EntityRef, k: nat|
        #![auto]
        sel.contains(s) && 1 <= k <= pm.len() && ancestor_at(pm, s, k) == Some(x)
}

/// `x` is an ancestor of one of the first `m` selected entities.
spec fn covered_by_prefix(
    sel: Seq<EntityRef>,
    pm: Seq<(EntityRef, EntityRef)>,
    m: int,
    x: EntityRef,
) -> bool {
    exists|s: EntityRef, k: nat|
        #![auto]
        sel.subrange(0, m).contains(s) && 1 <= k <= pm.len() && ancestor_at(pm, s, k) == Some(x)
}

/// `x` is reached from `s` within the first `step` parent steps.
spec fn covered_by_walk(
    pm: Seq<(EntityRef, EntityRef)>,
    s: EntityRef,
    step: nat,
    x: EntityRef,
) -> bool {
    exists|k: nat| #![auto] 1 <= k <= step && ancestor_at(pm, s, k) == Some(x)
}

/// A chain that has ended stays ended.
proof fn lemma_ancestor_none_propagates(
    pm: Seq<(EntityRef, EntityRef)>,
    s: EntityRef,
    m: nat,
    k: nat,
)
    requires
        ancestor_at(pm, s, m) is None,
        m <= k,
    ensures
        ancestor_at(pm, s, k) is None,
    decreases k - m,
{
    if k > m {
        lemma_ancestor_none_propagates(pm, s, m, (k - 1) as nat);
    }
}

/// First parent of an entity under the supplied parent pairs.
fn lookup_parent(parents: &Vec<(EntityRef, EntityRef)>, e: EntityRef) -> (r: Option<EntityRef>)
    ensures
        r == parent_of(parents@, e),
{
    let ghost pm = parents@;
    proof {
        assert(pm.skip(0) =~= pm);
    }
    let mut k: usize = 0;
    while k < parents.len()
        invariant
            k <= pm.len(),
            pm == parents@,
            parent_of(pm, e) == parent_of(pm.skip(k as int), e),
        decreases pm.len() - k,
    {
        let pair = parents[k];
        proof {
            assert(pm.skip(k as int)[0] == pm[k as int]);
            assert(pm.skip(k as int).drop_first() =~= pm.skip(k + 1));
        }
        if pair.0 == e {
            return Some(pair.1);
        }
        k = k + 1;
    }
    proof {
        assert(pm.skip(pm.len() as int) =~= Seq::<(EntityRef, EntityRef)>::empty());
    }
    None
}

impl SelectionModel {
    /// The always-open set: every strict ancestor, within at most
    /// `parents.len()` parent steps, of every selected entity. HierarchyView
    /// force-expands exactly these rows so the path to any selection stays
    /// visible; the set is derived per frame, not stored.
    pub fn always_open_ancestors(&self, parents: &Vec<(EntityRef, EntityRef)>) -> (r: Vec<
        EntityRef,
    >)
        ensures
            no_dups(r@),
            forall|x: EntityRef| r@.contains(x) <==> is_open_ancestor(self@.sel, parents@, x),
    {
        broadcast use vstd::seq_lib::group_seq_properties;

        let ghost sel = self@.sel;
        let ghost pm = parents@;
        let n: usize = parents.len();
        let mut result: Vec<EntityRef> = Vec::new();
        let mut si: usize = 0;
        proof {
            assert(sel.subrange(0, 0) =~= Seq::<EntityRef>::empty());
        }
        while si < self.entries.len()
            invariant
                si <= sel.len(),
                sel == self@.sel,
                pm == parents@,
                n == pm.len(),
                no_dups(result@),
                forall|x: EntityRef|
                    #![auto]
                    result@.contains(x) <==> covered_by_prefix(sel, pm, si as int, x),
            decreases sel.len() - si,
        {
            let s = self.entries[si];
            let ghost prev = result@;
            let mut cur: EntityRef = s;
            let mut step: usize = 0;
            let mut ended: bool = false;
            while step < n && !ended
                invariant
                    step <= n,
                    pm == parents@,
                    n == pm.len(),
                    no_dups(result@),
                    !ended ==> ancestor_at(pm, s, step as nat) == Some(cur),
                    ended ==> (forall|k: nat|
                        #![auto]
                        step < k <= n ==> ancestor_at(pm, s, k) is None),
                    forall|x: EntityRef|
                        #![auto]
                        result@.contains(x) <==> (covered_by_prefix(sel, pm, si as int, x)
                            || covered_by_walk(pm, s, step as nat, x)),
                decreases n - step + (if ended {
                    0int
                } else {
                    1int
                }),
            {
                match lookup_parent(parents, cur) {
                    Some(p) => {
                        let ghost before = result@;
                        step = step + 1;
                        proof {
                            assert(ancestor_at(pm, s, step as nat) == Some(p));
                        }
                        if !vec_contains(&result, p) {
                            result.push(p);
                            proof {
                                assert forall|i: int, j: int|
                                    0 <= i < j < result@.len() implies result@[i] != result@[j] by {
                                    if j == result@.len() - 1 {
                                        if result@[i] == p {
                                            assert(before.contains(p)) by {
                                                assert(before[i] == p);
                                            }
                                        }
                                    }
                                }
                            }
                        }
                        proof {
                            assert(result@.contains(p)) by {
                                if !before.contains(p) {
                                    assert(result@[result@.len() - 1] == p);
                                }
                            }
                            assert forall|x: EntityRef|
                                #![auto]
                                result@.contains(x) implies (covered_by_prefix(sel, pm, si as int, x)
                                || covered_by_walk(pm, s, step as nat, x)) by {
                                if x == p {
                                    assert(1 <= step as nat <= step as nat && ancestor_at(
                                        pm,
                                        s,
                                        step as nat,
                                    ) == Some(p));
                                } else {
                                    assert(before.contains(x));
                                }
                            }
                            assert forall|x: EntityRef|
                                #![auto]
                                (covered_by_prefix(sel, pm, si as int, x) || covered_by_walk(
                                    pm,
                                    s,
                                    step as nat,
                                    x,
                                )) implies result@.contains(x) by {
                                if covered_by_walk(pm, s, step as nat, x) && !covered_by_walk(
                                    pm,
                                    s,
                                    (step - 1) as nat,
                                    x,
                                ) {
                                    let k = choose|k: nat|
                                        #![auto]
                                        1 <= k <= step as nat && ancestor_at(pm, s, k) == Some(x);
                                    assert(k == step as nat) by {
                                        if k < step as nat {
                                            assert(1 <= k <= (step - 1) as nat && ancestor_at(
                                                pm,
                                                s,
                                                k,
                                            ) == Some(x));
                                            assert(covered_by_walk(pm, s, (step - 1) as nat, x));
                                        }
                                    }
                                    assert(ancestor_at(pm, s, step as nat) == Some(x));
                                    assert(x == p);
                                } else {
                                    assert(covered_by_prefix(sel, pm, si as int, x)
                                        || covered_by_walk(pm, s, (step - 1) as nat, x));
                                    assert(before.contains(x));
                                    if !before.contains(p) {
                                        assert(result@ == before.push(p));
                                        let j = choose|j: int| 0 <= j < before.len() && before[j] == x;
                                        assert(result@[j] == x);
                                    }
                                }
                            }
                        }
                        cur = p;
                    },
                    None => {
                        proof {
                            assert(ancestor_at(pm, s, (step + 1) as nat) is None);
                            assert forall|k: nat| #![auto] step < k <= n implies ancestor_at(
                                pm,
                                s,
                                k,
                            ) is None by {
                                lemma_ancestor_none_propagates(pm, s, (step + 1) as nat, k);
                            }
                        }
                        ended = true;
                    },
                }
            }
            proof {
                assert forall|x: EntityRef|
                    #![auto]
                    covered_by_walk(pm, s, n as nat, x) implies covered_by_walk(
                    pm,
                    s,
                    step as nat,
                    x,
                ) by {
                    let k = choose|k: nat|
                        #![auto]
                        1 <= k <= n as nat && ancestor_at(pm, s, k) == Some(x);
                    if k > step as nat {
                        assert(ancestor_at(pm, s, k) is None);
                    }
                }
                assert(sel.subrange(0, si + 1).drop_last() =~= sel.subrange(0, si as int));
                assert(sel.subrange(0, si + 1).last() == sel[si as int]);
                assert forall|x: EntityRef|
                    #![auto]
                    result@.contains(x) implies covered_by_prefix(sel, pm, si + 1, x) by {
                    if covered_by_prefix(sel, pm, si as int, x) {
                        let (s0, k0) = choose|s0: EntityRef, k0: nat|
                            #![auto]
                            sel.subrange(0, si as int).contains(s0) && 1 <= k0 <= pm.len()
                                && ancestor_at(pm, s0, k0) == Some(x);
                        assert(sel.subrange(0, si + 1).contains(s0)) by {
                            let i0 = choose|i0: int|
                                0 <= i0 < sel.subrange(0, si as int).len() && sel.subrange(
                                    0,
                                    si as int,
                                )[i0] == s0;
                            assert(sel.subrange(0, si + 1)[i0] == s0);
                        }
                    } else {
                        let k0 = choose|k0: nat|
                            #![auto]
                            1 <= k0 <= step as nat && ancestor_at(pm, s, k0) == Some(x);
                        assert(sel.subrange(0, si + 1)[si as int] == s);
                        assert(sel.subrange(0, si + 1).contains(s));
                    }
                }
                assert forall|x: EntityRef|
                    #![auto]
                    covered_by_prefix(sel, pm, si + 1, x) implies result@.contains(x) by {
                    let (s0, k0) = choose|s0: EntityRef, k0: nat|
                        #![auto]
                        sel.subrange(0, si + 1).contains(s0) && 1 <= k0 <= pm.len() && ancestor_at(
                            pm,
                            s0,
                            k0,
                        ) == Some(x);
                    let i0 = choose|i0: int|
                        0 <= i0 < sel.subrange(0, si + 1).len() && #[trigger] sel.subrange(
                            0,
                            si + 1,
                        )[i0] == s0;
                    if i0 < si as int {
                        assert(sel.subrange(0, si as int)[i0] == s0);
                        assert(sel.subrange(0, si as int).contains(s0));
                        assert(covered_by_prefix(sel, pm, si as int, x));
                    } else {
                        assert(s0 == s);
                        assert(covered_by_walk(pm, s, n as nat, x));
                        assert(covered_by_walk(pm, s, step as nat, x));
                    }
                }
            }
            si = si + 1;
        }
        proof {
            assert(sel.subrange(0, sel.len() as int) =~= sel);
        }
        result
    }
}

/// One guarded insert adds exactly the inserted entity, as sets.
proof fn lemma_insert_new_to_set(s: Seq<EntityRef>, e: EntityRef)
    ensures
        insert_new(s, e).to_set() =~= s.to_set().insert(e),
{
    broadcast use vstd::seq_lib::group_seq_properties;

}

/// Inserting a batch adds exactly its members, as sets.
proof fn lemma_insert_all_to_set(s: Seq<EntityRef>, t: Seq<EntityRef>)
    ensures
        insert_all(s, t).to_set() =~= s.to_set().union(t.to_set()),
    decreases t.len(),
{
    broadcast use vstd::seq_lib::group_seq_properties;

    if t.len() == 0 {
    } else {
        lemma_insert_new_to_set(s, t[0]);
        lemma_insert_all_to_set(insert_new(s, t[0]), t.drop_first());
        assert(t.to_set() =~= t.drop_first().to_set().insert(t[0])) by {
            assert forall|x: EntityRef| t.contains(x) implies (t.drop_first().contains(x) || x
                == t[0]) by {
                let i = choose|i: int| 0 <= i < t.len() && t[i] == x;
                if i > 0 {
                    assert(t.drop_first()[i - 1] == x);
                }
            }
            assert forall|x: EntityRef| t.drop_first().contains(x) implies t.contains(x) by {
                let i = choose|i: int|
                    0 <= i < t.drop_first().len() && t.drop_first()[i] == x;
                assert(t[i + 1] == x);
            }
            assert(t.contains(t[0]));
        }
    }
}

/// Law: a replace-mode selection makes its subject the whole selection,
/// whatever was selected before; after replace-selecting `a` and then `b`,
/// exactly `b` is selected and a replace of `b` is the recorded action.
pub proof fn lemma_replace_law(
    v: SelectionView,
    a: EntityRef,
    b: EntityRef,
    order: Seq<EntityRef>,
)
    ensures
        ({
            let v2 = select_transition(
                select_transition(v, SelectionMode::Replace, a, order),
                SelectionMode::Replace,
                b,
                order,
            );
            v2.sel == seq![b] && v2.pending == Some(
                LastAction { kind: ActionKind::Replace, subject: b },
            )
        }),
{
}

/// Law: toggling the same entity twice returns the selection to its
/// pre-toggle contents.
pub proof fn lemma_toggle_twice_law(v: SelectionView, a: EntityRef, order: Seq<EntityRef>)
    requires
        no_dups(v.sel),
    ensures
        ({
            let v2 = select_transition(
                select_transition(v, SelectionMode::Toggle, a, order),
                SelectionMode::Toggle,
                a,
                order,
            );
            v2.sel.to_set() == v.sel.to_set()
        }),
{
    broadcast use vstd::seq_lib::group_seq_properties;

    let s = v.sel;
    if s.contains(a) {
        s.index_of_first_ensures(a);
        let i = s.index_of_first(a)->0;
        let s1 = s.remove(i);
        s.remove_ensures(i);
        assert(!s1.contains(a)) by {
            if s1.contains(a) {
                let j = choose|j: int| 0 <= j < s1.len() && s1[j] == a;
                if j < i {
                    assert(s[j] == a);
                } else {
                    assert(s[j + 1] == a);
                }
            }
        }
        let s2 = s1.push(a);
        assert(s2.to_set() =~= s.to_set()) by {
            assert forall|x: EntityRef| s.contains(x) implies s2.contains(x) by {
                let j = choose|j: int| 0 <= j < s.len() && s[j] == x;
                if j < i {
                    assert(s1[j] == x);
                } else if j > i {
                    assert(s1[j - 1] == x);
                } else {
                    assert(x == a);
                    assert(s2[s1.len() as int] == a);
                }
            }
            assert forall|x: EntityRef| s2.contains(x) implies s.contains(x) by {
                let j = choose|j: int| 0 <= j < s2.len() && s2[j] == x;
                if j < s1.len() {
                    if j < i {
                        assert(s[j] == x);
                    } else {
                        assert(s[j + 1] == x);
                    }
                } else {
                    assert(x == a);
                }
            }
        }
    } else {
        let s1 = s.push(a);
        s1.index_of_first_ensures(a);
        assert(s1.contains(a)) by {
            assert(s1[s.len() as int] == a);
        }
        let j = s1.index_of_first(a)->0;
        assert(j == s.len()) by {
            if j < s.len() {
                assert(s[j] == a);
            }
        }
        assert(s1.remove(s.len() as int) =~= s);
    }
}

/// Law: range extension is direction independent. With a duplicate-free
/// sibling order, replace-selecting one endpoint and range-extending to the
/// other selects, as a set, exactly the inclusive range between the two
/// endpoints — whichever endpoint was selected first.
pub proof fn lemma_range_extend_law(
    v: SelectionView,
    order: Seq<EntityRef>,
    a: EntityRef,
    b: EntityRef,
)
    requires
        no_dups(order),
        order.contains(a),
        order.contains(b),
    ensures
        ({
            let ia = order.index_of_first(a)->0;
            let ib = order.index_of_first(b)->0;
            let lo = if ia <= ib {
                ia
            } else {
                ib
            };
            let hi = if ia <= ib {
                ib
            } else {
                ia
            };
            let va = select_transition(
                select_transition(v, SelectionMode::Replace, a, order),
                SelectionMode::RangeExtend,
                b,
                order,
            );
            let vb = select_transition(
                select_transition(v, SelectionMode::Replace, b, order),
                SelectionMode::RangeExtend,
                a,
                order,
            );
            va.sel.to_set() == order.subrange(lo, hi + 1).to_set() && vb.sel.to_set()
                == va.sel.to_set()
        }),
{
    broadcast use vstd::seq_lib::group_seq_properties;

    order.index_of_first_ensures(a);
    order.index_of_first_ensures(b);
    let ia = order.index_of_first(a)->0;
    let ib = order.index_of_first(b)->0;
    let lo = if ia <= ib {
        ia
    } else {
        ib
    };
    let hi = if ia <= ib {
        ib
    } else {
        ia
    };
    let range = order.subrange(lo, hi + 1);
    assert(range.contains(a)) by {
        assert(range[ia - lo] == a);
    }
    assert(range.contains(b)) by {
        assert(range[ib - lo] == b);
    }
    lemma_insert_all_to_set(seq![a], range);
    lemma_insert_all_to_set(seq![b], range);
    assert(seq![a].to_set() =~= Set::<EntityRef>::empty().insert(a)) by {
        assert(seq![a].contains(a)) by {
            assert(seq![a][0] == a);
        }
        assert forall|x: EntityRef| seq![a].contains(x) implies x == a by {
            let i = choose|i: int| 0 <= i < seq![a].len() && seq![a][i] == x;
        }
    }
    assert(seq![b].to_set() =~= Set::<EntityRef>::empty().insert(b)) by {
        assert(seq![b].contains(b)) by {
            assert(seq![b][0] == b);
        }
        assert forall|x: EntityRef| seq![b].contains(x) implies x == b by {
            let i = choose|i: int| 0 <= i < seq![b].len() && seq![b][i] == x;
        }
    }
    assert(seq![a].to_set().union(range.to_set()) =~= range.to_set());
    assert(seq![b].to_set().union(range.to_set()) =~= range.to_set());
}

/// Appending one more entity to the added list inserts it after the rest.
proof fn lemma_insert_all_snoc(s: Seq<EntityRef>, t: Seq<EntityRef>, e: EntityRef)
    ensures
        insert_all(s, t.push(e)) == insert_new(insert_all(s, t), e),
    decreases t.len(),
{
    let tp = t.push(e);
    if t.len() == 0 {
        assert(tp[0] == e);
        assert(tp.drop_first() =~= Seq::<EntityRef>::empty());
        assert(insert_all(s, tp) == insert_all(insert_new(s, e), tp.drop_first()));
        assert(insert_all(insert_new(s, e), tp.drop_first()) == insert_new(s, e));
        assert(insert_all(s, t) == s);
    } else {
        assert(tp[0] == t[0]);
        assert(tp.drop_first() =~= t.drop_first().push(e));
        assert(insert_all(s, tp) == insert_all(insert_new(s, t[0]), tp.drop_first()));
        lemma_insert_all_snoc(insert_new(s, t[0]), t.drop_first(), e);
        assert(insert_all(s, t) == insert_all(insert_new(s, t[0]), t.drop_first()));
    }
}

} // verus!
