//! The guarantees the transform gives, stated and proved once and for
//! all: shape preservation for slot-free input, a fixed point after one
//! pass, and name-uniqueness of the merged attribute list.

use vstd::prelude::*;

use crate::slot::{
    SlotView, spec_fails, spec_is_slot_child, spec_kept, spec_slots,
};
use crate::tree::{AttrView, ChildView, ElemView};
use crate::visitor::{
    lemma_rec_children_index, lemma_rec_children_len, lemma_spec_find_props,
    spec_children_diags, spec_find, spec_merge, spec_merge_one, spec_rec_child,
    spec_rec_children, spec_transform, spec_transform_diags,
};

verus! {

/// Whether a tree contains no slot candidate anywhere in a child list:
/// no direct child is one, and the same holds below every element child.
/// The root's own tag is not constrained; only children are ever
/// extracted.
pub open spec fn spec_slot_free(e: ElemView) -> bool
    decreases e, 1int,
{
    spec_children_slot_free(e.children)
}

/// `spec_slot_free` over one child list.
pub open spec fn spec_children_slot_free(cs: Seq<ChildView>) -> bool
    decreases cs, 0int,
{
    if cs.len() == 0 {
        true
    } else {
        spec_children_slot_free(cs.drop_last()) && !spec_is_slot_child(cs.last())
            && match cs.last() {
            ChildView::Element(el) => spec_slot_free(el),
            ChildView::Opaque(_) => true,
        }
    }
}

/// A slot-free child list judged child by child.
pub proof fn lemma_children_slot_free_index(cs: Seq<ChildView>)
    ensures
        spec_children_slot_free(cs) <==> forall|i: int|
            0 <= i < cs.len() ==> !spec_is_slot_child(#[trigger] cs[i]) && match cs[i] {
                ChildView::Element(el) => spec_slot_free(el),
                ChildView::Opaque(_) => true,
            },
    decreases cs,
{
    if cs.len() > 0 {
        lemma_children_slot_free_index(cs.drop_last());
        assert(forall|i: int| 0 <= i < cs.len() - 1 ==> cs.drop_last()[i] == #[trigger] cs[i]);
    }
}

/// Transforming a child does not change whether it is a slot candidate.
pub proof fn lemma_rec_child_candidate(c: ChildView)
    ensures
        spec_is_slot_child(spec_rec_child(c)) == spec_is_slot_child(c),
{
}

/// A child list without slot candidates loses no child, yields no slot,
/// and emits no failure.
pub proof fn lemma_no_candidates(cs: Seq<ChildView>)
    requires
        forall|i: int| 0 <= i < cs.len() ==> !spec_is_slot_child(#[trigger] cs[i]),
    ensures
        spec_kept(cs) == cs,
        spec_slots(cs) == Seq::<SlotView>::empty(),
        spec_fails(cs) == Seq::<crate::tree::Diag>::empty(),
    decreases cs,
{
    if cs.len() > 0 {
        assert(forall|i: int|
            0 <= i < cs.len() - 1 ==> cs.drop_last()[i] == #[trigger] cs[i]);
        lemma_no_candidates(cs.drop_last());
        assert(spec_kept(cs) =~= cs);
    }
}

/// Idempotence of non-slot content: an element none of whose direct
/// children is a slot candidate keeps its attribute list unchanged, and
/// its child list keeps its length and order, each child merely
/// transformed in place; the element itself contributes no diagnostic.
pub proof fn lemma_no_slot_children_same_shape(e: ElemView)
    requires
        forall|i: int| 0 <= i < e.children.len() ==> !spec_is_slot_child(#[trigger] e.children[i]),
    ensures
        spec_transform(e).tag == e.tag,
        spec_transform(e).span == e.span,
        spec_transform(e).attrs == e.attrs,
        spec_transform(e).children.len() == e.children.len(),
        forall|i: int|
            0 <= i < e.children.len() ==> spec_transform(e).children[i] == spec_rec_child(
                #[trigger] e.children[i],
            ),
        spec_transform_diags(e) == spec_children_diags(e.children),
{
    let rc = spec_rec_children(e.children);
    lemma_rec_children_len(e.children);
    assert forall|i: int| 0 <= i < rc.len() implies !spec_is_slot_child(#[trigger] rc[i]) by {
        lemma_rec_children_index(e.children, i);
        lemma_rec_child_candidate(e.children[i]);
    }
    lemma_no_candidates(rc);
    assert forall|i: int|
        0 <= i < e.children.len() implies spec_transform(e).children[i] == spec_rec_child(
        #[trigger] e.children[i],
    ) by {
        lemma_rec_children_index(e.children, i);
    }
    assert(spec_children_diags(e.children) + Seq::<crate::tree::Diag>::empty()
        =~= spec_children_diags(e.children));
}

/// One pass leaves no slot candidate anywhere in the tree.
pub proof fn lemma_transform_slot_free(e: ElemView)
    ensures
        spec_slot_free(spec_transform(e)),
    decreases e,
{
    let cs = e.children;
    let rc = spec_rec_children(cs);
    lemma_rec_children_len(cs);
    assert forall|i: int|
        0 <= i < rc.len() implies (match #[trigger] rc[i] {
        ChildView::Element(el) => spec_slot_free(el),
        ChildView::Opaque(_) => true,
    }) by {
        lemma_rec_children_index(cs, i);
        match cs[i] {
            ChildView::Element(y) => {
                lemma_transform_slot_free(y);
            },
            ChildView::Opaque(_) => {},
        }
    }
    lemma_kept_keeps_slot_free(rc);
}

/// Removing the slot candidates from a child list whose element children
/// are all slot-free leaves a slot-free child list.
proof fn lemma_kept_keeps_slot_free(cs: Seq<ChildView>)
    requires
        forall|i: int|
            0 <= i < cs.len() ==> (match #[trigger] cs[i] {
                ChildView::Element(el) => spec_slot_free(el),
                ChildView::Opaque(_) => true,
            }),
    ensures
        spec_children_slot_free(spec_kept(cs)),
    decreases cs,
{
    if cs.len() > 0 {
        assert(forall|i: int|
            0 <= i < cs.len() - 1 ==> cs.drop_last()[i] == #[trigger] cs[i]);
        lemma_kept_keeps_slot_free(cs.drop_last());
        if !spec_is_slot_child(cs.last()) {
            crate::tree::lemma_push_parts(spec_kept(cs.drop_last()), cs.last());
        }
    }
}

/// Fresh names append in first-seen order: when no produced name is
/// already present in the attribute list and the produced names are
/// pairwise distinct, merging appends exactly one attribute per slot, in
/// slot order, after the existing attributes.
pub proof fn lemma_merge_appends_fresh(attrs: Seq<AttrView>, slots: Seq<SlotView>)
    requires
        forall|i: int, j: int|
            0 <= i < attrs.len() && 0 <= j < slots.len() ==> (#[trigger] attrs[i]).name != (
            #[trigger] slots[j]).name,
        forall|i: int, j: int|
            0 <= i < j < slots.len() ==> (#[trigger] slots[i]).name != (#[trigger] slots[j]).name,
    ensures
        spec_merge(attrs, slots) == attrs + slots.map_values(
            |s: SlotView| crate::slot::spec_slot_attr(s),
        ),
    decreases slots,
{
    let f = |s: SlotView| crate::slot::spec_slot_attr(s);
    if slots.len() == 0 {
        assert(attrs + slots.map_values(f) =~= attrs);
    } else {
        let d = slots.drop_last();
        let s = slots.last();
        assert(forall|i: int| 0 <= i < d.len() ==> d[i] == #[trigger] slots[i]);
        lemma_merge_appends_fresh(attrs, d);
        let prev = attrs + d.map_values(f);
        assert forall|i: int| 0 <= i < prev.len() implies (#[trigger] prev[i]).name != s.name by {
            if i < attrs.len() {
                assert(prev[i] == attrs[i]);
                assert(attrs[i].name != slots[slots.len() - 1].name);
            } else {
                assert(prev[i] == f(d[i - attrs.len()]));
                assert(slots[i - attrs.len()].name != slots[slots.len() - 1].name);
            }
        }
        lemma_spec_find_props(prev, s.name);
        assert(spec_merge(attrs, slots) == prev.push(crate::slot::spec_slot_attr(s)));
        assert(prev.push(crate::slot::spec_slot_attr(s)) =~= attrs + slots.map_values(f));
    }
}

/// Round-trip stability, first half: a slot-free tree is a fixed point of
/// the transform, and transforming it emits no diagnostic.
pub proof fn lemma_slot_free_noop(e: ElemView)
    requires
        spec_slot_free(e),
    ensures
        spec_transform(e) == e,
        spec_transform_diags(e) == Seq::<crate::tree::Diag>::empty(),
    decreases e, 1int,
{
    lemma_children_noop(e.children);
    lemma_children_slot_free_index(e.children);
    lemma_no_candidates(e.children);
    assert(spec_transform(e) =~= e);
    assert(Seq::<crate::tree::Diag>::empty() + Seq::<crate::tree::Diag>::empty()
        =~= Seq::<crate::tree::Diag>::empty());
}

/// `lemma_slot_free_noop` over one child list.
proof fn lemma_children_noop(cs: Seq<ChildView>)
    requires
        spec_children_slot_free(cs),
    ensures
        spec_rec_children(cs) == cs,
        spec_children_diags(cs) == Seq::<crate::tree::Diag>::empty(),
    decreases cs, 0int,
{
    if cs.len() > 0 {
        lemma_children_noop(cs.drop_last());
        match cs.last() {
            ChildView::Element(el) => {
                lemma_slot_free_noop(el);
                assert(spec_transform(el) == el);
                assert(spec_rec_child(cs.last()) == cs.last());
            },
            ChildView::Opaque(_) => {},
        }
        assert(spec_rec_child(cs.last()) == cs.last());
        assert(spec_rec_children(cs) == spec_rec_children(cs.drop_last()).push(
            spec_rec_child(cs.last()),
        ));
        assert(spec_rec_children(cs) =~= cs);
        assert(Seq::<crate::tree::Diag>::empty() + Seq::<crate::tree::Diag>::empty()
            =~= Seq::<crate::tree::Diag>::empty());
    }
}

/// How often a name occurs in an attribute list.
pub open spec fn spec_count_name(attrs: Seq<AttrView>, name: Seq<char>) -> nat
    decreases attrs,
{
    if attrs.len() == 0 {
        0nat
    } else {
        spec_count_name(attrs.drop_last(), name) + if attrs.last().name == name {
            1nat
        } else {
            0nat
        }
    }
}

/// Whether some slot in the list carries the given name.
pub open spec fn spec_has_slot_named(slots: Seq<SlotView>, name: Seq<char>) -> bool {
    exists|i: int| 0 <= i < slots.len() && (#[trigger] slots[i]).name == name
}

/// A name occurs zero times exactly when no attribute carries it.
proof fn lemma_count_zero(attrs: Seq<AttrView>, name: Seq<char>)
    ensures
        (spec_count_name(attrs, name) == 0) <==> (forall|i: int|
            0 <= i < attrs.len() ==> (#[trigger] attrs[i]).name != name),
    decreases attrs,
{
    if attrs.len() > 0 {
        lemma_count_zero(attrs.drop_last(), name);
        assert(forall|i: int|
            0 <= i < attrs.len() - 1 ==> attrs.drop_last()[i] == #[trigger] attrs[i]);
        assert(attrs[attrs.len() - 1] == attrs.last());
    }
}

/// Overwriting an attribute with one of the same name changes no count.
proof fn lemma_count_update(attrs: Seq<AttrView>, i: int, a: AttrView, name: Seq<char>)
    requires
        0 <= i < attrs.len(),
        a.name == attrs[i].name,
    ensures
        spec_count_name(attrs.update(i, a), name) == spec_count_name(attrs, name),
    decreases attrs,
{
    let u = attrs.update(i, a);
    if i == attrs.len() - 1 {
        assert(u.drop_last() =~= attrs.drop_last());
        assert(u.last() == a);
    } else {
        assert(u.drop_last() =~= attrs.drop_last().update(i, a));
        assert(u.last() == attrs.last());
        lemma_count_update(attrs.drop_last(), i, a, name);
    }
}

/// Appending an attribute raises exactly its own name's count.
proof fn lemma_count_push(attrs: Seq<AttrView>, a: AttrView, name: Seq<char>)
    ensures
        spec_count_name(attrs.push(a), name) == spec_count_name(attrs, name) + if a.name
            == name {
            1nat
        } else {
            0nat
        },
{
    crate::tree::lemma_push_parts(attrs, a);
}

/// What one merged slot does to a name's count: nothing when an attribute
/// of the slot's name already exists, else one more of the slot's name.
proof fn lemma_merge_one_count(attrs: Seq<AttrView>, s: SlotView, name: Seq<char>)
    ensures
        spec_count_name(spec_merge_one(attrs, s), name) == if spec_find(attrs, s.name)
            is Some {
            spec_count_name(attrs, name)
        } else {
            spec_count_name(attrs, name) + if s.name == name {
                1nat
            } else {
                0nat
            }
        },
{
    lemma_spec_find_props(attrs, s.name);
    match spec_find(attrs, s.name) {
        Some(i) => {
            lemma_count_update(attrs, i, crate::slot::spec_slot_attr(s), name);
        },
        None => {
            lemma_count_push(attrs, crate::slot::spec_slot_attr(s), name);
        },
    }
}

/// A slot list either mentions a name in its last slot or earlier.
proof fn lemma_has_slot_named_step(slots: Seq<SlotView>, name: Seq<char>)
    requires
        slots.len() > 0,
    ensures
        spec_has_slot_named(slots, name) <==> (spec_has_slot_named(slots.drop_last(), name)
            || slots.last().name == name),
{
    let d = slots.drop_last();
    if spec_has_slot_named(slots, name) {
        let i = choose|i: int| 0 <= i < slots.len() && (#[trigger] slots[i]).name == name;
        if i < slots.len() - 1 {
            assert(d[i] == slots[i]);
            assert(spec_has_slot_named(d, name));
        }
    }
    if spec_has_slot_named(d, name) {
        let i = choose|i: int| 0 <= i < d.len() && (#[trigger] d[i]).name == name;
        assert(slots[i] == d[i]);
        assert(spec_has_slot_named(slots, name));
    }
    if slots.last().name == name {
        assert(slots[slots.len() - 1].name == name);
        assert(spec_has_slot_named(slots, name));
    }
}

/// What merging a slot list does to a name's count: nothing for a name no
/// slot carries; a name some slot carries ends up present, without ever
/// adding to a count that was already positive.
pub proof fn lemma_merge_count(attrs: Seq<AttrView>, slots: Seq<SlotView>, name: Seq<char>)
    ensures
        spec_count_name(spec_merge(attrs, slots), name) == if spec_has_slot_named(
            slots,
            name,
        ) {
            if spec_count_name(attrs, name) == 0 {
                1nat
            } else {
                spec_count_name(attrs, name)
            }
        } else {
            spec_count_name(attrs, name)
        },
    decreases slots,
{
    if slots.len() == 0 {
        assert(!spec_has_slot_named(slots, name));
    } else {
        let d = slots.drop_last();
        let s = slots.last();
        lemma_merge_count(attrs, d, name);
        let prev = spec_merge(attrs, d);
        lemma_merge_one_count(prev, s, name);
        lemma_spec_find_props(prev, s.name);
        lemma_count_zero(prev, s.name);
        lemma_has_slot_named_step(slots, name);
    }
}

/// Name uniqueness resolution: an attribute list without a duplicated
/// name stays without one — a slot that fills an existing attribute
/// overwrites it in place rather than adding a duplicate, and a fresh
/// name is appended at most once.
pub proof fn lemma_transform_name_unique(e: ElemView, name: Seq<char>)
    requires
        spec_count_name(e.attrs, name) <= 1,
    ensures
        spec_count_name(spec_transform(e).attrs, name) <= 1,
{
    lemma_merge_count(e.attrs, spec_slots(spec_rec_children(e.children)), name);
}

/// Order preservation: extraction is local — splitting a child list
/// anywhere splits its kept children, its extracted slots, and its
/// failure diagnostics the same way, each in order.
pub proof fn lemma_extraction_concat(a: Seq<ChildView>, b: Seq<ChildView>)
    ensures
        spec_kept(a + b) == spec_kept(a) + spec_kept(b),
        spec_slots(a + b) == spec_slots(a) + spec_slots(b),
        spec_fails(a + b) == spec_fails(a) + spec_fails(b),
    decreases b,
{
    if b.len() == 0 {
        assert(a + b =~= a);
        assert(spec_kept(a) + spec_kept(b) =~= spec_kept(a));
        assert(spec_slots(a) + spec_slots(b) =~= spec_slots(a));
        assert(spec_fails(a) + spec_fails(b) =~= spec_fails(a));
    } else {
        lemma_extraction_concat(a, b.drop_last());
        assert((a + b).drop_last() =~= a + b.drop_last());
        assert((a + b).last() == b.last());
        assert(spec_kept(a + b) =~= spec_kept(a) + spec_kept(b));
        assert(spec_slots(a + b) =~= spec_slots(a) + spec_slots(b));
        assert(spec_fails(a + b) =~= spec_fails(a) + spec_fails(b));
    }
}

/// Merging never disturbs the attributes already present: each keeps its
/// position and its name; produced attributes only overwrite in place or
/// append after them.
pub proof fn lemma_merge_keeps_positions(attrs: Seq<AttrView>, slots: Seq<SlotView>)
    ensures
        spec_merge(attrs, slots).len() >= attrs.len(),
        forall|i: int|
            0 <= i < attrs.len() ==> (#[trigger] spec_merge(attrs, slots)[i]).name
                == attrs[i].name,
    decreases slots,
{
    if slots.len() > 0 {
        lemma_merge_keeps_positions(attrs, slots.drop_last());
        let prev = spec_merge(attrs, slots.drop_last());
        let s = slots.last();
        lemma_spec_find_props(prev, s.name);
    }
}

/// Round-trip stability: running the transform twice gives the same tree
/// as running it once, and the second run emits no diagnostic.
pub proof fn lemma_transform_idempotent(e: ElemView)
    ensures
        spec_transform(spec_transform(e)) == spec_transform(e),
        spec_transform_diags(spec_transform(e)) == Seq::<crate::tree::Diag>::empty(),
{
    lemma_transform_slot_free(e);
    lemma_slot_free_noop(spec_transform(e));
}

} // verus!
