//! The tree visitor: a post-order rewrite that resolves slot children
//! bottom up and merges the attributes they produce into their enclosing
//! element.
//!
//! Per element, in order: every child is transformed first, so slots
//! nested anywhere below are already resolved; then the slot candidates
//! among the direct children are removed and constructed; then each
//! produced attribute is merged into the element's attribute list,
//! overwriting the first existing attribute of the same name or appended
//! at the end.  The whole rewrite is a total function of the input tree,
//! given by [`spec_transform`], and the diagnostics it emits are given by
//! [`spec_transform_diags`].

use vstd::prelude::*;

use crate::slot::{
    Slot, lemma_view_slots_index, lemma_view_slots_len, spec_fails, spec_kept, spec_slot_attr,
    spec_slots, view_slots,
};
use crate::tree::{
    Attr, AttrView, Child, ChildView, Diag, Element, ElemView, lemma_take_step,
    lemma_view_attrs_index, lemma_view_attrs_len, lemma_view_attrs_push,
    lemma_view_attrs_update, lemma_view_children_index, lemma_view_children_len,
    lemma_view_children_push, view_attrs, view_child, view_children, view_elem,
};

verus! {

/// One child after the children of an element have been transformed: a
/// nested element is rewritten, anything else is carried unchanged.
pub open spec fn spec_rec_child(c: ChildView) -> ChildView
    decreases c,
{
    match c {
        ChildView::Element(e) => ChildView::Element(spec_transform(e)),
        ChildView::Opaque(h) => ChildView::Opaque(h),
    }
}

/// A child list after each nested element has been transformed, in order.
pub open spec fn spec_rec_children(cs: Seq<ChildView>) -> Seq<ChildView>
    decreases cs,
{
    if cs.len() == 0 {
        Seq::empty()
    } else {
        spec_rec_children(cs.drop_last()).push(spec_rec_child(cs.last()))
    }
}

/// The transformed element: children rewritten bottom up, slot candidates
/// then removed from the child list, and the attributes they produce
/// merged into the attribute list in first-seen order.
pub open spec fn spec_transform(e: ElemView) -> ElemView
    decreases e,
{
    let rc = spec_rec_children(e.children);
    ElemView {
        tag: e.tag,
        attrs: spec_merge(e.attrs, spec_slots(rc)),
        children: spec_kept(rc),
        span: e.span,
    }
}

/// The position of the first attribute with the given name, if any.
pub open spec fn spec_find(attrs: Seq<AttrView>, name: Seq<char>) -> Option<int>
    decreases attrs,
{
    if attrs.len() == 0 {
        None
    } else if attrs[0].name == name {
        Some(0)
    } else {
        match spec_find(attrs.drop_first(), name) {
            Some(i) => Some(i + 1),
            None => None,
        }
    }
}

/// Merge one produced attribute: overwrite the value of the first
/// existing attribute of the same name, or append a new attribute.
pub open spec fn spec_merge_one(attrs: Seq<AttrView>, s: crate::slot::SlotView) -> Seq<AttrView> {
    match spec_find(attrs, s.name) {
        Some(i) => attrs.update(i, spec_slot_attr(s)),
        None => attrs.push(spec_slot_attr(s)),
    }
}

/// Merge the attributes produced by a list of slots, left to right.
pub open spec fn spec_merge(attrs: Seq<AttrView>, slots: Seq<crate::slot::SlotView>) -> Seq<
    AttrView,
>
    decreases slots,
{
    if slots.len() == 0 {
        attrs
    } else {
        spec_merge_one(spec_merge(attrs, slots.drop_last()), slots.last())
    }
}

/// The diagnostics the transform of one element emits, in order: those of
/// its children first (post-order), then one per slot candidate of its own
/// child list whose construction fails.
pub open spec fn spec_transform_diags(e: ElemView) -> Seq<Diag>
    decreases e, 1int,
{
    spec_children_diags(e.children) + spec_fails(spec_rec_children(e.children))
}

/// The diagnostics emitted while transforming each child of a list, in
/// child order.
pub open spec fn spec_children_diags(cs: Seq<ChildView>) -> Seq<Diag>
    decreases cs, 0int,
{
    if cs.len() == 0 {
        Seq::empty()
    } else {
        spec_children_diags(cs.drop_last()) + match cs.last() {
            ChildView::Element(e) => spec_transform_diags(e),
            ChildView::Opaque(_) => Seq::empty(),
        }
    }
}

/// `spec_rec_children` preserves length.
pub broadcast proof fn lemma_rec_children_len(cs: Seq<ChildView>)
    ensures
        (#[trigger] spec_rec_children(cs)).len() == cs.len(),
    decreases cs,
{
    if cs.len() > 0 {
        lemma_rec_children_len(cs.drop_last());
    }
}

/// Each position of `spec_rec_children` is the transform of the child at
/// that position.
pub broadcast proof fn lemma_rec_children_index(cs: Seq<ChildView>, i: int)
    requires
        0 <= i < cs.len(),
    ensures
        #[trigger] spec_rec_children(cs)[i] == spec_rec_child(cs[i]),
    decreases cs,
{
    lemma_rec_children_len(cs);
    if i < cs.len() - 1 {
        lemma_rec_children_index(cs.drop_last(), i);
    }
}

/// `spec_find` reports the first match: if nothing matches before `j` and
/// `j` matches, the answer is `j`; if nothing matches at all, it is `None`.
pub proof fn lemma_spec_find_at(attrs: Seq<AttrView>, name: Seq<char>, j: int)
    requires
        0 <= j <= attrs.len(),
        forall|m: int| 0 <= m < j ==> attrs[m].name != name,
        j < attrs.len() ==> attrs[j].name == name,
    ensures
        j < attrs.len() ==> spec_find(attrs, name) == Some(j),
        j == attrs.len() ==> spec_find(attrs, name) is None,
    decreases attrs,
{
    if attrs.len() > 0 {
        if j > 0 {
            assert(forall|m: int|
                0 <= m < j - 1 ==> attrs.drop_first()[m].name != name);
            lemma_spec_find_at(attrs.drop_first(), name, j - 1);
        }
    }
}

/// What `spec_find`'s answer means: a found index carries the name looked
/// for and is the first such; `None` means no attribute carries it.
pub proof fn lemma_spec_find_props(attrs: Seq<AttrView>, name: Seq<char>)
    ensures
        match spec_find(attrs, name) {
            Some(i) => 0 <= i < attrs.len() && attrs[i].name == name && forall|m: int|
                0 <= m < i ==> attrs[m].name != name,
            None => forall|m: int| 0 <= m < attrs.len() ==> attrs[m].name != name,
        },
    decreases attrs,
{
    if attrs.len() > 0 && attrs[0].name != name {
        let d = attrs.drop_first();
        lemma_spec_find_props(d, name);
        match spec_find(d, name) {
            Some(i) => {
                assert(attrs[i + 1] == d[i]);
                assert forall|m: int| 0 <= m < i + 1 implies attrs[m].name != name by {
                    if m > 0 {
                        assert(attrs[m] == d[m - 1]);
                    }
                }
            },
            None => {
                assert forall|m: int| 0 <= m < attrs.len() implies attrs[m].name != name by {
                    if m > 0 {
                        assert(attrs[m] == d[m - 1]);
                    }
                }
            },
        }
    }
}

/// Merge one slot into an attribute vector.
fn merge_slot_attr(attrs: &mut Vec<Attr>, slot: Slot)
    ensures
        view_attrs(final(attrs)@) == spec_merge_one(view_attrs(old(attrs)@), slot@),
{
    let ghost va = view_attrs(attrs@);
    proof {
        lemma_view_attrs_len(attrs@);
    }
    let n = attrs.len();
    let mut i: usize = 0;
    let mut idx: Option<usize> = None;
    while i < n
        invariant
            n == attrs@.len(),
            va == view_attrs(attrs@),
            va.len() == n,
            i <= n,
            match idx {
                Some(j) => j < i && va[j as int].name == slot.name@ && forall|m: int|
                    0 <= m < j ==> va[m].name != slot.name@,
                None => forall|m: int| 0 <= m < i ==> va[m].name != slot.name@,
            },
        decreases n - i,
    {
        if idx.is_none() {
            proof {
                lemma_view_attrs_index(attrs@, i as int);
            }
            if attrs[i].name == slot.name {
                idx = Some(i);
            }
        }
        i += 1;
    }
    let ghost sv = slot@;
    let a = slot.into_jsx_attr();
    match idx {
        Some(j) => {
            proof {
                lemma_spec_find_at(va, sv.name, j as int);
                lemma_view_attrs_update(attrs@, j as int, a);
            }
            attrs.set(j, a);
        },
        None => {
            proof {
                lemma_spec_find_at(va, sv.name, n as int);
                lemma_view_attrs_push(attrs@, a);
            }
            attrs.push(a);
        },
    }
}

/// Transform one element, appending the diagnostics the pass emits to
/// `diags`.  The result is exactly [`spec_transform`] of the input, and
/// the appended diagnostics are exactly [`spec_transform_diags`] of it.
#[verifier::loop_isolation(false)]
pub fn transform_element(e: Element, diags: &mut Vec<Diag>) -> (r: Element)
    ensures
        view_elem(r) == spec_transform(view_elem(e)),
        final(diags)@ == old(diags)@ + spec_transform_diags(view_elem(e)),
    decreases e,
{
    let ghost ev = view_elem(e);
    let Element { tag, attrs, children, span } = e;
    let ghost csv = children@;
    let ghost cs0 = view_children(csv);
    proof {
        lemma_view_children_len(csv);
        assert(cs0.take(0) =~= Seq::<ChildView>::empty());
        assert(cs0 == ev.children);
    }
    let mut cs = children;
    let mut rc: Vec<Child> = Vec::new();
    while cs.len() > 0
        invariant
            cs@.len() <= csv.len(),
            cs@ == csv.skip(csv.len() - cs@.len()),
            cs0 == view_children(csv),
            cs0.len() == csv.len(),
            view_children(rc@) == spec_rec_children(cs0.take(csv.len() - cs@.len())),
            diags@ == old(diags)@ + spec_children_diags(cs0.take(csv.len() - cs@.len())),
        decreases cs@.len(),
    {
        let ghost k = csv.len() - cs@.len();
        let c = cs.remove(0);
        let ghost cval = c;
        proof {
            assert(cval == csv[k]);
            lemma_view_children_index(csv, k);
            assert(cs0[k] == view_child(cval));
            lemma_take_step(cs0, k);
            assert(cs@ =~= csv.skip(k + 1));
        }
        match c {
            Child::Element(el) => {
                proof {
                    assert(cval == Child::Element(el));
                    assert(decreases_to!(e => e.children));
                    assert(decreases_to!(e.children => e.children@));
                    assert(e.children@ == csv);
                    assert(decreases_to!(csv => csv[k]));
                    assert(decreases_to!(cval => el));
                    assert(decreases_to!(e => el));
                }
                let t = transform_element(el, diags);
                proof {
                    assert(cs0[k] == ChildView::Element(view_elem(el)));
                    assert(spec_rec_child(cs0[k]) == view_child(Child::Element(t)));
                    assert(spec_rec_children(cs0.take(k + 1)) == spec_rec_children(
                        cs0.take(k),
                    ).push(spec_rec_child(cs0[k])));
                    lemma_view_children_push(rc@, Child::Element(t));
                    assert((old(diags)@ + spec_children_diags(cs0.take(k)))
                        + spec_transform_diags(view_elem(el)) =~= old(diags)@ + (
                    spec_children_diags(cs0.take(k)) + spec_transform_diags(view_elem(el))));
                }
                rc.push(Child::Element(t));
            },
            Child::Opaque(h) => {
                proof {
                    lemma_view_children_push(rc@, Child::Opaque(h));
                    assert(spec_children_diags(cs0.take(k)) + Seq::<Diag>::empty()
                        =~= spec_children_diags(cs0.take(k)));
                }
                rc.push(Child::Opaque(h));
            },
        }
    }
    proof {
        assert(cs0.take(csv.len() as int) =~= cs0);
    }
    let ghost rcv = spec_rec_children(cs0);
    let mut out = Element { tag, attrs, children: rc, span };
    proof {
        assert(view_elem(out).attrs == ev.attrs);
        assert(view_elem(out).tag == ev.tag);
    }
    let mut slots = Slot::extract_slots(&mut out, diags);
    let ghost sv0 = spec_slots(rcv);
    proof {
        lemma_view_slots_len(slots@);
        assert(sv0.take(0) =~= Seq::<crate::slot::SlotView>::empty());
    }
    let ghost slotsv = slots@;
    while slots.len() > 0
        invariant
            slots@.len() <= slotsv.len(),
            slots@ == slotsv.skip(slotsv.len() - slots@.len()),
            view_slots(slotsv) == sv0,
            sv0.len() == slotsv.len(),
            view_attrs(out.attrs@) == spec_merge(ev.attrs, sv0.take(
                slotsv.len() - slots@.len(),
            )),
            out.tag == tag,
            out.span == span,
            view_children(out.children@) == spec_kept(rcv),
            diags@ == old(diags)@ + spec_children_diags(cs0) + spec_fails(rcv),
        decreases slots@.len(),
    {
        let ghost k = slotsv.len() - slots@.len();
        let s = slots.remove(0);
        proof {
            assert(s == slotsv[k]);
            lemma_view_slots_index(slotsv, k);
            lemma_take_step(sv0, k);
            assert(slots@ =~= slotsv.skip(k + 1));
        }
        merge_slot_attr(&mut out.attrs, s);
    }
    proof {
        assert(sv0.take(slotsv.len() as int) =~= sv0);
        assert(view_elem(out) =~= spec_transform(ev));
        assert(old(diags)@ + spec_children_diags(cs0) + spec_fails(rcv) =~= old(diags)@ + (
        spec_children_diags(cs0) + spec_fails(rcv)));
    }
    out
}

/// The visitor driving the pass: it owns the diagnostic sink the
/// transform appends to.
pub struct ReactSlotVisitor {
    pub diags: Vec<Diag>,
}

impl ReactSlotVisitor {
    /// A visitor with an empty diagnostic sink.
    pub fn new() -> (r: Self)
        ensures
            r.diags@ == Seq::<Diag>::empty(),
    {
        ReactSlotVisitor { diags: Vec::new() }
    }

    /// Rewrite `element` in place, appending any diagnostics to the
    /// visitor's sink.
    pub fn visit_mut_jsx_element(&mut self, element: &mut Element)
        ensures
            view_elem(*final(element)) == spec_transform(view_elem(*old(element))),
            final(self).diags@ == old(self).diags@ + spec_transform_diags(
                view_elem(*old(element)),
            ),
    {
        let mut tmp = Element {
            tag: crate::tree::Tag::Opaque(0),
            attrs: Vec::new(),
            children: Vec::new(),
            span: crate::tree::Span { lo: 0, hi: 0 },
        };
        core::mem::swap(element, &mut tmp);
        let out = transform_element(tmp, &mut self.diags);
        *element = out;
    }
}

} // verus!
