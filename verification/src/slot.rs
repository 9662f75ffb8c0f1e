//! The slot model: recognition of slot elements, construction of a slot
//! from a raw element, and conversion of a slot into the attribute it
//! fills.
//!
//! A slot is written `<slot name="...">...</slot>`.  An element child is
//! recognized as a slot candidate by its tag alone; whether it carries a
//! usable `name` attribute is only checked during construction, so a slot
//! element without one is removed with a diagnostic rather than silently
//! left in place.  The name must come from an attribute literally named
//! `name` whose value is a non-empty literal string; the attribute list is
//! scanned in order and the first such attribute wins, while a `name`
//! attribute carrying any other value shape does not stop the scan.

use vstd::prelude::*;

use crate::tree::{
    Attr, AttrValue, AttrValueView, AttrView, Child, ChildView, Diag, Element, ElemView, Span,
    Tag, TagView, lemma_take_step, lemma_view_attrs_index, lemma_view_attrs_len,
    lemma_view_children_index, lemma_view_children_len, lemma_view_children_push, view_attr,
    view_attrs, view_child, view_children, view_elem,
};

verus! {

/// One recognized slot occurrence, alive only mid-transform: its name, the
/// content fragment taken verbatim from the slot element's children, and
/// the slot element's source position.
pub struct Slot {
    pub name: String,
    pub fragment: Vec<Child>,
    pub span: Span,
}

/// Spec-level mirror of [`Slot`].
#[verifier::ext_equal]
pub struct SlotView {
    pub name: Seq<char>,
    pub fragment: Seq<ChildView>,
    pub span: Span,
}

impl View for Slot {
    type V = SlotView;

    open spec fn view(&self) -> SlotView {
        SlotView {
            name: self.name@,
            fragment: view_children(self.fragment@),
            span: self.span,
        }
    }
}

/// The view of a vector of slots, in order.
pub open spec fn view_slots(slots: Seq<Slot>) -> Seq<SlotView>
    decreases slots,
{
    if slots.len() == 0 {
        Seq::empty()
    } else {
        view_slots(slots.drop_last()).push(slots.last()@)
    }
}

/// `view_slots` preserves length.
pub broadcast proof fn lemma_view_slots_len(slots: Seq<Slot>)
    ensures
        (#[trigger] view_slots(slots)).len() == slots.len(),
    decreases slots,
{
    if slots.len() > 0 {
        lemma_view_slots_len(slots.drop_last());
    }
}

/// Each position of `view_slots` is the view of the slot at that position.
pub broadcast proof fn lemma_view_slots_index(slots: Seq<Slot>, i: int)
    requires
        0 <= i < slots.len(),
    ensures
        #[trigger] view_slots(slots)[i] == slots[i]@,
    decreases slots,
{
    lemma_view_slots_len(slots);
    if i < slots.len() - 1 {
        lemma_view_slots_index(slots.drop_last(), i);
    }
}

/// `view_slots` commutes with `push`.
pub proof fn lemma_view_slots_push(slots: Seq<Slot>, s: Slot)
    ensures
        view_slots(slots.push(s)) == view_slots(slots).push(s@),
{
    crate::tree::lemma_push_parts(slots, s);
}

/// Whether a tag is the literal identifier `slot`.
pub open spec fn spec_is_slot_tag(t: TagView) -> bool {
    t == TagView::Ident("slot"@)
}

/// Whether a child is a slot candidate: a nested element whose tag is the
/// identifier `slot`.
pub open spec fn spec_is_slot_child(c: ChildView) -> bool {
    match c {
        ChildView::Element(e) => spec_is_slot_tag(e.tag),
        ChildView::Opaque(_) => false,
    }
}

/// The value of the first attribute named `name` that carries a literal
/// string, scanning left to right.  An attribute named `name` with any
/// other value shape is skipped.
pub open spec fn spec_name_lit(attrs: Seq<AttrView>) -> Option<Seq<char>>
    decreases attrs,
{
    if attrs.len() == 0 {
        None
    } else if attrs[0].name == "name"@ && attrs[0].value matches Some(AttrValueView::StrLit(_)) {
        match attrs[0].value {
            Some(AttrValueView::StrLit(s)) => Some(s),
            _ => None,
        }
    } else {
        spec_name_lit(attrs.drop_first())
    }
}

/// The slot a slot element constructs, if any: its name is the first
/// literal-string `name` attribute and must be non-empty; its fragment is
/// the element's child list, verbatim.  `None` when no literal-string
/// `name` attribute exists or the name found is empty.
pub open spec fn spec_slot_of(e: ElemView) -> Option<SlotView> {
    match spec_name_lit(e.attrs) {
        Some(n) => if n.len() > 0 {
            Some(SlotView { name: n, fragment: e.children, span: e.span })
        } else {
            None
        },
        None => None,
    }
}

/// The attribute a slot converts into: the slot's name, valued by an
/// expression container holding the content fragment directly.
pub open spec fn spec_slot_attr(s: SlotView) -> AttrView {
    AttrView { name: s.name, value: Some(AttrValueView::Fragment(s.fragment)) }
}

/// The children kept on an element after slot extraction: all non-slot
/// children, in their original relative order.
pub open spec fn spec_kept(cs: Seq<ChildView>) -> Seq<ChildView>
    decreases cs,
{
    if cs.len() == 0 {
        Seq::empty()
    } else if spec_is_slot_child(cs.last()) {
        spec_kept(cs.drop_last())
    } else {
        spec_kept(cs.drop_last()).push(cs.last())
    }
}

/// The slots successfully constructed from the slot children of a child
/// list, in first-seen order.
pub open spec fn spec_slots(cs: Seq<ChildView>) -> Seq<SlotView>
    decreases cs,
{
    if cs.len() == 0 {
        Seq::empty()
    } else {
        let prefix = spec_slots(cs.drop_last());
        match cs.last() {
            ChildView::Element(e) => if spec_is_slot_tag(e.tag) {
                match spec_slot_of(e) {
                    Some(s) => prefix.push(s),
                    None => prefix,
                }
            } else {
                prefix
            },
            ChildView::Opaque(_) => prefix,
        }
    }
}

/// The diagnostics produced by the slot children of a child list whose
/// construction fails, one per failing slot, in order, each carrying that
/// slot element's position.
pub open spec fn spec_fails(cs: Seq<ChildView>) -> Seq<Diag>
    decreases cs,
{
    if cs.len() == 0 {
        Seq::empty()
    } else {
        let prefix = spec_fails(cs.drop_last());
        match cs.last() {
            ChildView::Element(e) => if spec_is_slot_tag(e.tag) && spec_slot_of(e) is None {
                prefix.push(Diag { span: e.span })
            } else {
                prefix
            },
            ChildView::Opaque(_) => prefix,
        }
    }
}

/// Compares a string against a literal.
fn str_eq(s: &String, lit: &str) -> (r: bool)
    ensures
        r == (s@ == lit@),
{
    let l: String = lit.to_owned();
    *s == l
}

impl Slot {
    /// Whether `element` is a slot candidate, judged by its tag alone.
    pub fn is_slot(element: &Element) -> (r: bool)
        ensures
            r == spec_is_slot_tag(view_elem(*element).tag),
    {
        match &element.tag {
            Tag::Ident(s) => str_eq(s, "slot"),
            Tag::Opaque(_) => false,
        }
    }

    /// The slot name carried by `element`: the value of its first
    /// literal-string `name` attribute, possibly empty.
    pub fn get_slot_name(element: &Element) -> (r: Option<String>)
        ensures
            match r {
                Some(s) => spec_name_lit(view_elem(*element).attrs) == Some(s@),
                None => spec_name_lit(view_elem(*element).attrs) is None,
            },
    {
        let ghost va = view_elem(*element).attrs;
        proof {
            lemma_view_attrs_len(element.attrs@);
            assert(va.skip(0) =~= va);
        }
        let n = element.attrs.len();
        let mut i: usize = 0;
        while i < n
            invariant
                n == element.attrs.len(),
                va == view_attrs(element.attrs@),
                va.len() == n,
                i <= n,
                spec_name_lit(va) == spec_name_lit(va.skip(i as int)),
            decreases n - i,
        {
            proof {
                lemma_view_attrs_index(element.attrs@, i as int);
                assert(va.skip(i as int)[0] == va[i as int]);
                assert(va.skip(i as int).drop_first() =~= va.skip(i + 1));
            }
            let a = &element.attrs[i];
            if str_eq(&a.name, "name") {
                match &a.value {
                    Some(AttrValue::StrLit(s)) => {
                        let r = s.clone();
                        assert(va[i as int].value matches Some(AttrValueView::StrLit(_)));
                        return Some(r);
                    },
                    _ => {
                        assert(!(va[i as int].value matches Some(AttrValueView::StrLit(_))));
                    },
                }
            }
            i += 1;
        }
        proof {
            assert(va.skip(n as int) =~= Seq::<AttrView>::empty());
        }
        None
    }

    /// Construct a slot from a slot element, consuming it: the element's
    /// children become the content fragment verbatim, and every attribute
    /// other than the winning `name` attribute is discarded.  Fails
    /// without producing a slot when the element carries no non-empty
    /// literal-string name.
    pub fn try_new(element: Element) -> (r: Option<Slot>)
        ensures
            match r {
                Some(s) => spec_slot_of(view_elem(element)) == Some(s@),
                None => spec_slot_of(view_elem(element)) is None,
            },
    {
        match Self::get_slot_name(&element) {
            Some(name) => {
                if name.as_str().is_empty() {
                    None
                } else {
                    let Element { tag: _, attrs: _, children, span } = element;
                    Some(Slot { name, fragment: children, span })
                }
            },
            None => None,
        }
    }

    /// Convert this slot into the attribute it fills.
    pub fn into_jsx_attr(self) -> (r: Attr)
        ensures
            view_attr(r) == spec_slot_attr(self@),
    {
        let Slot { name, fragment, span: _ } = self;
        Attr { name, value: Some(AttrValue::Fragment(fragment)) }
    }

    /// Remove every slot candidate from `element`'s child list, keeping
    /// the remaining children in their relative order, and return the
    /// slots that construct successfully, in first-seen order.  Each
    /// candidate whose construction fails is dropped all the same, and
    /// one diagnostic pointing at it is appended to `diags`.  The
    /// element's tag, attributes and position are left untouched.
    pub fn extract_slots(element: &mut Element, diags: &mut Vec<Diag>) -> (r: Vec<Slot>)
        ensures
            final(element).tag == old(element).tag,
            final(element).attrs == old(element).attrs,
            final(element).span == old(element).span,
            view_children(final(element).children@) == spec_kept(
                view_children(old(element).children@),
            ),
            view_slots(r@) == spec_slots(view_children(old(element).children@)),
            final(diags)@ == old(diags)@ + spec_fails(view_children(old(element).children@)),
    {
        let mut cs: Vec<Child> = Vec::new();
        core::mem::swap(&mut element.children, &mut cs);
        let ghost csv = cs@;
        let ghost cs0 = view_children(csv);
        proof {
            lemma_view_children_len(csv);
            assert(cs0.take(0) =~= Seq::<ChildView>::empty());
        }
        let mut kept: Vec<Child> = Vec::new();
        let mut slots: Vec<Slot> = Vec::new();
        while cs.len() > 0
            invariant
                cs@.len() <= csv.len(),
                cs@ == csv.skip(csv.len() - cs@.len()),
                cs0 == view_children(csv),
                cs0.len() == csv.len(),
                view_children(kept@) == spec_kept(cs0.take(csv.len() - cs@.len())),
                view_slots(slots@) == spec_slots(cs0.take(csv.len() - cs@.len())),
                diags@ == old(diags)@ + spec_fails(cs0.take(csv.len() - cs@.len())),
            decreases cs@.len(),
        {
            let ghost k = csv.len() - cs@.len();
            let c = cs.remove(0);
            proof {
                assert(c == csv[k]);
                lemma_view_children_index(csv, k);
                lemma_take_step(cs0, k);
                assert(cs@ =~= csv.skip(k + 1));
            }
            match c {
                Child::Element(el) => {
                    if Slot::is_slot(&el) {
                        let ghost ev = view_elem(el);
                        let sp = el.span;
                        match Slot::try_new(el) {
                            Some(s) => {
                                proof {
                                    lemma_view_slots_push(slots@, s);
                                }
                                slots.push(s);
                            },
                            None => {
                                proof {
                                    assert((old(diags)@ + spec_fails(cs0.take(k))).push(
                                        Diag { span: ev.span },
                                    ) =~= old(diags)@ + spec_fails(cs0.take(k)).push(
                                        Diag { span: ev.span },
                                    ));
                                }
                                diags.push(Diag { span: sp });
                            },
                        }
                    } else {
                        proof {
                            lemma_view_children_push(kept@, Child::Element(el));
                        }
                        kept.push(Child::Element(el));
                    }
                },
                Child::Opaque(h) => {
                    proof {
                        lemma_view_children_push(kept@, Child::Opaque(h));
                    }
                    kept.push(Child::Opaque(h));
                },
            }
        }
        proof {
            assert(cs0.take(csv.len() as int) =~= cs0);
        }
        element.children = kept;
        slots
    }
}

} // verus!
