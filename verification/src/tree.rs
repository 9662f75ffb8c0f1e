//! The markup tree the transform works on, together with its mathematical
//! model.
//!
//! The executable types (`Element`, `Child`, `Attr`, ...) hold exactly what
//! the slot rules ever read: identifier tags, attribute names, literal
//! string attribute values, child order, and source positions.  Every other
//! shape the host syntax allows (member-expression tags, embedded
//! expressions, text, spread attributes, ...) is carried as an opaque
//! handle that the transform moves around but never inspects, so a caller
//! can map its own nodes to handles and back.
//!
//! The `...View` types are the spec-level mirror: sequences in place of
//! vectors and character sequences in place of strings.  All contracts in
//! this crate are stated over these views.

use vstd::prelude::*;

verus! {

/// A half-open byte range locating a node in the source text, used to point
/// diagnostics at the offending element.
#[derive(Clone, Copy, PartialEq, Eq, Structural, Debug)]
pub struct Span {
    pub lo: u32,
    pub hi: u32,
}

/// The tag of a markup element: a plain identifier (the only tag shape the
/// slot rules inspect) or an opaque handle for any other shape.
#[derive(Debug)]
pub enum Tag {
    Ident(String),
    Opaque(u64),
}

/// The value of an attribute: a literal string, an expression container
/// holding a fragment of children (the shape the transform writes), or an
/// opaque handle for any other expression.
#[derive(Debug)]
pub enum AttrValue {
    StrLit(String),
    Fragment(Vec<Child>),
    Opaque(u64),
}

/// A named attribute of a markup element.  A `None` value models a bare
/// attribute written without `=`.
#[derive(Debug)]
pub struct Attr {
    pub name: String,
    pub value: Option<AttrValue>,
}

/// One child of a markup element: a nested element, or an opaque handle
/// standing for text or an embedded expression.
#[derive(Debug)]
pub enum Child {
    Element(Element),
    Opaque(u64),
}

/// A markup element: its tag, ordered attribute list, ordered child list,
/// and source position.
#[derive(Debug)]
pub struct Element {
    pub tag: Tag,
    pub attrs: Vec<Attr>,
    pub children: Vec<Child>,
    pub span: Span,
}

/// A non-fatal report pointing at one malformed slot element.  The message
/// text is the same for every diagnostic; see [`Diag::message`].
#[derive(Clone, Copy, PartialEq, Eq, Structural, Debug)]
pub struct Diag {
    pub span: Span,
}

impl Diag {
    /// The advice shown to the author for a malformed slot.
    pub fn message(&self) -> (r: String)
        ensures
            r@ == "slot has no valid name attribute; provide a literal string as: name=\"slotName\""@,
    {
        "slot has no valid name attribute; provide a literal string as: name=\"slotName\"".to_owned()
    }
}

/// Spec-level mirror of [`Tag`].
#[verifier::ext_equal]
pub enum TagView {
    Ident(Seq<char>),
    Opaque(u64),
}

/// Spec-level mirror of [`AttrValue`].
#[verifier::ext_equal]
pub enum AttrValueView {
    StrLit(Seq<char>),
    Fragment(Seq<ChildView>),
    Opaque(u64),
}

/// Spec-level mirror of [`Attr`].
#[verifier::ext_equal]
pub struct AttrView {
    pub name: Seq<char>,
    pub value: Option<AttrValueView>,
}

/// Spec-level mirror of [`Child`].
#[verifier::ext_equal]
pub enum ChildView {
    Element(ElemView),
    Opaque(u64),
}

/// Spec-level mirror of [`Element`].
#[verifier::ext_equal]
pub struct ElemView {
    pub tag: TagView,
    pub attrs: Seq<AttrView>,
    pub children: Seq<ChildView>,
    pub span: Span,
}

impl View for Tag {
    type V = TagView;

    open spec fn view(&self) -> TagView {
        match *self {
            Tag::Ident(s) => TagView::Ident(s@),
            Tag::Opaque(h) => TagView::Opaque(h),
        }
    }
}

/// The view of a vector of children, element by element, in order.
pub open spec fn view_children(cs: Seq<Child>) -> Seq<ChildView>
    decreases cs,
{
    if cs.len() == 0 {
        Seq::empty()
    } else {
        view_children(cs.drop_last()).push(view_child(cs.last()))
    }
}

/// The view of one child.
pub open spec fn view_child(c: Child) -> ChildView
    decreases c,
{
    match c {
        Child::Element(e) => ChildView::Element(view_elem(e)),
        Child::Opaque(h) => ChildView::Opaque(h),
    }
}

/// The view of a vector of attributes, element by element, in order.
pub open spec fn view_attrs(attrs: Seq<Attr>) -> Seq<AttrView>
    decreases attrs,
{
    if attrs.len() == 0 {
        Seq::empty()
    } else {
        view_attrs(attrs.drop_last()).push(view_attr(attrs.last()))
    }
}

/// The view of one attribute.
pub open spec fn view_attr(a: Attr) -> AttrView
    decreases a,
{
    AttrView {
        name: a.name@,
        value: match a.value {
            Some(v) => Some(view_attr_value(v)),
            None => None,
        },
    }
}

/// The view of one attribute value.
pub open spec fn view_attr_value(v: AttrValue) -> AttrValueView
    decreases v,
{
    match v {
        AttrValue::StrLit(s) => AttrValueView::StrLit(s@),
        AttrValue::Fragment(cs) => AttrValueView::Fragment(view_children(cs@)),
        AttrValue::Opaque(h) => AttrValueView::Opaque(h),
    }
}

/// The view of one element.
pub open spec fn view_elem(e: Element) -> ElemView
    decreases e,
{
    ElemView {
        tag: e.tag@,
        attrs: view_attrs(e.attrs@),
        children: view_children(e.children@),
        span: e.span,
    }
}

impl View for Child {
    type V = ChildView;

    open spec fn view(&self) -> ChildView {
        view_child(*self)
    }
}

impl View for Attr {
    type V = AttrView;

    open spec fn view(&self) -> AttrView {
        view_attr(*self)
    }
}

impl View for AttrValue {
    type V = AttrValueView;

    open spec fn view(&self) -> AttrValueView {
        view_attr_value(*self)
    }
}

impl View for Element {
    type V = ElemView;

    open spec fn view(&self) -> ElemView {
        view_elem(*self)
    }
}

/// `view_children` applied index by index.
pub broadcast proof fn lemma_view_children_len(cs: Seq<Child>)
    ensures
        (#[trigger] view_children(cs)).len() == cs.len(),
    decreases cs,
{
    if cs.len() > 0 {
        lemma_view_children_len(cs.drop_last());
    }
}

/// Each position of `view_children` is the view of the child at that
/// position.
pub broadcast proof fn lemma_view_children_index(cs: Seq<Child>, i: int)
    requires
        0 <= i < cs.len(),
    ensures
        #[trigger] view_children(cs)[i] == view_child(cs[i]),
    decreases cs,
{
    lemma_view_children_len(cs);
    if i < cs.len() - 1 {
        lemma_view_children_index(cs.drop_last(), i);
    }
}

/// Taking one more element of a sequence appends exactly the element at
/// that position.
pub proof fn lemma_take_step<T>(s: Seq<T>, k: int)
    requires
        0 <= k < s.len(),
    ensures
        s.take(k + 1).drop_last() == s.take(k),
        s.take(k + 1).last() == s[k],
{
    assert(s.take(k + 1).drop_last() =~= s.take(k));
}

/// A pushed sequence splits back into its two parts.
pub proof fn lemma_push_parts<T>(s: Seq<T>, x: T)
    ensures
        s.push(x).drop_last() == s,
        s.push(x).last() == x,
{
    assert(s.push(x).drop_last() =~= s);
}

/// `view_children` commutes with `push`.
pub proof fn lemma_view_children_push(cs: Seq<Child>, c: Child)
    ensures
        view_children(cs.push(c)) == view_children(cs).push(view_child(c)),
{
    lemma_push_parts(cs, c);
}

/// `view_attrs` commutes with `push`.
pub proof fn lemma_view_attrs_push(attrs: Seq<Attr>, a: Attr)
    ensures
        view_attrs(attrs.push(a)) == view_attrs(attrs).push(view_attr(a)),
{
    lemma_push_parts(attrs, a);
}

/// `view_attrs` commutes with `update`.
pub proof fn lemma_view_attrs_update(attrs: Seq<Attr>, j: int, a: Attr)
    requires
        0 <= j < attrs.len(),
    ensures
        view_attrs(attrs.update(j, a)) == view_attrs(attrs).update(j, view_attr(a)),
    decreases attrs,
{
    lemma_view_attrs_len(attrs);
    let u = attrs.update(j, a);
    assert(u.len() == attrs.len());
    if j == attrs.len() - 1 {
        assert(u.drop_last() =~= attrs.drop_last());
        assert(u.last() == a);
        assert(view_attrs(attrs).update(j, view_attr(a)) =~= view_attrs(
            attrs.drop_last(),
        ).push(view_attr(a)));
    } else {
        assert(u.drop_last() =~= attrs.drop_last().update(j, a));
        assert(u.last() == attrs.last());
        lemma_view_attrs_update(attrs.drop_last(), j, a);
        lemma_view_attrs_len(attrs.drop_last());
        assert(view_attrs(attrs).update(j, view_attr(a)) =~= view_attrs(
            attrs.drop_last(),
        ).update(j, view_attr(a)).push(view_attr(attrs.last())));
    }
}

/// `view_attrs` preserves length.
pub broadcast proof fn lemma_view_attrs_len(attrs: Seq<Attr>)
    ensures
        (#[trigger] view_attrs(attrs)).len() == attrs.len(),
    decreases attrs,
{
    if attrs.len() > 0 {
        lemma_view_attrs_len(attrs.drop_last());
    }
}

/// Each position of `view_attrs` is the view of the attribute at that
/// position.
pub broadcast proof fn lemma_view_attrs_index(attrs: Seq<Attr>, i: int)
    requires
        0 <= i < attrs.len(),
    ensures
        #[trigger] view_attrs(attrs)[i] == view_attr(attrs[i]),
    decreases attrs,
{
    lemma_view_attrs_len(attrs);
    if i < attrs.len() - 1 {
        lemma_view_attrs_index(attrs.drop_last(), i);
    }
}

} // verus!
