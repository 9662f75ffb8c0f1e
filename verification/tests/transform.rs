use react_slot::slot::Slot;
use react_slot::tree::{Attr, AttrValue, Child, Diag, Element, Span, Tag};
use react_slot::visitor::{ReactSlotVisitor, transform_element};

fn sp(n: u32) -> Span {
    Span { lo: n, hi: n + 1 }
}

fn el(tag: &str, attrs: Vec<Attr>, children: Vec<Child>, s: u32) -> Element {
    Element { tag: Tag::Ident(tag.to_string()), attrs, children, span: sp(s) }
}

fn name_attr(v: &str) -> Attr {
    Attr { name: "name".to_string(), value: Some(AttrValue::StrLit(v.to_string())) }
}

fn str_attr(n: &str, v: &str) -> Attr {
    Attr { name: n.to_string(), value: Some(AttrValue::StrLit(v.to_string())) }
}

fn run(e: Element) -> (Element, Vec<Diag>) {
    let mut diags: Vec<Diag> = Vec::new();
    let r = transform_element(e, &mut diags);
    (r, diags)
}

fn tag_eq(a: &Tag, b: &Tag) -> bool {
    match (a, b) {
        (Tag::Ident(x), Tag::Ident(y)) => x == y,
        (Tag::Opaque(x), Tag::Opaque(y)) => x == y,
        _ => false,
    }
}

fn attr_value_eq(a: &AttrValue, b: &AttrValue) -> bool {
    match (a, b) {
        (AttrValue::StrLit(x), AttrValue::StrLit(y)) => x == y,
        (AttrValue::Fragment(x), AttrValue::Fragment(y)) => children_eq(x, y),
        (AttrValue::Opaque(x), AttrValue::Opaque(y)) => x == y,
        _ => false,
    }
}

fn attr_eq(a: &Attr, b: &Attr) -> bool {
    a.name == b.name
        && match (&a.value, &b.value) {
            (Some(x), Some(y)) => attr_value_eq(x, y),
            (None, None) => true,
            _ => false,
        }
}

fn child_eq(a: &Child, b: &Child) -> bool {
    match (a, b) {
        (Child::Element(x), Child::Element(y)) => elem_eq(x, y),
        (Child::Opaque(x), Child::Opaque(y)) => x == y,
        _ => false,
    }
}

fn children_eq(a: &[Child], b: &[Child]) -> bool {
    a.len() == b.len() && a.iter().zip(b.iter()).all(|(x, y)| child_eq(x, y))
}

fn elem_eq(a: &Element, b: &Element) -> bool {
    tag_eq(&a.tag, &b.tag)
        && a.span == b.span
        && a.attrs.len() == b.attrs.len()
        && a.attrs.iter().zip(b.attrs.iter()).all(|(x, y)| attr_eq(x, y))
        && children_eq(&a.children, &b.children)
}

/// The fragment value of the attribute, or a panic if it is not one.
fn fragment_of(a: &Attr) -> &Vec<Child> {
    match &a.value {
        Some(AttrValue::Fragment(cs)) => cs,
        _ => panic!("attribute {} does not hold a fragment", a.name),
    }
}

#[test]
fn no_slot_children_untouched() {
    let inner = el("p", vec![], vec![Child::Opaque(5)], 2);
    let e = el(
        "div",
        vec![str_attr("foo", "x")],
        vec![Child::Opaque(1), Child::Element(inner)],
        1,
    );
    let (r, diags) = run(e);
    assert!(diags.is_empty());
    assert_eq!(r.attrs.len(), 1);
    assert!(attr_eq(&r.attrs[0], &str_attr("foo", "x")));
    assert_eq!(r.children.len(), 2);
    assert!(child_eq(&r.children[0], &Child::Opaque(1)));
    let expect_inner = el("p", vec![], vec![Child::Opaque(5)], 2);
    assert!(child_eq(&r.children[1], &Child::Element(expect_inner)));
}

#[test]
fn name_collision_overwrites() {
    let slot = el("slot", vec![name_attr("foo")], vec![Child::Opaque(7)], 3);
    let e = el("div", vec![str_attr("foo", "default")], vec![Child::Element(slot)], 1);
    let (r, diags) = run(e);
    assert!(diags.is_empty());
    assert!(r.children.is_empty());
    assert_eq!(r.attrs.len(), 1);
    assert_eq!(r.attrs[0].name, "foo");
    let frag = fragment_of(&r.attrs[0]);
    assert_eq!(frag.len(), 1);
    assert!(child_eq(&frag[0], &Child::Opaque(7)));
}

#[test]
fn order_preserved() {
    let s1 = el("slot", vec![name_attr("s1")], vec![Child::Opaque(2)], 10);
    let s2 = el("slot", vec![name_attr("s2")], vec![Child::Opaque(4)], 11);
    let e = el(
        "div",
        vec![],
        vec![
            Child::Opaque(1),
            Child::Element(s1),
            Child::Opaque(3),
            Child::Element(s2),
        ],
        1,
    );
    let (r, diags) = run(e);
    assert!(diags.is_empty());
    assert_eq!(r.children.len(), 2);
    assert!(child_eq(&r.children[0], &Child::Opaque(1)));
    assert!(child_eq(&r.children[1], &Child::Opaque(3)));
    assert_eq!(r.attrs.len(), 2);
    assert_eq!(r.attrs[0].name, "s1");
    assert_eq!(r.attrs[1].name, "s2");
    assert!(children_eq(fragment_of(&r.attrs[0]), &[Child::Opaque(2)]));
    assert!(children_eq(fragment_of(&r.attrs[1]), &[Child::Opaque(4)]));
}

#[test]
fn nested_slot_resolved_bottom_up() {
    // <div><slot name="outer"><section><slot name="inner">Z</slot></section></slot></div>
    let inner = el("slot", vec![name_attr("inner")], vec![Child::Opaque(9)], 4);
    let section = el("section", vec![], vec![Child::Element(inner)], 3);
    let outer = el("slot", vec![name_attr("outer")], vec![Child::Element(section)], 2);
    let e = el("div", vec![], vec![Child::Element(outer)], 1);
    let (r, diags) = run(e);
    assert!(diags.is_empty());
    assert!(r.children.is_empty());
    assert_eq!(r.attrs.len(), 1);
    assert_eq!(r.attrs[0].name, "outer");
    let frag = fragment_of(&r.attrs[0]);
    assert_eq!(frag.len(), 1);
    let section_out = match &frag[0] {
        Child::Element(x) => x,
        _ => panic!("expected an element in the outer fragment"),
    };
    assert!(tag_eq(&section_out.tag, &Tag::Ident("section".to_string())));
    assert!(section_out.children.is_empty());
    assert_eq!(section_out.attrs.len(), 1);
    assert_eq!(section_out.attrs[0].name, "inner");
    assert!(children_eq(fragment_of(&section_out.attrs[0]), &[Child::Opaque(9)]));
}

#[test]
fn directly_nested_slot_consumed_with_fragment_emptied() {
    // The inner slot is resolved onto the outer slot element first; the
    // outer slot's own children are then its fragment, which is empty,
    // and its attributes other than `name` are discarded.
    let inner = el("slot", vec![name_attr("inner")], vec![Child::Opaque(9)], 3);
    let outer = el("slot", vec![name_attr("outer")], vec![Child::Element(inner)], 2);
    let e = el("div", vec![], vec![Child::Element(outer)], 1);
    let (r, diags) = run(e);
    assert!(diags.is_empty());
    assert!(r.children.is_empty());
    assert_eq!(r.attrs.len(), 1);
    assert_eq!(r.attrs[0].name, "outer");
    assert!(fragment_of(&r.attrs[0]).is_empty());
}

#[test]
fn missing_name_diagnostic() {
    let bad = el("slot", vec![], vec![Child::Opaque(1)], 9);
    let e = el("div", vec![], vec![Child::Element(bad)], 5);
    let (r, diags) = run(e);
    assert_eq!(diags.len(), 1);
    assert_eq!(diags[0].span, sp(9));
    assert!(r.attrs.is_empty());
    assert!(r.children.is_empty());
    assert!(!diags[0].message().is_empty());
}

#[test]
fn empty_name_diagnostic() {
    let bad = el("slot", vec![name_attr("")], vec![Child::Opaque(1)], 7);
    let e = el("div", vec![], vec![Child::Element(bad)], 5);
    let (r, diags) = run(e);
    assert_eq!(diags.len(), 1);
    assert_eq!(diags[0].span, sp(7));
    assert!(r.attrs.is_empty());
    assert!(r.children.is_empty());
}

#[test]
fn non_literal_name_diagnostic() {
    let bad = el(
        "slot",
        vec![Attr { name: "name".to_string(), value: Some(AttrValue::Opaque(3)) }],
        vec![Child::Opaque(1)],
        8,
    );
    let e = el("div", vec![], vec![Child::Element(bad)], 5);
    let (r, diags) = run(e);
    assert_eq!(diags.len(), 1);
    assert_eq!(diags[0].span, sp(8));
    assert!(r.attrs.is_empty());
    assert!(r.children.is_empty());
}

#[test]
fn name_scan_skips_non_literal_values() {
    let slot = el(
        "slot",
        vec![
            Attr { name: "name".to_string(), value: Some(AttrValue::Opaque(3)) },
            name_attr("x"),
        ],
        vec![],
        2,
    );
    let e = el("div", vec![], vec![Child::Element(slot)], 1);
    let (r, diags) = run(e);
    assert!(diags.is_empty());
    assert_eq!(r.attrs.len(), 1);
    assert_eq!(r.attrs[0].name, "x");
}

#[test]
fn first_literal_name_wins() {
    let slot = el("slot", vec![name_attr("a"), name_attr("b")], vec![], 2);
    let e = el("div", vec![], vec![Child::Element(slot)], 1);
    let (r, diags) = run(e);
    assert!(diags.is_empty());
    assert_eq!(r.attrs.len(), 1);
    assert_eq!(r.attrs[0].name, "a");
}

#[test]
fn roundtrip_stable() {
    let build = || {
        let s1 = el("slot", vec![name_attr("s1")], vec![Child::Opaque(2)], 10);
        let inner = el("slot", vec![name_attr("deep")], vec![Child::Opaque(6)], 12);
        let p = el("p", vec![], vec![Child::Element(inner), Child::Opaque(8)], 11);
        el(
            "div",
            vec![str_attr("s1", "preset")],
            vec![Child::Element(s1), Child::Opaque(1), Child::Element(p)],
            1,
        )
    };
    let (once, d1) = run(build());
    assert!(d1.is_empty());
    let (twice, d2) = run(build());
    let (twice, d3) = run(twice);
    assert!(d2.is_empty());
    assert!(d3.is_empty());
    assert!(elem_eq(&once, &twice));
}

#[test]
fn diagnostics_do_not_cross_element_boundaries() {
    let bad = el("slot", vec![], vec![Child::Opaque(1)], 20);
    let deep = el("p", vec![], vec![Child::Element(bad)], 19);
    let good = el("em", vec![], vec![Child::Opaque(2)], 18);
    let e = el("div", vec![], vec![Child::Element(deep), Child::Element(good)], 1);
    let (r, diags) = run(e);
    assert_eq!(diags.len(), 1);
    assert_eq!(diags[0].span, sp(20));
    assert_eq!(r.children.len(), 2);
    match &r.children[0] {
        Child::Element(p) => {
            assert!(p.children.is_empty());
            assert!(p.attrs.is_empty());
        },
        _ => panic!("expected the p element"),
    }
    let expect_good = el("em", vec![], vec![Child::Opaque(2)], 18);
    assert!(child_eq(&r.children[1], &Child::Element(expect_good)));
}

#[test]
fn is_slot_judges_the_tag() {
    let s = el("slot", vec![], vec![], 1);
    assert!(Slot::is_slot(&s));
    let d = el("div", vec![name_attr("x")], vec![], 1);
    assert!(!Slot::is_slot(&d));
    let o = Element { tag: Tag::Opaque(3), attrs: vec![], children: vec![], span: sp(1) };
    assert!(!Slot::is_slot(&o));
}

#[test]
fn try_new_requires_a_usable_name() {
    assert!(Slot::try_new(el("slot", vec![], vec![], 1)).is_none());
    assert!(Slot::try_new(el("slot", vec![name_attr("")], vec![], 1)).is_none());
    let s = Slot::try_new(el("slot", vec![name_attr("x")], vec![Child::Opaque(4)], 1))
        .expect("a named slot constructs");
    assert_eq!(s.name, "x");
    assert_eq!(s.fragment.len(), 1);
    assert!(child_eq(&s.fragment[0], &Child::Opaque(4)));
    assert_eq!(s.span, sp(1));
}

#[test]
fn into_jsx_attr_wraps_the_fragment() {
    let s = Slot {
        name: "x".to_string(),
        fragment: vec![Child::Opaque(4)],
        span: sp(1),
    };
    let a = s.into_jsx_attr();
    assert_eq!(a.name, "x");
    match a.value {
        Some(AttrValue::Fragment(cs)) => {
            assert!(children_eq(&cs, &[Child::Opaque(4)]));
        },
        _ => panic!("expected a fragment value"),
    }
}

#[test]
fn extract_slots_removes_candidates_in_place() {
    let s1 = el("slot", vec![name_attr("a")], vec![Child::Opaque(2)], 10);
    let bad = el("slot", vec![], vec![], 11);
    let mut e = el(
        "div",
        vec![str_attr("keep", "me")],
        vec![Child::Opaque(1), Child::Element(s1), Child::Element(bad), Child::Opaque(3)],
        1,
    );
    let mut diags: Vec<Diag> = Vec::new();
    let slots = Slot::extract_slots(&mut e, &mut diags);
    assert_eq!(slots.len(), 1);
    assert_eq!(slots[0].name, "a");
    assert_eq!(diags.len(), 1);
    assert_eq!(diags[0].span, sp(11));
    assert_eq!(e.children.len(), 2);
    assert!(child_eq(&e.children[0], &Child::Opaque(1)));
    assert!(child_eq(&e.children[1], &Child::Opaque(3)));
    assert_eq!(e.attrs.len(), 1);
    assert!(attr_eq(&e.attrs[0], &str_attr("keep", "me")));
}

#[test]
fn visitor_accumulates_diagnostics() {
    let mut v = ReactSlotVisitor::new();
    assert!(v.diags.is_empty());
    let mut a = el("div", vec![], vec![Child::Element(el("slot", vec![], vec![], 4))], 1);
    v.visit_mut_jsx_element(&mut a);
    assert_eq!(v.diags.len(), 1);
    assert_eq!(v.diags[0].span, sp(4));
    assert!(a.children.is_empty());
    let mut b = el(
        "div",
        vec![],
        vec![Child::Element(el("slot", vec![name_attr("s")], vec![], 6))],
        5,
    );
    v.visit_mut_jsx_element(&mut b);
    assert_eq!(v.diags.len(), 1);
    assert_eq!(b.attrs.len(), 1);
    assert_eq!(b.attrs[0].name, "s");
}

#[test]
fn name_attr_matched_in_any_position() {
    let slot = el(
        "slot",
        vec![str_attr("class", "wide"), name_attr("side")],
        vec![Child::Opaque(2)],
        3,
    );
    let e = el("div", vec![], vec![Child::Element(slot)], 1);
    let (r, diags) = run(e);
    assert!(diags.is_empty());
    assert_eq!(r.attrs.len(), 1);
    assert_eq!(r.attrs[0].name, "side");
    assert!(children_eq(fragment_of(&r.attrs[0]), &[Child::Opaque(2)]));
}

#[test]
fn root_slot_element_is_not_extracted() {
    // Extraction applies to children only: a slot element at the root
    // keeps its tag and resolves its own slot children like any element.
    let inner = el("slot", vec![name_attr("x")], vec![Child::Opaque(2)], 3);
    let root = el("slot", vec![name_attr("keep")], vec![Child::Element(inner)], 1);
    let (r, diags) = run(root);
    assert!(diags.is_empty());
    assert!(tag_eq(&r.tag, &Tag::Ident("slot".to_string())));
    assert_eq!(r.attrs.len(), 2);
    assert!(attr_eq(&r.attrs[0], &name_attr("keep")));
    assert_eq!(r.attrs[1].name, "x");
    assert!(r.children.is_empty());
}

#[test]
fn two_slots_same_name_resolve_to_one_attribute() {
    let s1 = el("slot", vec![name_attr("dup")], vec![Child::Opaque(1)], 3);
    let s2 = el("slot", vec![name_attr("dup")], vec![Child::Opaque(2)], 4);
    let e = el("div", vec![], vec![Child::Element(s1), Child::Element(s2)], 1);
    let (r, diags) = run(e);
    assert!(diags.is_empty());
    assert_eq!(r.attrs.len(), 1);
    assert_eq!(r.attrs[0].name, "dup");
    assert!(children_eq(fragment_of(&r.attrs[0]), &[Child::Opaque(2)]));
}
