use regex::syntax::class::ClassSet;

fn class(ranges: Vec<(u32, u32)>) -> ClassSet {
    ClassSet::new(ranges).expect("the ranges are canonical")
}

#[test]
fn class_rejects_non_canonical_ranges() {
    assert!(ClassSet::new(vec![(5, 4)]).is_none());
    assert!(ClassSet::new(vec![(0, 0x110000)]).is_none());
    assert!(ClassSet::new(vec![(20, 30), (0, 10)]).is_none());
    assert!(ClassSet::new(vec![(0, 10), (10, 20)]).is_none());
    assert!(ClassSet::new(vec![(0, 10), (11, 20)]).is_none());
    assert!(ClassSet::new(vec![(0, 10), (12, 20)]).is_some());
}

#[test]
fn intersection_of_disjoint_classes_is_empty() {
    // The class expression `[a&&b]` over disjoint literal classes.
    let a = class(vec![('a' as u32, 'a' as u32)]);
    let b = class(vec![('b' as u32, 'b' as u32)]);
    let i = a.intersect(&b);
    assert!(i.is_empty());
    assert_eq!(i.as_ranges().len(), 0);
    // The empty class matches nothing, but is a valid value of its own.
    assert!(!i.contains('a' as u32));
    assert!(!i.contains('b' as u32));
}

#[test]
fn difference_splits_a_range() {
    // The class expression `[0-9--4]`: the digits minus `4`.
    let digits = class(vec![('0' as u32, '9' as u32)]);
    let four = class(vec![('4' as u32, '4' as u32)]);
    let d = digits.difference(&four);
    assert_eq!(
        d.as_ranges().as_slice(),
        &[('0' as u32, '3' as u32), ('5' as u32, '9' as u32)]
    );
    assert!(d.contains('0' as u32));
    assert!(d.contains('3' as u32));
    assert!(!d.contains('4' as u32));
    assert!(d.contains('5' as u32));
    assert!(d.contains('9' as u32));
}

#[test]
fn union_merges_overlapping_ranges() {
    let a = class(vec![('a' as u32, 'c' as u32)]);
    let b = class(vec![('b' as u32, 'e' as u32)]);
    let u = a.union(&b);
    assert_eq!(u.as_ranges().as_slice(), &[('a' as u32, 'e' as u32)]);
}

#[test]
fn union_keeps_separated_ranges_apart() {
    let a = class(vec![(10, 20)]);
    let b = class(vec![(30, 40)]);
    let u = a.union(&b);
    assert_eq!(u.as_ranges().as_slice(), &[(10, 20), (30, 40)]);
    // Touching ranges merge.
    let c = class(vec![(21, 29)]);
    let filled = u.union(&c);
    assert_eq!(filled.as_ranges().as_slice(), &[(10, 40)]);
}

#[test]
fn symmetric_difference_drops_the_overlap() {
    let a = class(vec![(10, 20)]);
    let b = class(vec![(15, 25)]);
    let s = a.symmetric_difference(&b);
    assert_eq!(s.as_ranges().as_slice(), &[(10, 14), (21, 25)]);
}

#[test]
fn negation_respects_the_scalar_value_domain() {
    // Negating the empty class yields every scalar value: the surrogate gap
    // stays out of the complement.
    let none = ClassSet::empty();
    let all = none.negate();
    assert_eq!(all.as_ranges().as_slice(), &[(0, 0xD7FF), (0xE000, 0x10FFFF)]);
    assert!(all.contains('a' as u32));
    assert!(!all.contains(0xD800));
    assert!(!all.contains(0xDFFF));
    assert!(all.contains(0x10FFFF));
    // Negating again returns to the empty class.
    let back = all.negate();
    assert!(back.is_empty());
}

#[test]
fn negation_around_a_range() {
    let a = class(vec![('b' as u32, 'd' as u32)]);
    let n = a.negate();
    assert!(n.contains('a' as u32));
    assert!(!n.contains('b' as u32));
    assert!(!n.contains('d' as u32));
    assert!(n.contains('e' as u32));
    assert_eq!(
        n.as_ranges().as_slice(),
        &[(0, 'a' as u32), ('e' as u32, 0xD7FF), (0xE000, 0x10FFFF)]
    );
}
