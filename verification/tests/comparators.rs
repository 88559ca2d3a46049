use rspack_chunks::comparators::{
    compare_ids, compare_modules_by_identifier, compare_modules_by_identifier_iter, compare_numbers,
    compare_strs, str_equals, Identifier,
};
use std::cmp::Ordering;

#[test]
fn test_compare_ids() {
    assert_eq!(compare_ids("abc", "def"), Ordering::Less);
    assert_eq!(compare_ids("DEF", "abc"), Ordering::Greater);
    assert_eq!(compare_ids("abc", "ABC"), Ordering::Equal);
}

#[test]
fn test_compare_numbers() {
    assert_eq!(compare_numbers(1, 2), Ordering::Less);
    assert_eq!(compare_numbers(2, 1), Ordering::Greater);
    assert_eq!(compare_numbers(1, 1), Ordering::Equal);
}

#[test]
fn test_compare_modules_by_identifier() {
    assert_eq!(
        compare_modules_by_identifier(&Identifier::from("abc"), &Identifier::from("def")),
        Ordering::Less
    );
    assert_eq!(
        compare_modules_by_identifier(&Identifier::from("DEF"), &Identifier::from("abc")),
        Ordering::Greater
    );
    assert_eq!(
        compare_modules_by_identifier(&Identifier::from("abc"), &Identifier::from("ABC")),
        Ordering::Equal
    );
}

#[test]
fn compare_ids_lowercases_before_comparing() {
    // 'Z' < 'a' by code point, but lowercased "z" > "a".
    assert_eq!(compare_strs("Zebra", "apple"), Ordering::Less);
    assert_eq!(compare_ids("Zebra", "apple"), Ordering::Greater);
    assert_eq!(compare_ids("ÄPFEL", "äpfel"), Ordering::Equal);
}

#[test]
fn compare_ids_is_antisymmetric_on_examples() {
    let pairs = [("a", "b"), ("B", "a"), ("x", "X"), ("ab", "a"), ("", "a")];
    for (a, b) in pairs.iter() {
        let ab = compare_ids(a, b);
        let ba = compare_ids(b, a);
        assert_eq!(ab, ba.reverse());
    }
}

#[test]
fn compare_strs_orders_by_code_points_and_prefix() {
    assert_eq!(compare_strs("", ""), Ordering::Equal);
    assert_eq!(compare_strs("ab", "abc"), Ordering::Less);
    assert_eq!(compare_strs("abd", "abc"), Ordering::Greater);
    assert!(str_equals("same", "same"));
    assert!(!str_equals("same", "Same"));
}

#[test]
fn compare_modules_by_identifier_iter_first_difference_decides() {
    let ids = |v: &[&str]| v.iter().map(|s| s.to_string()).collect::<Vec<String>>();
    let mut a = ids(&["a", "B", "c"]).into_iter();
    let mut b = ids(&["A", "b", "D"]).into_iter();
    assert_eq!(compare_modules_by_identifier_iter(&mut a, &mut b), Ordering::Less);
    let mut a = ids(&["a", "b"]).into_iter();
    let mut b = ids(&["A", "B"]).into_iter();
    assert_eq!(compare_modules_by_identifier_iter(&mut a, &mut b), Ordering::Equal);
    let mut a = ids(&["a", "b"]).into_iter();
    let mut b = ids(&["a"]).into_iter();
    assert_eq!(compare_modules_by_identifier_iter(&mut a, &mut b), Ordering::Greater);
    let mut a = ids(&[]).into_iter();
    let mut b = ids(&["a"]).into_iter();
    assert_eq!(compare_modules_by_identifier_iter(&mut a, &mut b), Ordering::Less);
}

#[test]
fn compare_numbers_is_transitive_on_examples() {
    assert_eq!(compare_numbers(1, 2), Ordering::Less);
    assert_eq!(compare_numbers(2, 3), Ordering::Less);
    assert_eq!(compare_numbers(1, 3), Ordering::Less);
    assert_eq!(compare_numbers(usize::MAX, 0), Ordering::Greater);
}
