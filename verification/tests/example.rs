use xml::example::{add, sub};

#[test]
fn test_add() {
    assert_eq!(3, add(2, 1));
}

#[test]
fn test_sub() {
    assert_eq!(1, sub(2, 1));
}

#[test]
fn test_add_sub_bounds() {
    assert_eq!(i32::MAX, add(i32::MAX - 1, 1));
    assert_eq!(i32::MIN, sub(i32::MIN + 1, 1));
    assert_eq!(-3, sub(-1, 2));
}
