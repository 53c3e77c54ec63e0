use xml::helper::{take_except, take_until};
use xml::lexical::{name, pi_target};
use xml::scan::Class;

#[test]
fn test_take_except() {
    let (rest, ret) = take_except("aaa", Class::Alpha, "bc").unwrap();
    assert_eq!("", rest);
    assert_eq!("aaa", ret);

    let (rest, ret) = take_except("abc", Class::Alpha, "bc").unwrap();
    assert_eq!("", rest);
    assert_eq!("abc", ret);

    let (rest, ret) = take_except("bca", Class::Alpha, "bc").unwrap();
    assert_eq!("", rest);
    assert_eq!("bca", ret);

    let err = take_except("1", Class::Alpha, "bc").err().unwrap();
    assert_eq!("1", err.input);

    let err = take_except("bc", Class::Alpha, "bc").err().unwrap();
    assert_eq!("bc", err.input);
}

#[test]
fn test_take_until() {
    let (rest, ret) = take_until("aaa", Class::Alpha, "bc").unwrap();
    assert_eq!("", rest);
    assert_eq!("aaa", ret);

    let (rest, ret) = take_until("aabc", Class::Alpha, "bc").unwrap();
    assert_eq!("bc", rest);
    assert_eq!("aa", ret);

    let (rest, ret) = take_until("aaba", Class::Alpha, "bc").unwrap();
    assert_eq!("", rest);
    assert_eq!("aaba", ret);

    let (rest, ret) = take_until("aa1", Class::Alpha, "bc").unwrap();
    assert_eq!("1", rest);
    assert_eq!("aa", ret);

    let err = take_until("1", Class::Alpha, "bc").err().unwrap();
    assert_eq!("1", err.input);

    let err = take_until("bc", Class::Alpha, "bc").err().unwrap();
    assert_eq!("bc", err.input);
}

#[test]
fn take_except_ignores_case() {
    assert!(take_except("BC", Class::Alpha, "bc").is_err());
    assert!(take_except("bC", Class::Alpha, "Bc").is_err());
    let (rest, ret) = take_except("b1", Class::Alpha, "bc").unwrap();
    assert_eq!("1", rest);
    assert_eq!("b", ret);
}

#[test]
fn name_needs_one_character() {
    assert!(name("").is_err());
    assert!(name("%aaa").is_err());
    assert!(name(" a").is_err());
    let (rest, ret) = name("aaa;").unwrap();
    assert_eq!(";", rest);
    assert_eq!("aaa", ret);
    let (rest, ret) = name("a:b-c.d e").unwrap();
    assert_eq!(" e", rest);
    assert_eq!("a:b-c.d", ret);
}

#[test]
fn name_may_start_with_a_digit() {
    let (rest, ret) = name("1a>").unwrap();
    assert_eq!(">", rest);
    assert_eq!("1a", ret);
}

#[test]
fn pi_target_refuses_only_xml() {
    for t in ["xml", "XML", "XmL", "xmL"] {
        assert!(pi_target(t).is_err());
    }
    for t in ["x", "xm", "X", "xmlx", "xml-stylesheet"] {
        let (rest, ret) = pi_target(t).unwrap();
        assert_eq!("", rest);
        assert_eq!(t, ret);
    }
    assert!(pi_target("xml ").is_err());
    assert!(pi_target("").is_err());
}
