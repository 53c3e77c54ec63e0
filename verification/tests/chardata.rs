use xml::dom::{DomException, Error};
use xml::info;
use xml::infoset::{XmlCData, XmlComment, XmlDocument, XmlItem, XmlText};

fn parse(input: &str) -> XmlDocument {
    let (rest, doc) = XmlDocument::from_raw(input).unwrap();
    assert_eq!("", rest);
    doc
}

fn first_item(doc: &mut XmlDocument) -> &mut XmlItem {
    let root = doc.root;
    match &mut doc.children[root] {
        XmlItem::Element(e) => &mut e.children[0],
        _ => panic!("no element"),
    }
}

fn comment(doc: &mut XmlDocument) -> &mut XmlComment {
    match first_item(doc) {
        XmlItem::Comment(c) => c,
        _ => panic!("no comment"),
    }
}

fn cdata(doc: &mut XmlDocument) -> &mut XmlCData {
    match first_item(doc) {
        XmlItem::CData(c) => c,
        _ => panic!("no CDATA section"),
    }
}

fn text(doc: &mut XmlDocument) -> &mut XmlText {
    match first_item(doc) {
        XmlItem::Text(t) => t,
        _ => panic!("no text"),
    }
}

const COMMENT: &str = "<root><!-- comment --></root>";
const CDATA: &str = "<root><![CDATA[&<>\"]]></root>";

#[test]
fn test_comment_character_data() {
    let mut doc = parse(COMMENT);
    let comment = comment(&mut doc);

    // CharacterData
    assert_eq!(" comment ", comment.data().unwrap());
    assert_eq!(9, comment.length());
}

#[test]
fn test_comment_character_data_substring_data_ok() {
    let mut doc = parse(COMMENT);
    let comment = comment(&mut doc);

    // CharacterData
    assert_eq!("co", comment.substring_data(1, 2).unwrap());
}

#[test]
fn test_comment_character_data_substring_data_err0() {
    let mut doc = parse(COMMENT);
    let comment = comment(&mut doc);

    // CharacterData
    let err = comment.substring_data(10, 1).err().unwrap();
    assert_eq!(Error::Dom(DomException::IndexSizeErr), err);
}

#[test]
fn test_comment_character_data_mut_set_data_ok() {
    let mut doc = parse(COMMENT);
    let comment = comment(&mut doc);

    // CharacterDataMut
    comment.set_data("あいう").unwrap();
    assert_eq!("あいう", comment.data().unwrap());
}

#[test]
fn test_comment_character_data_mut_append_data_ok() {
    let mut doc = parse(COMMENT);
    let comment = comment(&mut doc);

    // CharacterDataMut
    comment.append_data("えお").unwrap();
    assert_eq!(" comment えお", comment.data().unwrap());
}

#[test]
fn test_comment_character_data_mut_insert_data_ok() {
    let mut doc = parse(COMMENT);
    let comment = comment(&mut doc);

    // CharacterDataMut
    comment.insert_data(1, "あい").unwrap();
    assert_eq!(" あいcomment ", comment.data().unwrap());
}

#[test]
fn test_comment_character_data_mut_insert_data_err0() {
    let mut doc = parse(COMMENT);
    let comment = comment(&mut doc);

    // CharacterDataMut
    let err = comment.insert_data(10, "あい").err().unwrap();
    assert_eq!(Error::Dom(DomException::IndexSizeErr), err);
}

#[test]
fn test_comment_character_data_mut_delete_data_ok() {
    let mut doc = parse(COMMENT);
    let comment = comment(&mut doc);

    // CharacterDataMut
    comment.delete_data(4, 2).unwrap();
    assert_eq!(" comnt ", comment.data().unwrap());
}

#[test]
fn test_comment_character_data_mut_delete_data_err0() {
    let mut doc = parse(COMMENT);
    let comment = comment(&mut doc);

    // CharacterDataMut
    let err = comment.delete_data(10, 2).err().unwrap();
    assert_eq!(Error::Dom(DomException::IndexSizeErr), err);
}

#[test]
fn test_comment_character_data_mut_replace_data_ok() {
    let mut doc = parse(COMMENT);
    let comment = comment(&mut doc);

    // CharacterDataMut
    comment.replace_data(1, 3, "いう").unwrap();
    assert_eq!(" いうment ", comment.data().unwrap());
}

#[test]
fn test_comment_character_data_mut_replace_data_err0() {
    let mut doc = parse(COMMENT);
    let comment = comment(&mut doc);

    // CharacterDataMut
    let err = comment.replace_data(10, 3, "いう").err().unwrap();
    assert_eq!(Error::Dom(DomException::IndexSizeErr), err);
}

#[test]
fn test_cdata_character_data() {
    let mut doc = parse(CDATA);
    let cdata = cdata(&mut doc);

    // CharacterData
    assert_eq!("&<>\"", cdata.data().unwrap());
    assert_eq!(4, cdata.length());
}

#[test]
fn test_cdata_character_data_substring_data_ok() {
    let mut doc = parse(CDATA);
    let cdata = cdata(&mut doc);

    // CharacterData
    assert_eq!("<>", cdata.substring_data(1, 2).unwrap());
}

#[test]
fn test_cdata_character_data_substring_data_err0() {
    let mut doc = parse(CDATA);
    let cdata = cdata(&mut doc);

    // CharacterData
    let err = cdata.substring_data(5, 1).err().unwrap();
    assert_eq!(Error::Dom(DomException::IndexSizeErr), err);
}

#[test]
fn test_cdata_character_data_mut_set_data_ok() {
    let mut doc = parse(CDATA);
    let cdata = cdata(&mut doc);

    // CharacterDataMut
    cdata.set_data("あいう").unwrap();
    assert_eq!("あいう", cdata.data().unwrap());
}

#[test]
fn test_cdata_character_data_mut_append_data_ok() {
    let mut doc = parse(CDATA);
    let cdata = cdata(&mut doc);

    // CharacterDataMut
    cdata.append_data("えお").unwrap();
    assert_eq!("&<>\"えお", cdata.data().unwrap());
}

#[test]
fn test_cdata_character_data_mut_insert_data_ok() {
    let mut doc = parse(CDATA);
    let cdata = cdata(&mut doc);

    // CharacterDataMut
    cdata.insert_data(1, "abc").unwrap();
    assert_eq!("&abc<>\"", cdata.data().unwrap());
}

#[test]
fn test_cdata_character_data_mut_insert_data_err0() {
    let mut doc = parse(CDATA);
    let cdata = cdata(&mut doc);

    // CharacterDataMut
    let err = cdata.insert_data(5, "abc").err().unwrap();
    assert_eq!(Error::Dom(DomException::IndexSizeErr), err);
}

#[test]
fn test_cdata_character_data_mut_delete_data_ok() {
    let mut doc = parse(CDATA);
    let cdata = cdata(&mut doc);

    // CharacterDataMut
    cdata.delete_data(1, 2).unwrap();
    assert_eq!("&\"", cdata.data().unwrap());
}

#[test]
fn test_cdata_character_data_mut_delete_data_err0() {
    let mut doc = parse(CDATA);
    let cdata = cdata(&mut doc);

    // CharacterDataMut
    let err = cdata.delete_data(5, 1).err().unwrap();
    assert_eq!(Error::Dom(DomException::IndexSizeErr), err);
}

#[test]
fn test_cdata_character_data_mut_replace_data_ok() {
    let mut doc = parse(CDATA);
    let cdata = cdata(&mut doc);

    // CharacterDataMut
    cdata.replace_data(1, 3, "いう").unwrap();
    assert_eq!("&いう", cdata.data().unwrap());
}

#[test]
fn test_cdata_character_data_mut_replace_data_err0() {
    let mut doc = parse(CDATA);
    let cdata = cdata(&mut doc);

    // CharacterDataMut
    let err = cdata.replace_data(5, 1, "いう").err().unwrap();
    assert_eq!(Error::Dom(DomException::IndexSizeErr), err);
}

#[test]
fn text_character_data_edits() {
    let mut doc = parse("<root>text</root>");
    let t = text(&mut doc);
    assert_eq!("text", t.data().unwrap());
    assert_eq!(4, t.length());
    assert_eq!("ex", t.substring_data(1, 2).unwrap());
    assert_eq!("xt", t.substring_data(2, 10).unwrap());
    assert_eq!("", t.substring_data(4, 1).unwrap());
    t.insert_data(1, "あい").unwrap();
    assert_eq!("tあいext", t.data().unwrap());
    t.delete_data(1, 2).unwrap();
    assert_eq!("text", t.data().unwrap());
    assert_eq!(Err(Error::Dom(DomException::IndexSizeErr)), t.delete_data(3, 2));
    t.append_data("!").unwrap();
    assert_eq!("text!", t.data().unwrap());
}

#[test]
fn refused_data_leaves_or_keeps_what_the_dom_says() {
    let mut doc = parse("<root>text</root>");
    let t = text(&mut doc);
    assert_eq!(Err(Error::Info(info::Error::InvalidData("<a/>".to_string()))), t.insert_data(0, "<a/>"));
    assert_eq!("text", t.data().unwrap());
    // the deletion of a replacement stays done where the insertion is refused
    assert_eq!(Err(Error::Info(info::Error::InvalidData("<a/>".to_string()))), t.replace_data(0, 2, "<a/>"));
    assert_eq!("xt", t.data().unwrap());

    let mut doc = parse(COMMENT);
    let c = comment(&mut doc);
    assert!(c.insert_data(0, "--").is_err());
    assert_eq!(" comment ", c.data().unwrap());
}
