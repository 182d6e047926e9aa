use json_stream::render::assemble_line;
use json_stream::{PathStep, Record, Scalar, Walker};

fn lines(records: &[Record]) -> Vec<String> {
    records.iter().map(|r| r.to_line()).collect()
}

fn num(t: &str) -> Scalar {
    Scalar::Number(t.to_string())
}

#[test]
fn object_with_array_and_empty_object() {
    // {"a":[1,2],"b":{}}
    let mut w = Walker::new();
    let mut out = Vec::new();
    w.begin_map();
    w.map_key("a".to_string());
    w.begin_array();
    out.push(w.scalar(num("1")));
    w.element_done();
    out.push(w.scalar(num("2")));
    w.element_done();
    out.push(w.end_array());
    w.map_key("b".to_string());
    w.begin_map();
    out.push(w.end_map());
    out.push(w.end_map());
    assert_eq!(
        lines(&out),
        vec![
            "[[\"a\",0],1]",
            "[[\"a\",1],2]",
            "[[\"a\",1]]",
            "[[\"b\"],{}]",
            "[[\"b\"]]",
        ]
    );
    assert!(w.at_root());
}

#[test]
fn root_scalar_has_empty_path() {
    let mut w = Walker::new();
    let r = w.scalar(Scalar::Null);
    assert_eq!(r.to_line(), "[[],null]");
    assert!(r.path.is_empty());
    assert!(w.at_root());
}

#[test]
fn empty_array_gives_sentinel_not_closing() {
    let mut w = Walker::new();
    w.begin_array();
    let r = w.end_array();
    assert_eq!(r.to_line(), "[[],[]]");
    assert!(r.value.is_some());
    assert!(w.at_root());
}

#[test]
fn empty_object_gives_sentinel_not_closing() {
    let mut w = Walker::new();
    w.begin_map();
    let r = w.end_map();
    assert_eq!(r.to_line(), "[[],{}]");
    assert!(w.at_root());
}

#[test]
fn empty_key_is_kept() {
    // {"":true}
    let mut w = Walker::new();
    w.begin_map();
    w.map_key(String::new());
    let a = w.scalar(Scalar::Boolean(true));
    let b = w.end_map();
    assert_eq!(lines(&[a, b]), vec!["[[\"\"],true]", "[[\"\"]]"]);
}

#[test]
fn nested_arrays_close_at_last_child() {
    // [[false],"x"]
    let mut w = Walker::new();
    let mut out = Vec::new();
    w.begin_array();
    w.begin_array();
    out.push(w.scalar(Scalar::Boolean(false)));
    w.element_done();
    out.push(w.end_array());
    w.element_done();
    out.push(w.scalar(Scalar::Text("x".to_string())));
    w.element_done();
    out.push(w.end_array());
    assert_eq!(
        lines(&out),
        vec!["[[0,0],false]", "[[0,0]]", "[[1],\"x\"]", "[[1]]"]
    );
    assert_eq!(w.depth(), 0);
}

#[test]
fn counts_match_document_shape() {
    // [null,{},[],{"k":[3]}]: five scalars counting empties, three non-empty composites
    let mut w = Walker::new();
    let mut out = Vec::new();
    w.begin_array();
    out.push(w.scalar(Scalar::Null));
    w.element_done();
    w.begin_map();
    out.push(w.end_map());
    w.element_done();
    w.begin_array();
    out.push(w.end_array());
    w.element_done();
    w.begin_map();
    w.map_key("k".to_string());
    w.begin_array();
    out.push(w.scalar(num("3")));
    w.element_done();
    out.push(w.end_array());
    out.push(w.end_map());
    w.element_done();
    out.push(w.end_array());
    let values = out.iter().filter(|r| r.value.is_some()).count();
    let closings = out.iter().filter(|r| r.value.is_none()).count();
    assert_eq!(values, 4);
    assert_eq!(closings, 3);
    assert_eq!(out.last().unwrap().to_line(), "[[3]]");
    assert!(w.at_root());
}

#[test]
fn two_documents_do_not_interleave() {
    let mut w = Walker::new();
    let mut first = Vec::new();
    w.begin_map();
    w.map_key("x".to_string());
    first.push(w.scalar(num("1")));
    first.push(w.end_map());
    assert!(w.at_root());
    let mut second = Vec::new();
    w.begin_map();
    w.map_key("y".to_string());
    second.push(w.scalar(num("2")));
    second.push(w.end_map());
    assert!(w.at_root());
    assert_eq!(lines(&first), vec!["[[\"x\"],1]", "[[\"x\"]]"]);
    assert_eq!(lines(&second), vec!["[[\"y\"],2]", "[[\"y\"]]"]);
}

#[test]
fn keys_and_strings_are_escaped() {
    let mut w = Walker::new();
    w.begin_map();
    w.map_key("a\"b".to_string());
    let r = w.scalar(Scalar::Text("line\nbreak".to_string()));
    assert_eq!(r.to_line(), "[[\"a\\\"b\"],\"line\\nbreak\"]");
}

#[test]
fn large_indices_are_decimal() {
    let mut w = Walker::new();
    w.begin_array();
    for _ in 0..12 {
        w.scalar(Scalar::Null);
        w.element_done();
    }
    let r = w.scalar(num("-0.5"));
    assert_eq!(r.to_line(), "[[12],-0.5]");
    w.element_done();
    assert_eq!(w.end_array().to_line(), "[[12]]");
}

#[test]
fn step_and_value_texts() {
    assert_eq!(PathStep::Index(305).to_text(), "305");
    assert_eq!(PathStep::Key("k".to_string()).to_text(), "\"k\"");
    assert_eq!(Scalar::Boolean(true).to_text(), "true");
    assert_eq!(Scalar::EmptyArray.to_text(), "[]");
    assert_eq!(Scalar::EmptyObject.to_text(), "{}");
    assert_eq!(Scalar::Null.to_text(), "null");
}

#[test]
fn protocol_queries_follow_the_open_container() {
    let mut w = Walker::new();
    assert!(!w.in_array() && !w.in_map() && !w.can_advance());
    w.begin_array();
    assert!(w.in_array() && !w.in_map() && w.can_advance());
    w.begin_map();
    assert!(w.in_map() && !w.in_array());
    assert_eq!(w.depth(), 2);
    w.end_map();
    assert!(w.in_array());
    w.end_array();
    assert!(w.at_root());
}

#[test]
fn line_assembled_from_texts() {
    let steps = vec!["\"a\"".to_string(), "0".to_string()];
    assert_eq!(assemble_line(&steps, &Some("1".to_string())), "[[\"a\",0],1]");
    assert_eq!(assemble_line(&steps, &None), "[[\"a\",0]]");
    assert_eq!(assemble_line(&Vec::new(), &Some("{}".to_string())), "[[],{}]");
    assert_eq!(assemble_line(&Vec::new(), &None), "[[]]");
}
