use kaitai::error::{MacroError, StackTrace};
use kaitai::util::sc_to_ucc;

#[test]
fn util_sc_to_ucc_test() {
    let input = vec![
        "example_id",
        "oneword",
        "num_at_end1",
        "num_at_end_2",
        "a",
        "",
    ];

    let output: Vec<String> = input.into_iter().map(sc_to_ucc).collect();

    assert_eq!(
        output,
        vec!["ExampleId", "Oneword", "NumAtEnd1", "NumAtEnd2", "A", ""]
    );
}

#[test]
fn utils_sc_to_ucc_test() {
    let input = vec!["example_id", "oneword", "num_at_end1", "num_at_end_2"];

    let output: Vec<String> = input.into_iter().map(sc_to_ucc).collect();

    assert_eq!(
        output,
        vec!["ExampleId", "Oneword", "NumAtEnd1", "NumAtEnd2"]
    );
}

#[test]
fn sc_to_ucc_applied_twice() {
    for input in ["example_id", "oneword", "num_at_end_2", "", "Already", "a__b"] {
        let once = sc_to_ucc(input);
        let twice = sc_to_ucc(once.as_str());
        assert_eq!(once, twice);
    }
}

#[test]
fn sc_to_ucc_values() {
    assert_eq!(sc_to_ucc("example_id"), "ExampleId");
    assert_eq!(sc_to_ucc("oneword"), "Oneword");
    assert_eq!(sc_to_ucc("num_at_end_2"), "NumAtEnd2");
    assert_eq!(sc_to_ucc(""), "");
}

#[test]
fn stack_trace_frames() {
    let st = StackTrace::from("seq");
    assert_eq!(st.0, vec!["seq".to_owned()]);

    let mut e = MacroError::RequiredAttrNotFound("type".to_owned(), StackTrace::from("seq"));
    e.push("gen_type");
    let e2 = e.with("top");
    match &e2 {
        MacroError::RequiredAttrNotFound(k, st) => {
            assert_eq!(k, "type");
            assert_eq!(
                st.0,
                vec!["seq".to_owned(), "gen_type".to_owned(), "top".to_owned()]
            );
        }
        other => panic!("unexpected error {:?}", other),
    }
    match &e {
        MacroError::RequiredAttrNotFound(_, st) => {
            assert_eq!(st.0.len(), 2);
        }
        other => panic!("unexpected error {:?}", other),
    }
}
