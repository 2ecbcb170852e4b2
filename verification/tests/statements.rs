use unrpyc_rs::ast::{extract_statements, parse_statement, RenpyStatement, StatementError};
use unrpyc_rs::pickle::{dict_lookup, dict_position, PickleValue};

fn s(x: &str) -> PickleValue {
    PickleValue::Str(x.to_string())
}

fn node(attrs: Vec<(&str, PickleValue)>) -> PickleValue {
    let dict = attrs.into_iter().map(|(k, v)| (s(k), v)).collect();
    PickleValue::List(vec![s("Node"), PickleValue::Dict(dict)])
}

#[test]
fn node_that_is_not_a_list_is_refused() {
    let r = parse_statement(&PickleValue::Tuple(vec![s("a"), PickleValue::Dict(vec![])]));
    assert_eq!(r.unwrap_err(), StatementError::NotAList);
    assert_eq!(StatementError::NotAList.message(), "Node is not a list");
}

#[test]
fn node_list_too_short_is_refused() {
    let r = parse_statement(&PickleValue::List(vec![PickleValue::Dict(vec![])]));
    assert_eq!(r.unwrap_err(), StatementError::TooShort);
    assert_eq!(StatementError::TooShort.message(), "Node list too short");
}

#[test]
fn node_without_dict_is_refused() {
    let r = parse_statement(&PickleValue::List(vec![s("a"), s("b")]));
    assert_eq!(r.unwrap_err(), StatementError::NotADict);
    assert_eq!(StatementError::NotADict.message(), "Second element of node is not a dict");
}

#[test]
fn init_keeps_the_statements_of_its_block() {
    let block = PickleValue::List(vec![
        node(vec![("what", s("hello"))]),
        s("not a node"),
        node(vec![("name", s("start")), ("block", PickleValue::List(vec![]))]),
    ]);
    let init = node(vec![("priority", PickleValue::I64(-5)), ("block", block)]);
    match parse_statement(&init).unwrap() {
        RenpyStatement::Init(i) => {
            assert_eq!(i.priority, -5);
            assert_eq!(i.block.len(), 2);
            match &i.block[0] {
                RenpyStatement::Say(x) => assert_eq!(x.what, "hello"),
                other => panic!("{:?}", other),
            }
            match &i.block[1] {
                RenpyStatement::Label(x) => assert_eq!(x.name, "start"),
                other => panic!("{:?}", other),
            }
        }
        other => panic!("{:?}", other),
    }
}

#[test]
fn init_priority_that_is_not_an_integer_is_zero() {
    let init = node(vec![("priority", s("high")), ("block", s("no list"))]);
    match parse_statement(&init).unwrap() {
        RenpyStatement::Init(i) => {
            assert_eq!(i.priority, 0);
            assert!(i.block.is_empty());
        }
        other => panic!("{:?}", other),
    }
}

#[test]
fn define_takes_varname_and_store() {
    let d = node(vec![("operator", s("=")), ("varname", s("x")), ("store", s("store"))]);
    match parse_statement(&d).unwrap() {
        RenpyStatement::Define(x) => {
            assert_eq!(x.varname, "x");
            assert_eq!(x.store, "store");
        }
        other => panic!("{:?}", other),
    }
    let d = node(vec![("operator", s("="))]);
    match parse_statement(&d).unwrap() {
        RenpyStatement::Define(x) => {
            assert_eq!(x.varname, "");
            assert_eq!(x.store, "");
        }
        other => panic!("{:?}", other),
    }
}

#[test]
fn default_is_a_varname_without_operator() {
    let d = node(vec![("varname", s("y")), ("operator", PickleValue::NoneValue)]);
    match parse_statement(&d).unwrap() {
        RenpyStatement::Default(x) => {
            assert_eq!(x.varname, "y");
            assert_eq!(x.store, "");
        }
        other => panic!("{:?}", other),
    }
}

#[test]
fn label_needs_a_block() {
    let l = node(vec![("name", s("start"))]);
    assert!(matches!(parse_statement(&l).unwrap(), RenpyStatement::Unknown(_)));
}

#[test]
fn return_and_image() {
    let r = node(vec![("expression", PickleValue::NoneValue)]);
    assert!(matches!(parse_statement(&r).unwrap(), RenpyStatement::Return(_)));
    let i = node(vec![("code", PickleValue::NoneValue), ("imgname", s("bg"))]);
    match parse_statement(&i).unwrap() {
        RenpyStatement::Image(x) => assert!(x.imgname.is_empty()),
        other => panic!("{:?}", other),
    }
}

#[test]
fn unknown_keeps_the_dictionary() {
    let u = node(vec![("linenumber", PickleValue::I64(12)), ("filename", s("a.rpy"))]);
    match parse_statement(&u).unwrap() {
        RenpyStatement::Unknown(d) => {
            assert_eq!(d.len(), 2);
            assert!(matches!(dict_lookup(&d, "linenumber"), Some(PickleValue::I64(12))));
            assert!(matches!(dict_lookup(&d, "filename"), Some(PickleValue::Str(x)) if x == "a.rpy"));
        }
        other => panic!("{:?}", other),
    }
}

#[test]
fn extract_statements_takes_the_second_list() {
    let stmts = PickleValue::List(vec![node(vec![("what", s("hi"))])]);
    let top = PickleValue::Tuple(vec![PickleValue::NoneValue, stmts]);
    assert_eq!(extract_statements(&top).unwrap().len(), 1);
    let top = PickleValue::List(vec![PickleValue::NoneValue, PickleValue::List(vec![])]);
    assert_eq!(extract_statements(&top).unwrap().len(), 0);
    let top = PickleValue::List(vec![PickleValue::NoneValue, s("x")]);
    assert!(extract_statements(&top).is_none());
    assert!(extract_statements(&PickleValue::List(vec![PickleValue::NoneValue])).is_none());
    assert!(extract_statements(&s("x")).is_none());
}

#[test]
fn dictionary_lookup_finds_the_first_string_key() {
    let d = vec![
        (PickleValue::Bytes(b"k".to_vec()), PickleValue::I64(1)),
        (s("k"), PickleValue::I64(2)),
        (s("k"), PickleValue::I64(3)),
    ];
    assert_eq!(dict_position(&d, "k"), Some(1));
    assert_eq!(dict_position(&d, "z"), None);
}

#[test]
fn deep_copy_copies_nested_values() {
    let v = PickleValue::Dict(vec![(s("a"), PickleValue::List(vec![PickleValue::Bytes(vec![1, 2]), PickleValue::Float(7)]))]);
    let c = v.deep_copy();
    assert_eq!(format!("{:?}", c), format!("{:?}", v));
}
