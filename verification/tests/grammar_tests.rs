use hermes_ru::error::ErrorKind;
use hermes_ru::grammar::{parse_template, Node};

fn shown(input: &str) -> String {
    format!("{:?}", parse_template(input).unwrap())
}

fn refused(input: &str) -> bool {
    match parse_template(input) {
        Ok(_) => false,
        Err(e) => e.kind == ErrorKind::SyntaxError,
    }
}

#[test]
fn a_marker_with_a_name_is_a_variable() {
    assert_eq!(shown("${name}"), r#"[Variable("name")]"#);
    assert_eq!(shown("${_a1}"), r#"[Variable("_a1")]"#);
    assert_eq!(shown("${truth}"), r#"[Variable("truth")]"#);
}

#[test]
fn a_marker_with_brackets_is_a_call() {
    assert_eq!(shown("${f()}"), r#"[Call("f", [])]"#);
    assert_eq!(shown("${f(1)}"), r#"[Call("f", [Number("1")])]"#);
    assert_eq!(
        shown("${multiply(1,-2.5,3)}"),
        r#"[Call("multiply", [Number("1"), Number("-2.5"), Number("3")])]"#
    );
    assert_eq!(shown("${true()}"), r#"[Call("true", [])]"#);
}

#[test]
fn arguments_are_markers_or_expressions() {
    assert_eq!(
        shown("${random_str(${len})}"),
        r#"[Call("random_str", [Variable("len")])]"#
    );
    assert_eq!(
        shown(r#"${f(x,"a,b)",true,g(${h(2)}),${"s"})}"#),
        r#"[Call("f", [Variable("x"), Text("a,b)"), Boolean("true"), Call("g", [Call("h", [Number("2")])]), Text("s")])]"#
    );
}

#[test]
fn a_marker_may_hold_a_literal() {
    assert_eq!(shown("${12}"), r#"[Number("12")]"#);
    assert_eq!(shown("${false}"), r#"[Boolean("false")]"#);
    assert_eq!(shown(r#"${"x y"}"#), r#"[Text("x y")]"#);
}

#[test]
fn literals_stand_at_the_top() {
    assert_eq!(shown("1"), r#"[Number("1")]"#);
    assert_eq!(shown("-0.50"), r#"[Number("-0.50")]"#);
    assert_eq!(shown("true"), r#"[Boolean("true")]"#);
    assert_eq!(shown(r#""dd""#), r#"[Text("dd")]"#);
    assert_eq!(shown(r#""""#), r#"[Text("")]"#);
    assert_eq!(shown(r#""a+b${c}""#), r#"[Text("a+b${c}")]"#);
    assert_eq!(shown("\"é✓\""), "[Text(\"é✓\")]");
}

#[test]
fn items_are_joined_by_plus() {
    assert_eq!(
        shown(r#"${hostname()}+"dd"+true+${name}+${invalid}+-7"#),
        r#"[Call("hostname", []), Text("dd"), Boolean("true"), Variable("name"), Variable("invalid"), Number("-7")]"#
    );
    match &parse_template("1+2").unwrap()[..] {
        [Node::Number(a), Node::Number(b)] => {
            assert_eq!(a, "1");
            assert_eq!(b, "2");
        }
        other => panic!("two numbers were expected, not {:?}", other),
    }
}

#[test]
fn the_empty_input_is_no_template() {
    assert!(refused(""));
}

#[test]
fn unbalanced_markers_are_refused() {
    assert!(refused("${name"));
    assert!(refused("${name}}"));
    assert!(refused("$name}"));
    assert!(refused("${"));
    assert!(refused("${}"));
    assert!(refused("${f(}"));
    assert!(refused("${f(1}"));
    assert!(refused("${f(1,)}"));
    assert!(refused("${f(,1)}"));
    assert!(refused("${f)}"));
    assert!(refused("${${name}}"));
    assert!(refused(r#"${multiply(1,-2.5,3)}}"#));
}

#[test]
fn invalid_literals_are_refused() {
    assert!(refused("1."));
    assert!(refused(".5"));
    assert!(refused("-"));
    assert!(refused("--1"));
    assert!(refused("+1"));
    assert!(refused("1.2.3"));
    assert!(refused("1e5"));
    assert!(refused("\"open"));
    assert!(refused("\"a\"b\""));
    assert!(refused("truely"));
    assert!(refused("True"));
    assert!(refused("hello"));
    assert!(refused("${1x}"));
}

#[test]
fn blanks_and_stray_characters_are_refused() {
    assert!(refused(" 1"));
    assert!(refused("1 "));
    assert!(refused("1 + 2"));
    assert!(refused("${ name }"));
    assert!(refused("${f(1, 2)}"));
    assert!(refused("1+"));
    assert!(refused("+1"));
    assert!(refused("1++2"));
    assert!(refused("${a}${b}"));
    assert!(refused("${a.b}"));
    assert!(refused("${é}"));
}

#[test]
fn the_failure_says_where() {
    let e = parse_template("1+2+oops").unwrap_err();
    assert_eq!(e.kind, ErrorKind::SyntaxError);
    assert_eq!(
        e.message,
        "no marker or literal can be read from the input at character 4"
    );
    let e = parse_template("12x").unwrap_err();
    assert_eq!(
        e.message,
        "`+` or the end of the input is expected at character 2"
    );
    let e = parse_template("\"é\"x").unwrap_err();
    assert!(e.message.ends_with("at character 3"));
}

#[test]
fn a_long_input_is_read() {
    let mut input = String::from("${f(");
    for i in 0..2000 {
        if i > 0 {
            input.push(',');
        }
        input.push_str("${v}");
    }
    input.push_str(")}");
    for _ in 0..2000 {
        input.push_str("+\"text\"+12.5");
    }
    let nodes = parse_template(&input).unwrap();
    assert_eq!(nodes.len(), 4001);
    match &nodes[0] {
        Node::Call(name, args) => {
            assert_eq!(name, "f");
            assert_eq!(args.len(), 2000);
        }
        other => panic!("a call was expected, not {:?}", other),
    }
}
