use expr_parser::ast::BinaryOperator;
use expr_parser::ast::FnArgs;
use expr_parser::ast::FnCall;
use expr_parser::ast::Natural;
use expr_parser::ast::Node;
use expr_parser::ast::VarRef;
use expr_parser::basic_parser::State;
use expr_parser::parser::Parser;

fn num(value: u32) -> Node {
    Node::Natural(Natural { value })
}

fn var(name: &str) -> Node {
    Node::Var(VarRef { var_name: name.to_string() })
}

fn bin(op: &str, left: Node, right: Node) -> Node {
    Node::Binary(BinaryOperator {
        op: op.to_string(),
        left: Some(Box::new(left)),
        right: Some(Box::new(right)),
    })
}

fn call(name: &str, args: Vec<Node>) -> Node {
    Node::Call(FnCall { fn_name: name.to_string(), args: FnArgs { args } })
}

#[test]
fn parse_number() {
    let p = Parser::new();
    let r = p.number(&State::from_string(" 1"));
    assert!(r.is_some());
    assert!(r.unwrap().complete());
    let r = p.number(&State::from_string(" 0"));
    assert!(r.is_some());
    assert!(r.unwrap().complete());
    let r = p.number(&State::from_string(" 12034"));
    assert!(r.is_some());
    assert!(r.unwrap().complete());
    // Invalid number as 0 is followed by other digit. The parser gets the 0,
    // but does not parse the rest of the string
    let ret = p.number(&State::from_string("01234"));
    assert!(!ret.unwrap().complete());
}

#[test]
fn parse_var() {
    let p = Parser::new();
    let r = p.var(&State::from_string("var"));
    assert!(r.is_some());
    assert!(r.unwrap().complete());
    let r = p.var(&State::from_string("$dotted.var"));
    assert!(r.is_some());
    assert!(r.unwrap().complete());
}

#[test]
fn parse_fcall() {
    let p = Parser::new();
    let r = p.fcall(&State::from_string("fn(arg)"));
    assert!(r.is_some());
    assert!(r.unwrap().complete());
    let r = p.fcall(&State::from_string("fn()"));
    assert!(r.is_some());
    assert!(r.unwrap().complete());
    let r = p.fcall(&State::from_string("$fn(arg0, arg1)"));
    assert!(r.is_some());
    assert!(r.unwrap().complete());
    let r = p.fcall(&State::from_string("$fn($arg0(z), 21)"));
    assert!(r.is_some());
    assert!(r.unwrap().complete());
}

#[test]
fn parse_id() {
    let p = Parser::new();
    let r = p.id(&State::from_string("var"));
    assert!(r.is_some());
    assert!(r.unwrap().complete());
    let r = p.id(&State::from_string("$var"));
    assert!(r.is_some());
    assert!(r.unwrap().complete());
    let r = p.id(&State::from_string("fn(arg)"));
    assert!(r.is_some());
    assert!(r.unwrap().complete());
    let r = p.id(&State::from_string("$fn(arg)"));
    assert!(r.is_some());
    assert!(r.unwrap().complete());
    let r = p.id(&State::from_string("0"));
    assert!(r.is_some());
    assert!(r.unwrap().complete());
}

#[test]
fn parse_factor() {
    let p = Parser::new();
    let r = p.factor(&State::from_string("42"));
    assert!(r.is_some());
    assert!(r.unwrap().complete());
    let r = p.factor(&State::from_string(" ( 42+21 )"));
    assert!(r.is_some());
    assert!(r.unwrap().complete());
    let r = p.factor(&State::from_string(" ( $var )"));
    assert!(r.is_some());
    assert!(r.unwrap().complete());
}

#[test]
fn parse_term() {
    let p = Parser::new();
    let r = p.term(&State::from_string("42 * 21"));
    assert!(r.is_some());
    assert!(r.unwrap().complete());
    let r = p.term(&State::from_string("42 / 21"));
    assert!(r.is_some());
    assert!(r.unwrap().complete());
    let r = p.term(&State::from_string("42 % 21"));
    assert!(r.is_some());
    assert!(r.unwrap().complete());
    let r = p.term(&State::from_string("42"));
    assert!(r.is_some());
    assert!(r.unwrap().complete());
    let r = p.term(&State::from_string("(1 + 2) * (3 + 4 + 5) / 6"));
    assert!(r.is_some());
    assert!(r.unwrap().complete());
}

#[test]
fn parse_expr() {
    let p = Parser::new();
    let r = p.expr(&State::from_string("31"));
    assert!(r.is_some());
    assert!(r.unwrap().complete());
    let r = p.expr(&State::from_string("31 * 91"));
    assert!(r.is_some());
    assert!(r.unwrap().complete());
    let r = p.expr(&State::from_string("31 * 91 + 21"));
    assert!(r.is_some());
    assert!(r.unwrap().complete());
    let r = p.expr(&State::from_string("31 * 91 + 21 - 51"));
    assert!(r.is_some());
    assert!(r.unwrap().complete());
    let r = p.expr(&State::from_string("31 * 91 + 21 - 51/41 % 21"));
    assert!(r.is_some());
    assert!(r.unwrap().complete());
    let r = p.expr(&State::from_string("1 + 2  +3"));
    assert!(r.is_some());
    assert!(r.unwrap().complete());
}

#[test]
fn parse_reports_no_result() {
    let p = Parser::new();
    assert_eq!(p.parse("1 + 2"), None);
    assert_eq!(p.parse(""), None);
    assert!(p.root.root.is_none());
}

#[test]
fn expr_is_left_associative() {
    let p = Parser::new();
    let r = p.expr(&State::from_string("31 - 91 + 21")).unwrap();
    assert!(r.complete());
    assert_eq!(r.node, bin("+", bin("-", num(31), num(91)), num(21)));
    let r = p.expr(&State::from_string("8 / 4 / 2 % 3")).unwrap();
    assert_eq!(r.node, bin("%", bin("/", bin("/", num(8), num(4)), num(2)), num(3)));
}

#[test]
fn term_binds_tighter_than_expr() {
    let p = Parser::new();
    let r = p.expr(&State::from_string("2 + 3 * 4")).unwrap();
    assert!(r.complete());
    assert_eq!(r.node, bin("+", num(2), bin("*", num(3), num(4))));
    let r = p.expr(&State::from_string("2 * 3 + 4")).unwrap();
    assert_eq!(r.node, bin("+", bin("*", num(2), num(3)), num(4)));
    let r = p.expr(&State::from_string("(2 + 3) * 4")).unwrap();
    assert_eq!(r.node, bin("*", bin("+", num(2), num(3)), num(4)));
}

#[test]
fn number_stops_after_a_leading_zero() {
    let p = Parser::new();
    let r = p.natural(&State::from_string("01234")).unwrap();
    assert_eq!(r.node, num(0));
    assert_eq!(r.state.display(), "1234");
    assert_eq!(r.state.matched(), "0");
}

#[test]
fn number_value_is_read_in_base_ten() {
    let p = Parser::new();
    let r = p.value(&State::from_string(" \t12034 rest")).unwrap();
    assert_eq!(r.node, num(12034));
    assert_eq!(r.state.display(), " rest");
    assert_eq!(r.state.matched(), "12034");
    let r = p.number(&State::from_string("4294967295")).unwrap();
    assert_eq!(r.node, num(4294967295));
    assert!(r.complete());
}

#[test]
fn number_that_does_not_fit_is_no_match() {
    let p = Parser::new();
    assert!(p.natural(&State::from_string("4294967296")).is_none());
    assert!(p.number(&State::from_string("99999999999999999999")).is_none());
    assert!(p.id(&State::from_string("4294967296")).is_none());
    assert!(p.expr(&State::from_string("4294967296")).is_none());
    // the operand behind the operator is not taken, and the rest stays
    let r = p.expr(&State::from_string("1 + 4294967296")).unwrap();
    assert_eq!(r.node, num(1));
    assert_eq!(r.state.display(), " + 4294967296");
}

#[test]
fn number_needs_a_digit() {
    let p = Parser::new();
    assert!(p.natural(&State::from_string("")).is_none());
    assert!(p.natural(&State::from_string("  ")).is_none());
    assert!(p.natural(&State::from_string("x1")).is_none());
    assert!(p.natural(&State::from_string("-1")).is_none());
}

#[test]
fn var_holds_the_dotted_name() {
    let p = Parser::new();
    let r = p.var(&State::from_string("z")).unwrap();
    assert_eq!(r.node, var("z"));
    let r = p.var(&State::from_string("  $dotted . var+1")).unwrap();
    assert_eq!(r.node, var("dotted.var"));
    assert_eq!(r.state.matched(), "dotted.var");
    assert_eq!(r.state.display(), "+1");
    assert!(p.var(&State::from_string("$")).is_none());
    assert!(p.var(&State::from_string("$ x")).is_none());
    assert!(p.var(&State::from_string("1x")).is_none());
    assert!(p.var(&State::from_string("a.")).is_none());
}

#[test]
fn fcall_with_nested_call() {
    let p = Parser::new();
    let r = p.fcall(&State::from_string("$fn($arg0(z), 21)")).unwrap();
    assert!(r.complete());
    assert_eq!(r.node, call("fn", vec![call("arg0", vec![var("z")]), num(21)]));
    assert_eq!(r.state.matched(), ")");
}

#[test]
fn fcall_without_arguments() {
    let p = Parser::new();
    let r = p.fcall(&State::from_string("fn()")).unwrap();
    assert!(r.complete());
    assert_eq!(r.node, call("fn", vec![]));
    let r = p.expr(&State::from_string("a.b() + 1")).unwrap();
    assert_eq!(r.node, bin("+", call("a.b", vec![]), num(1)));
}

#[test]
fn fcall_is_all_or_nothing() {
    let p = Parser::new();
    assert!(p.fcall(&State::from_string("fn")).is_none());
    assert!(p.fcall(&State::from_string("fn(")).is_none());
    assert!(p.fcall(&State::from_string("fn(1")).is_none());
    assert!(p.fcall(&State::from_string("fn(1,)")).is_none());
    assert!(p.fcall(&State::from_string("fn(1, )")).is_none());
    assert!(p.fcall(&State::from_string("fn (1)")).is_none());
    assert!(p.fcall(&State::from_string("fn( )")).is_none());
    assert!(p.fcall(&State::from_string("fn(1 )")).is_none());
    assert!(p.fcall(&State::from_string("(1)")).is_none());
    // what is no call may still be a variable
    let r = p.id(&State::from_string("fn(1,)")).unwrap();
    assert_eq!(r.node, var("fn"));
    assert_eq!(r.state.display(), "(1,)");
}

#[test]
fn args_collects_in_order() {
    let p = Parser::new();
    let r = p.args(&State::from_string("1, b ,3*c)")).unwrap();
    assert_eq!(
        r.node,
        Node::Args(FnArgs { args: vec![num(1), var("b"), bin("*", num(3), var("c"))] })
    );
    assert_eq!(r.state.display(), ")");
    assert_eq!(r.state.matched(), "1,b,3*c");
}

#[test]
fn args_may_be_empty() {
    let p = Parser::new();
    let r = p.args(&State::from_string(")")).unwrap();
    assert_eq!(r.node, Node::Args(FnArgs { args: vec![] }));
    assert_eq!(r.state.display(), ")");
    assert_eq!(r.state.matched(), "");
    let r = p.args(&State::from_string("")).unwrap();
    assert_eq!(r.node, Node::Args(FnArgs { args: vec![] }));
}

#[test]
fn args_dangling_comma_fails() {
    let p = Parser::new();
    assert!(p.args(&State::from_string("1,")).is_none());
    assert!(p.args(&State::from_string("1, 2 , )")).is_none());
}

#[test]
fn factor_unmatched_parenthesis() {
    let p = Parser::new();
    let state = State::from_string("(42+21");
    assert!(p.factor(&state).is_none());
    assert!(p.expr(&state).is_none());
    // the cursor is as it was and serves another attempt
    assert_eq!(state.display(), "(42+21");
    assert_eq!(state.matched(), "");
    let open = expr_parser::basic_parser::chr('(').matches(&state).unwrap();
    let inner = p.expr(&open).unwrap();
    assert!(inner.complete());
    assert_eq!(inner.node, bin("+", num(42), num(21)));
}

#[test]
fn factor_group_keeps_inner_tree() {
    let p = Parser::new();
    let r = p.factor(&State::from_string(" ( 42+21 ) tail")).unwrap();
    assert_eq!(r.node, bin("+", num(42), num(21)));
    assert_eq!(r.state.display(), " tail");
    assert_eq!(r.state.matched(), "42+21)");
    assert!(p.factor(&State::from_string("()")).is_none());
    assert!(p.factor(&State::from_string(")")).is_none());
    assert!(p.factor(&State::from_string("")).is_none());
}

#[test]
fn id_tries_call_then_value_then_variable() {
    let p = Parser::new();
    assert_eq!(p.id(&State::from_string("f(1)")).unwrap().node, call("f", vec![num(1)]));
    assert_eq!(p.id(&State::from_string("17")).unwrap().node, num(17));
    assert_eq!(p.id(&State::from_string("f")).unwrap().node, var("f"));
    assert!(p.id(&State::from_string("+")).is_none());
}

#[test]
fn rhs_has_a_free_left_slot() {
    let p = Parser::new();
    let r = p.term_rhs(&State::from_string(" * 4 + 1")).unwrap();
    assert_eq!(
        r.node,
        Node::Binary(BinaryOperator {
            op: "*".to_string(),
            left: None,
            right: Some(Box::new(num(4))),
        })
    );
    assert_eq!(r.state.display(), " + 1");
    assert_eq!(r.state.matched(), "*4");
    let r = p.expr_rhs(&State::from_string("-2*3)")).unwrap();
    assert_eq!(
        r.node,
        Node::Binary(BinaryOperator {
            op: "-".to_string(),
            left: None,
            right: Some(Box::new(bin("*", num(2), num(3)))),
        })
    );
    assert_eq!(r.state.display(), ")");
    assert!(p.term_rhs(&State::from_string("+ 1")).is_none());
    assert!(p.expr_rhs(&State::from_string("* 1")).is_none());
    assert!(p.term_rhs(&State::from_string("*")).is_none());
    assert!(p.expr_rhs(&State::from_string("+ ")).is_none());
}

#[test]
fn expr_stops_before_what_it_cannot_read() {
    let p = Parser::new();
    let r = p.expr(&State::from_string("1 + 2 ")).unwrap();
    assert_eq!(r.node, bin("+", num(1), num(2)));
    assert_eq!(r.state.display(), " ");
    let r = p.expr(&State::from_string("1 + * 2")).unwrap();
    assert_eq!(r.node, num(1));
    assert_eq!(r.state.display(), " + * 2");
    let r = p.expr(&State::from_string("a b")).unwrap();
    assert_eq!(r.node, var("a"));
    assert_eq!(r.state.display(), " b");
    assert!(p.expr(&State::from_string("")).is_none());
    assert!(p.expr(&State::from_string("   ")).is_none());
    assert!(p.expr(&State::from_string("* 2")).is_none());
}

#[test]
fn expr_matched_text_has_no_blanks() {
    let p = Parser::new();
    let r = p.expr(&State::from_string(" 1 +\t2 *\n x . y")).unwrap();
    assert!(r.complete());
    assert_eq!(r.state.matched(), "1+2*x.y");
    assert_eq!(r.node, bin("+", num(1), bin("*", num(2), var("x.y"))));
}

#[test]
fn expr_consumes_well_formed_input() {
    let p = Parser::new();
    let inputs = [
        "0",
        "  7",
        "x",
        "$x.y.z",
        "x1_y * (2 + 3)",
        "((((1))))",
        "1+2-3*4/5%6",
        " ( a - ( b + c ) ) * d % 10",
        "f(a, g(b, 1 + 2), 3) - h()",
    ];
    for input in inputs {
        let r = p.expr(&State::from_string(input));
        assert!(r.is_some());
        assert!(r.unwrap().complete());
    }
}
