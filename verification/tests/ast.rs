use expr_parser::ast::AstNode;
use expr_parser::ast::BinaryOperator;
use expr_parser::ast::FnArgs;
use expr_parser::ast::Natural;
use expr_parser::ast::Node;
use expr_parser::ast::RootNode;
use expr_parser::ast::StringInitialized;
use expr_parser::ast::UnaryOperator;
use expr_parser::ast::VarRef;
use expr_parser::basic_parser::State;
use expr_parser::numeral::to_u32;
use expr_parser::parser::ParserState;

fn num(value: u32) -> Node {
    Node::Natural(Natural { value })
}

#[test]
fn root_takes_one_child() {
    let mut root = RootNode::new();
    assert!(root.root.is_none());
    root.append_child(num(5));
    assert_eq!(root.root, Some(Box::new(num(5))));
}

#[test]
fn binary_operator_fills_both_slots() {
    let mut node = BinaryOperator::from_str("+");
    assert_eq!(
        node,
        Node::Binary(BinaryOperator { op: "+".to_string(), left: None, right: None })
    );
    node.append_child(num(2));
    node.prepend_child(num(1));
    assert_eq!(
        node,
        Node::Binary(BinaryOperator {
            op: "+".to_string(),
            left: Some(Box::new(num(1))),
            right: Some(Box::new(num(2))),
        })
    );
}

#[test]
fn binary_operator_slots_are_independent() {
    let mut op = BinaryOperator { op: "-".to_string(), left: None, right: None };
    op.prepend_child(num(7));
    assert_eq!(op.left, Some(Box::new(num(7))));
    assert_eq!(op.right, None);
    op.append_child(num(9));
    assert_eq!(op.left, Some(Box::new(num(7))));
    assert_eq!(op.right, Some(Box::new(num(9))));
}

#[test]
fn fn_args_append_pushes_to_the_end() {
    let mut args = FnArgs::new();
    assert!(args.args.is_empty());
    args.append_child(num(1));
    args.append_child(num(2));
    args.append_child(num(3));
    assert_eq!(args.args, vec![num(1), num(2), num(3)]);
    let mut node = Node::Args(FnArgs::new());
    node.append_child(num(4));
    assert_eq!(node, Node::Args(FnArgs { args: vec![num(4)] }));
}

#[test]
fn node_dispatches_to_its_variant() {
    let mut root = Node::Root(RootNode::new());
    root.append_child(num(1));
    assert_eq!(root, Node::Root(RootNode { root: Some(Box::new(num(1))) }));
    let unary = Node::Unary(UnaryOperator { arg: None });
    assert_eq!(unary, Node::Unary(UnaryOperator { arg: None }));
}

#[test]
fn var_ref_from_str() {
    assert_eq!(VarRef::from_str("a.b"), Node::Var(VarRef { var_name: "a.b".to_string() }));
}

#[test]
fn natural_from_str() {
    assert_eq!(Natural::from_str("0"), num(0));
    assert_eq!(Natural::from_str("12034"), num(12034));
    assert_eq!(Natural::from_str("007"), num(7));
    assert_eq!(Natural::from_str("4294967295"), num(u32::MAX));
}

#[test]
fn to_u32_reads_decimal_numerals() {
    assert_eq!(to_u32("0"), Some(0));
    assert_eq!(to_u32("9"), Some(9));
    assert_eq!(to_u32("10"), Some(10));
    assert_eq!(to_u32("12034"), Some(12034));
    assert_eq!(to_u32("0000000000000042"), Some(42));
    assert_eq!(to_u32("4294967295"), Some(4294967295));
}

#[test]
fn to_u32_rejects_what_does_not_fit_or_is_no_numeral() {
    assert_eq!(to_u32("4294967296"), None);
    assert_eq!(to_u32("4294967300"), None);
    assert_eq!(to_u32("42949672950"), None);
    assert_eq!(to_u32("99999999999999999999999"), None);
    assert_eq!(to_u32(""), None);
    assert_eq!(to_u32("+1"), None);
    assert_eq!(to_u32("-1"), None);
    assert_eq!(to_u32("1a"), None);
    assert_eq!(to_u32("a1"), None);
    assert_eq!(to_u32(" 1"), None);
    assert_eq!(to_u32("١"), None);
}

#[test]
fn parser_state_new_builds_from_matched_text() {
    let s = State::from_string("123+4").read(3);
    let found = ParserState::new::<Natural>(s);
    assert_eq!(found.node, num(123));
    assert_eq!(found.state.display(), "+4");
    assert_eq!(found.state.matched(), "123");
    assert!(!found.complete());
}

#[test]
fn parser_state_append_and_prepend() {
    let start = State::from_string("1+2");
    let one = start.read(1);
    let plus = one.read(1);
    let two = plus.read(1);
    let left = ParserState::new::<Natural>(one);
    let mut op = ParserState::new::<BinaryOperator>(plus);
    let right = ParserState::new::<Natural>(two);
    op.append_child(right);
    assert_eq!(op.state.matched(), "+2");
    assert!(op.complete());
    op.prepend_child(left);
    assert_eq!(op.state.matched(), "1+2");
    assert!(op.complete());
    assert_eq!(
        op.node,
        Node::Binary(BinaryOperator {
            op: "+".to_string(),
            left: Some(Box::new(num(1))),
            right: Some(Box::new(num(2))),
        })
    );
}

#[test]
fn parser_state_update_moves_the_cursor() {
    let start = State::from_string("x)");
    let x = start.read(1);
    let close = x.read(1);
    let mut found = ParserState::new::<VarRef>(x);
    found.update(&close);
    assert!(found.complete());
    assert_eq!(found.state.matched(), "x)");
    assert_eq!(found.node, Node::Var(VarRef { var_name: "x".to_string() }));
}
