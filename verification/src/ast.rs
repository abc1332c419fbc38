use vstd::prelude::*;
use vstd::string::StringExecFns;
use crate::numeral::decimal;
use crate::numeral::fits_u32;
use crate::numeral::to_u32;

verus! {

/// The mathematical content of a node: the tree that it is the root of.
pub enum Ast {
    /// The top of a tree, with the one child it may hold.
    Root(Option<Box<Ast>>),
    /// An operator with its symbol and its two operands.
    Binary { op: Seq<char>, left: Option<Box<Ast>>, right: Option<Box<Ast>> },
    /// An operator with one operand.
    Unary(Option<Box<Ast>>),
    /// A call, with the dotted name of the callee and the arguments in order.
    Call { name: Seq<char>, args: Seq<Ast> },
    /// A list of arguments.
    Args(Seq<Ast>),
    /// A reference to a variable by its dotted name.
    Var(Seq<char>),
    /// An unsigned integer.
    Natural(nat),
}

impl Ast {
    /// Whether the slot at the right, or at the tail, of this node can take a child.
    pub open spec fn can_append(self) -> bool {
        match self {
            Ast::Root(child) => child is None,
            Ast::Binary { right, .. } => right is None,
            Ast::Args(_) => true,
            _ => false,
        }
    }

    /// Whether the slot at the left of this node can take a child.
    pub open spec fn can_prepend(self) -> bool {
        match self {
            Ast::Binary { left, .. } => left is None,
            _ => false,
        }
    }

    /// This node with `child` in its right or tail slot.
    pub open spec fn append(self, child: Ast) -> Ast {
        match self {
            Ast::Root(_) => Ast::Root(Some(Box::new(child))),
            Ast::Binary { op, left, right } => Ast::Binary {
                op,
                left,
                right: Some(Box::new(child)),
            },
            Ast::Args(args) => Ast::Args(args.push(child)),
            other => other,
        }
    }

    /// This node with `child` in its left slot.
    pub open spec fn prepend(self, child: Ast) -> Ast {
        match self {
            Ast::Binary { op, left, right } => Ast::Binary {
                op,
                left: Some(Box::new(child)),
                right,
            },
            other => other,
        }
    }
}

/// A node of the syntax tree.
#[derive(Debug, PartialEq, Eq)]
pub enum Node {
    Root(RootNode),
    Binary(BinaryOperator),
    Unary(UnaryOperator),
    Call(FnCall),
    Args(FnArgs),
    Var(VarRef),
    Natural(Natural),
}

/// The top of a tree.
#[derive(Debug, PartialEq, Eq)]
pub struct RootNode {
    pub root: Option<Box<Node>>,
}

/// A binary operator with the operands that were attached to it so far.
#[derive(Debug, PartialEq, Eq)]
pub struct BinaryOperator {
    pub op: String,
    pub left: Option<Box<Node>>,
    pub right: Option<Box<Node>>,
}

/// A unary operator. The grammar builds none.
#[derive(Debug, PartialEq, Eq)]
pub struct UnaryOperator {
    pub arg: Option<Box<Node>>,
}

/// A function call.
#[derive(Debug, PartialEq, Eq)]
pub struct FnCall {
    pub fn_name: String,
    pub args: FnArgs,
}

/// The arguments of a call, in order.
#[derive(Debug, PartialEq, Eq)]
pub struct FnArgs {
    pub args: Vec<Node>,
}

/// A reference to a variable.
#[derive(Debug, PartialEq, Eq)]
pub struct VarRef {
    pub var_name: String,
}

/// An unsigned integer literal.
#[derive(Debug, PartialEq, Eq)]
pub struct Natural {
    pub value: u32,
}

/// The tree of an optional child.
pub open spec fn slot(child: Option<Box<Node>>) -> Option<Box<Ast>>
    decreases child,
{
    match child {
        Some(node) => Some(Box::new(node.tree())),
        None => None,
    }
}

impl Node {
    /// The tree that this node is the root of.
    pub open spec fn tree(&self) -> Ast
        decreases self,
    {
        match self {
            Node::Root(n) => Ast::Root(slot(n.root)),
            Node::Binary(n) => Ast::Binary { op: n.op@, left: slot(n.left), right: slot(n.right) },
            Node::Unary(n) => Ast::Unary(slot(n.arg)),
            Node::Call(n) => Ast::Call { name: n.fn_name@, args: trees(&n.args.args) },
            Node::Args(n) => Ast::Args(trees(&n.args)),
            Node::Var(n) => Ast::Var(n.var_name@),
            Node::Natural(n) => Ast::Natural(n.value as nat),
        }
    }
}

/// The trees of a list of nodes, in the same order.
pub open spec fn trees(nodes: &Vec<Node>) -> Seq<Ast>
    decreases nodes,
{
    Seq::new(
        nodes.len() as nat,
        |i: int|
            if 0 <= i < nodes.len() {
                nodes[i].tree()
            } else {
                Ast::Root(None)
            },
    )
}

impl View for Node {
    type V = Ast;

    open spec fn view(&self) -> Ast {
        self.tree()
    }
}

/// What every node of the tree can be asked to do: take a child at its
/// right or tail slot, or at its left slot. A node that has no such slot, or
/// whose slot is taken, cannot be asked.
pub trait AstNode {
    /// The tree that this node is the root of.
    spec fn ast(&self) -> Ast;

    /// Puts `node` into the right or tail slot.
    fn append_child(&mut self, node: Node)
        requires
            old(self).ast().can_append(),
        ensures
            final(self).ast() == old(self).ast().append(node@),
    ;

    /// Puts `node` into the left slot.
    fn prepend_child(&mut self, node: Node)
        requires
            old(self).ast().can_prepend(),
        ensures
            final(self).ast() == old(self).ast().prepend(node@),
    ;
}

/// A kind of node that is made from the text that was matched for it.
pub trait StringInitialized {
    /// Whether a node of this kind can be made from `text`.
    spec fn accepts(text: Seq<char>) -> bool;

    /// The tree of the node that is made from `text`.
    spec fn built(text: Seq<char>) -> Ast;

    /// The node for the matched text `v`.
    fn from_str(v: &str) -> (node: Node)
        requires
            Self::accepts(v@),
        ensures
            node@ == Self::built(v@),
    ;
}

impl RootNode {
    /// A root without a child.
    pub fn new() -> (root: RootNode)
        ensures
            root.ast() == Ast::Root(None),
    {
        RootNode { root: None }
    }
}

impl AstNode for RootNode {
    open spec fn ast(&self) -> Ast {
        Ast::Root(slot(self.root))
    }

    fn append_child(&mut self, node: Node) {
        self.root = Some(Box::new(node));
    }

    /// A root has no slot at its left: no caller can state that it is free,
    /// and so none can call this.
    fn prepend_child(&mut self, node: Node) {
    }
}

impl AstNode for BinaryOperator {
    open spec fn ast(&self) -> Ast {
        Ast::Binary { op: self.op@, left: slot(self.left), right: slot(self.right) }
    }

    fn append_child(&mut self, node: Node) {
        self.right = Some(Box::new(node));
    }

    fn prepend_child(&mut self, node: Node) {
        self.left = Some(Box::new(node));
    }
}

impl StringInitialized for BinaryOperator {
    open spec fn accepts(text: Seq<char>) -> bool {
        true
    }

    open spec fn built(text: Seq<char>) -> Ast {
        Ast::Binary { op: text, left: None, right: None }
    }

    fn from_str(v: &str) -> (node: Node) {
        Node::Binary(BinaryOperator { op: String::from_str(v), left: None, right: None })
    }
}

impl AstNode for FnCall {
    open spec fn ast(&self) -> Ast {
        Ast::Call { name: self.fn_name@, args: trees(&self.args.args) }
    }

    /// A call has no slot at its right or tail: no caller can state that it is free,
    /// and so none can call this.
    fn append_child(&mut self, node: Node) {
    }

    /// A call has no slot at its left: no caller can state that it is free,
    /// and so none can call this.
    fn prepend_child(&mut self, node: Node) {
    }
}

impl FnArgs {
    /// An empty list of arguments.
    pub fn new() -> (list: FnArgs)
        ensures
            list.ast() == Ast::Args(Seq::empty()),
    {
        let list = FnArgs { args: Vec::new() };
        assert(trees(&list.args) =~= Seq::empty());
        list
    }
}

impl AstNode for FnArgs {
    open spec fn ast(&self) -> Ast {
        Ast::Args(trees(&self.args))
    }

    fn append_child(&mut self, node: Node) {
        self.args.push(node);
        assert(trees(&self.args) =~= trees(&old(self).args).push(node@));
    }

    /// A list of arguments has no slot at its left: no caller can state that it is free,
    /// and so none can call this.
    fn prepend_child(&mut self, node: Node) {
    }
}

impl AstNode for VarRef {
    open spec fn ast(&self) -> Ast {
        Ast::Var(self.var_name@)
    }

    /// A variable has no slot at its right or tail: no caller can state that it is free,
    /// and so none can call this.
    fn append_child(&mut self, node: Node) {
    }

    /// A variable has no slot at its left: no caller can state that it is free,
    /// and so none can call this.
    fn prepend_child(&mut self, node: Node) {
    }
}

impl StringInitialized for VarRef {
    open spec fn accepts(text: Seq<char>) -> bool {
        true
    }

    open spec fn built(text: Seq<char>) -> Ast {
        Ast::Var(text)
    }

    fn from_str(v: &str) -> (node: Node) {
        Node::Var(VarRef { var_name: String::from_str(v) })
    }
}

impl AstNode for Natural {
    open spec fn ast(&self) -> Ast {
        Ast::Natural(self.value as nat)
    }

    /// A number has no slot at its right or tail: no caller can state that it is free,
    /// and so none can call this.
    fn append_child(&mut self, node: Node) {
    }

    /// A number has no slot at its left: no caller can state that it is free,
    /// and so none can call this.
    fn prepend_child(&mut self, node: Node) {
    }
}

impl StringInitialized for Natural {
    open spec fn accepts(text: Seq<char>) -> bool {
        fits_u32(text)
    }

    open spec fn built(text: Seq<char>) -> Ast {
        Ast::Natural(decimal(text))
    }

    fn from_str(v: &str) -> (node: Node) {
        Node::Natural(Natural { value: to_u32(v).unwrap() })
    }
}

impl AstNode for Node {
    open spec fn ast(&self) -> Ast {
        self.tree()
    }

    fn append_child(&mut self, node: Node) {
        match self {
            Node::Root(n) => n.append_child(node),
            Node::Binary(n) => n.append_child(node),
            Node::Args(n) => n.append_child(node),
            _ => {},
        }
    }

    fn prepend_child(&mut self, node: Node) {
        match self {
            Node::Binary(n) => n.prepend_child(node),
            _ => {},
        }
    }
}

} // verus!
