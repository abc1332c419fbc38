use vstd::prelude::*;
use crate::ast::Ast;
use crate::ast::AstNode;
use crate::ast::BinaryOperator;
use crate::ast::FnArgs;
use crate::ast::FnCall;
use crate::ast::Natural;
use crate::ast::Node;
use crate::ast::RootNode;
use crate::ast::StringInitialized;
use crate::ast::VarRef;
use crate::basic_parser::alternation;
use crate::basic_parser::chr;
use crate::basic_parser::Cursor;
use crate::basic_parser::optional;
use crate::basic_parser::sequence;
use crate::basic_parser::State;
use crate::basic_parser::Transition;
use crate::grammar::after;
use crate::grammar::args_fold;
use crate::grammar::attach;
use crate::grammar::expr_fold;
use crate::grammar::expr_op_pattern;
use crate::grammar::extend;
use crate::grammar::lemma_after_after;
use crate::grammar::lemma_args_bounds;
use crate::grammar::lemma_args_def;
use crate::grammar::lemma_args_fold_def;
use crate::grammar::lemma_expr_def;
use crate::grammar::lemma_expr_fold_def;
use crate::grammar::lemma_expr_rhs_bounds;
use crate::grammar::lemma_factor_def;
use crate::grammar::lemma_fcall_def;
use crate::grammar::lemma_id_def;
use crate::grammar::lemma_parse_bounds;
use crate::grammar::lemma_scan_after;
use crate::grammar::lemma_symbols_productive;
use crate::grammar::lemma_term_def;
use crate::grammar::lemma_term_fold_def;
use crate::grammar::lemma_term_rhs_bounds;
use crate::grammar::number_pattern;
use crate::grammar::Parse;
use crate::grammar::parse_args;
use crate::grammar::parse_expr;
use crate::grammar::parse_expr_rhs;
use crate::grammar::parse_factor;
use crate::grammar::parse_fcall;
use crate::grammar::parse_id;
use crate::grammar::parse_natural;
use crate::grammar::parse_term;
use crate::grammar::parse_term_rhs;
use crate::grammar::parse_var;
use crate::grammar::sigil_pattern;
use crate::grammar::single;
use crate::grammar::symbol_pattern;
use crate::grammar::term_fold;
use crate::grammar::term_op_pattern;
use crate::lexical::dotted_name;
use crate::lexical::dotted_name_pattern;
use crate::lexical::natural;
use crate::lexical::ws;
use crate::numeral::to_u32;
use crate::pattern::Pattern;

verus! {

/// The mathematical content of a [`ParserState`]: where the cursor stands,
/// and the tree built so far.
pub struct Parsed {
    pub cursor: Cursor,
    pub ast: Ast,
}

/// What a rule of the grammar hands back: the cursor behind what it consumed,
/// and the node it built.
pub struct ParserState {
    pub state: State,
    pub node: Node,
}

impl View for ParserState {
    type V = Parsed;

    open spec fn view(&self) -> Parsed {
        Parsed { cursor: self.state@, ast: self.node@ }
    }
}

/// The content of what a rule handed back, if it handed anything back.
pub open spec fn outcome(result: Option<ParserState>) -> Option<Parsed> {
    match result {
        Some(found) => Some(found@),
        None => None,
    }
}

/// What the caller of a rule holds after the rule found `parse` at the start
/// of the input `s`.
pub open spec fn place(parse: Option<Parse>, s: Seq<char>) -> Option<Parsed> {
    match parse {
        Some(p) => Some(
            Parsed { cursor: Cursor { remaining: after(s, p.len), matched: p.text }, ast: p.ast },
        ),
        None => None,
    }
}

impl ParserState {
    /// The node of kind `T` for the text that `s` matched, at the cursor `s`.
    pub fn new<T: StringInitialized>(s: State) -> (found: ParserState)
        requires
            T::accepts(s@.matched),
        ensures
            found@ == (Parsed { cursor: s@, ast: T::built(s@.matched) }),
    {
        let node = T::from_str(s.matched());
        ParserState { state: s, node }
    }

    /// Whether the whole input has been consumed.
    pub fn complete(&self) -> (b: bool)
        ensures
            b == (self@.cursor.remaining.len() == 0),
    {
        self.state.complete()
    }

    /// Moves the cursor on to where `other` stands, and appends what `other`
    /// matched to the matched text.
    pub fn update(&mut self, other: &State)
        ensures
            final(self)@ == (Parsed {
                cursor: Cursor {
                    remaining: other@.remaining,
                    matched: old(self)@.cursor.matched + other@.matched,
                },
                ast: old(self)@.ast,
            }),
    {
        self.state.update(other);
    }

    /// Attaches `child`, which was parsed behind this node, at the right or
    /// tail slot, and moves the cursor on to where `child` ended.
    pub fn append_child(&mut self, child: ParserState)
        requires
            old(self)@.ast.can_append(),
        ensures
            final(self)@ == (Parsed {
                cursor: Cursor {
                    remaining: child@.cursor.remaining,
                    matched: old(self)@.cursor.matched + child@.cursor.matched,
                },
                ast: old(self)@.ast.append(child@.ast),
            }),
    {
        self.node.append_child(child.node);
        self.state.update(&child.state);
    }

    /// Attaches `child`, which was parsed before this node, at the left slot.
    /// The cursor stays where this node ended; the matched text of `child`
    /// goes in front.
    pub fn prepend_child(&mut self, child: ParserState)
        requires
            old(self)@.ast.can_prepend(),
        ensures
            final(self)@ == (Parsed {
                cursor: Cursor {
                    remaining: old(self)@.cursor.remaining,
                    matched: child@.cursor.matched + old(self)@.cursor.matched,
                },
                ast: old(self)@.ast.prepend(child@.ast),
            }),
    {
        self.node.prepend_child(child.node);
        let mut state = child.state;
        state.update(&self.state);
        self.state = state;
    }
}

/// Blanks, then the character `c`.
fn symbol(c: char) -> (t: Transition)
    ensures
        t@ == symbol_pattern(c),
{
    let t = sequence(vec![ws(), chr(c)]);
    assert(t@->Sequence_0 =~= symbol_pattern(c)->Sequence_0);
    t
}

/// Blanks, then a natural number.
fn number() -> (t: Transition)
    ensures
        t@ == number_pattern(),
{
    let t = sequence(vec![ws(), natural()]);
    assert(t@->Sequence_0 =~= number_pattern()->Sequence_0);
    t
}

/// Blanks, then a dollar sign or nothing.
fn sigil() -> (t: Transition)
    ensures
        t@ == sigil_pattern(),
{
    let t = sequence(vec![ws(), optional(chr('$'))]);
    assert(t@->Sequence_0 =~= sigil_pattern()->Sequence_0);
    t
}

/// Blanks, then `*`, `/` or `%`.
fn term_op() -> (t: Transition)
    ensures
        t@ == term_op_pattern(),
{
    let ops = alternation(vec![chr('*'), chr('/'), chr('%')]);
    assert(ops@->Choice_0 =~= term_op_pattern()->Sequence_0[1]->Choice_0);
    let t = sequence(vec![ws(), ops]);
    assert(t@->Sequence_0 =~= term_op_pattern()->Sequence_0);
    t
}

/// Blanks, then `+` or `-`.
fn expr_op() -> (t: Transition)
    ensures
        t@ == expr_op_pattern(),
{
    let ops = alternation(vec![chr('+'), chr('-')]);
    assert(ops@->Choice_0 =~= expr_op_pattern()->Sequence_0[1]->Choice_0);
    let t = sequence(vec![ws(), ops]);
    assert(t@->Sequence_0 =~= expr_op_pattern()->Sequence_0);
    t
}

/// The recursive-descent parser of the expression language.
pub struct Parser {
    pub root: RootNode,
}

impl Parser {
    /// A parser with an empty root.
    pub fn new() -> (parser: Parser)
        ensures
            parser.root.ast() == Ast::Root(None),
    {
        Parser { root: RootNode::new() }
    }

    /// The entry point from a text. It reports no result, whatever the text.
    pub fn parse(&self, s: &str) -> (result: Option<bool>)
        ensures
            result is None,
    {
        None
    }

    /// `natural`: skips blanks and reads an unsigned integer. There is no
    /// match where the number does not fit into 32 bits.
    pub fn natural(&self, state: &State) -> (result: Option<ParserState>)
        ensures
            outcome(result) == place(parse_natural(state@.remaining), state@.remaining),
    {
        proof {
            lemma_scan_after(number_pattern(), state@.remaining, 0);
            assert(after(state@.remaining, 0) =~= state@.remaining);
        }
        match number().matches(state) {
            None => None,
            Some(s) => {
                if to_u32(s.matched()).is_none() {
                    return None;
                }
                Some(ParserState::new::<Natural>(s))
            },
        }
    }

    /// `number`: a natural number.
    pub fn number(&self, state: &State) -> (result: Option<ParserState>)
        ensures
            outcome(result) == place(parse_natural(state@.remaining), state@.remaining),
    {
        self.natural(state)
    }

    /// `value`: a number.
    pub fn value(&self, state: &State) -> (result: Option<ParserState>)
        ensures
            outcome(result) == place(parse_natural(state@.remaining), state@.remaining),
    {
        self.number(state)
    }

    /// `var`: skips blanks and an optional dollar sign, and reads a dotted
    /// name. The node holds the dotted name.
    pub fn var(&self, state: &State) -> (result: Option<ParserState>)
        ensures
            outcome(result) == place(parse_var(state@.remaining), state@.remaining),
    {
        let ghost s = state@.remaining;
        proof {
            lemma_scan_after(sigil_pattern(), s, 0);
            assert(after(s, 0) =~= s);
        }
        let start = match sigil().matches(state) {
            None => {
                return None;
            },
            Some(start) => start,
        };
        proof {
            lemma_scan_after(dotted_name_pattern(), s, sigil_pattern().scan(s).unwrap().len);
        }
        match dotted_name().matches(&start) {
            None => None,
            Some(found) => Some(ParserState::new::<VarRef>(found)),
        }
    }

    /// `args`: the arguments of a call. Where no expression stands at
    /// `state` the list is empty and nothing is consumed; else expressions
    /// are read as long as a comma follows. There is no match where a comma
    /// is not followed by an expression.
    pub fn args(&self, state: &State) -> (result: Option<ParserState>)
        ensures
            outcome(result) == place(parse_args(state@.remaining), state@.remaining),
        decreases state@.remaining.len(), 9nat,
    {
        let ghost s = state@.remaining;
        proof {
            lemma_args_def(s);
            lemma_parse_bounds(s);
        }
        let first = match self.expr(state) {
            None => {
                let list = ParserState { state: state.forget(), node: Node::Args(FnArgs::new()) };
                assert(after(s, 0) =~= s);
                return Some(list);
            },
            Some(first) => first,
        };
        let mut list = ParserState { state: first.state.forget(), node: Node::Args(FnArgs::new()) };
        list.append_child(first);
        let ghost mut acc = single(parse_expr(s).unwrap());
        assert(list@.cursor.matched =~= acc.text);
        assert(list@.ast->Args_0 =~= acc.ast->Args_0);
        loop
            invariant
                s == state@.remaining,
                acc.len <= s.len(),
                acc.ast is Args,
                list@ == place(Some(acc), s).unwrap(),
                parse_args(s) == args_fold(after(s, acc.len), acc),
            decreases s.len() - acc.len,
        {
            let ghost rest = after(s, acc.len);
            proof {
                lemma_args_fold_def(rest, acc);
                lemma_scan_after(symbol_pattern(','), s, acc.len);
            }
            let comma = match symbol(',').matches(&list.state) {
                None => {
                    return Some(list);
                },
                Some(comma) => comma,
            };
            let ghost c = symbol_pattern(',').scan(rest).unwrap();
            proof {
                lemma_parse_bounds(after(rest, c.len));
            }
            let arg = match self.expr(&comma) {
                None => {
                    return None;
                },
                Some(arg) => arg,
            };
            proof {
                let a = parse_expr(after(rest, c.len)).unwrap();
                lemma_after_after(s, acc.len + c.len, a.len);
                lemma_after_after(rest, c.len, a.len);
                lemma_after_after(s, acc.len, c.len + a.len);
                acc = extend(acc, c, a);
            }
            list.update(&comma);
            list.append_child(arg);
        }
    }

    /// `fcall`: a call. Skips blanks and an optional dollar sign, and reads a
    /// dotted name, `(`, the arguments and `)`. The node holds the dotted
    /// name and the arguments. There is no match where a piece is missing.
    pub fn fcall(&self, state: &State) -> (result: Option<ParserState>)
        ensures
            outcome(result) == place(parse_fcall(state@.remaining), state@.remaining),
        decreases state@.remaining.len(), 0nat,
    {
        let ghost s = state@.remaining;
        proof {
            lemma_fcall_def(s);
            lemma_scan_after(sigil_pattern(), s, 0);
            assert(after(s, 0) =~= s);
        }
        let start = match sigil().matches(state) {
            None => {
                return None;
            },
            Some(start) => start,
        };
        let ghost a = sigil_pattern().scan(s).unwrap();
        proof {
            lemma_scan_after(dotted_name_pattern(), s, a.len);
        }
        let fn_name = match dotted_name().matches(&start) {
            None => {
                return None;
            },
            Some(fn_name) => fn_name,
        };
        let ghost b = dotted_name_pattern().scan(after(s, a.len)).unwrap();
        let ghost at = a.len + b.len;
        proof {
            lemma_scan_after(Pattern::Range('(', '('), s, at);
        }
        let lbrace = match chr('(').matches(&fn_name) {
            None => {
                return None;
            },
            Some(lbrace) => lbrace,
        };
        proof {
            lemma_args_bounds(after(s, at + 1));
            lemma_after_after(s, at + 1, 0);
        }
        let args = match self.args(&lbrace) {
            None => {
                return None;
            },
            Some(args) => args,
        };
        let ghost d = parse_args(after(s, at + 1)).unwrap();
        proof {
            lemma_after_after(s, at + 1, d.len);
            lemma_scan_after(Pattern::Range(')', ')'), s, at + 1 + d.len);
        }
        let rbrace = match chr(')').matches(&args.state) {
            None => {
                return None;
            },
            Some(rbrace) => rbrace,
        };
        match args.node {
            Node::Args(list) => {
                let call = FnCall { fn_name: String::from_str(fn_name.matched()), args: list };
                Some(ParserState { state: rbrace, node: Node::Call(call) })
            },
            _ => {
                proof {
                    assert(false);
                }
                None
            },
        }
    }

    /// `id`: a call, else a value, else a variable.
    pub fn id(&self, state: &State) -> (result: Option<ParserState>)
        ensures
            outcome(result) == place(parse_id(state@.remaining), state@.remaining),
        decreases state@.remaining.len(), 1nat,
    {
        proof {
            lemma_id_def(state@.remaining);
        }
        match self.fcall(state) {
            Some(call) => {
                return Some(call);
            },
            None => {},
        }
        match self.value(state) {
            Some(value) => {
                return Some(value);
            },
            None => {},
        }
        self.var(state)
    }

    /// `factor`: an `id`, else an expression between `(` and `)`, with blanks
    /// allowed before each of the two.
    pub fn factor(&self, state: &State) -> (result: Option<ParserState>)
        ensures
            outcome(result) == place(parse_factor(state@.remaining), state@.remaining),
        decreases state@.remaining.len(), 2nat,
    {
        let ghost s = state@.remaining;
        proof {
            lemma_factor_def(s);
        }
        match self.id(state) {
            Some(id) => {
                return Some(id);
            },
            None => {},
        }
        proof {
            lemma_scan_after(symbol_pattern('('), s, 0);
            assert(after(s, 0) =~= s);
            lemma_symbols_productive();
            symbol_pattern('(').lemma_productive(s);
        }
        let lbrace = match symbol('(').matches(state) {
            None => {
                return None;
            },
            Some(lbrace) => lbrace,
        };
        let ghost a = symbol_pattern('(').scan(s).unwrap();
        proof {
            lemma_parse_bounds(after(s, a.len));
        }
        let mut expr = match self.expr(&lbrace) {
            None => {
                return None;
            },
            Some(expr) => expr,
        };
        let ghost b = parse_expr(after(s, a.len)).unwrap();
        proof {
            lemma_after_after(s, a.len, b.len);
            lemma_scan_after(symbol_pattern(')'), s, a.len + b.len);
        }
        let rbrace = match symbol(')').matches(&expr.state) {
            None => {
                return None;
            },
            Some(rbrace) => rbrace,
        };
        expr.update(&rbrace);
        Some(expr)
    }

    /// `*`, `/` or `%` and the factor behind it: the node of the operator
    /// with the factor at its right and nothing yet at its left.
    pub fn term_rhs(&self, state: &State) -> (result: Option<ParserState>)
        ensures
            outcome(result) == place(parse_term_rhs(state@.remaining), state@.remaining),
        decreases state@.remaining.len(), 3nat,
    {
        let ghost s = state@.remaining;
        proof {
            lemma_scan_after(term_op_pattern(), s, 0);
            assert(after(s, 0) =~= s);
            lemma_symbols_productive();
            term_op_pattern().lemma_productive(s);
        }
        let op = match term_op().matches(state) {
            None => {
                return None;
            },
            Some(op) => op,
        };
        let ghost a = term_op_pattern().scan(s).unwrap();
        proof {
            lemma_parse_bounds(after(s, a.len));
        }
        let factor = match self.factor(&op) {
            None => {
                return None;
            },
            Some(factor) => factor,
        };
        proof {
            let b = parse_factor(after(s, a.len)).unwrap();
            lemma_after_after(s, a.len, b.len);
        }
        let mut node = ParserState::new::<BinaryOperator>(op);
        node.append_child(factor);
        Some(node)
    }

    /// `term`: a factor, then `*`, `/` or `%` and a factor as often as they
    /// follow. Each operator takes all that was read before it as its left
    /// operand.
    pub fn term(&self, state: &State) -> (result: Option<ParserState>)
        ensures
            outcome(result) == place(parse_term(state@.remaining), state@.remaining),
        decreases state@.remaining.len(), 4nat,
    {
        let ghost s = state@.remaining;
        proof {
            lemma_term_def(s);
            lemma_parse_bounds(s);
        }
        let mut ret = match self.factor(state) {
            None => {
                return None;
            },
            Some(first) => first,
        };
        let ghost mut acc = parse_factor(s).unwrap();
        loop
            invariant
                s == state@.remaining,
                acc.len <= s.len(),
                ret@ == place(Some(acc), s).unwrap(),
                parse_term(s) == Some(term_fold(after(s, acc.len), acc)),
            decreases s.len() - acc.len,
        {
            let ghost rest = after(s, acc.len);
            proof {
                lemma_after_after(s, acc.len, 0);
                lemma_term_fold_def(rest, acc);
                lemma_term_rhs_bounds(rest);
            }
            let mut curr = match self.term_rhs(&ret.state) {
                None => {
                    return Some(ret);
                },
                Some(curr) => curr,
            };
            proof {
                let rhs = parse_term_rhs(rest).unwrap();
                lemma_after_after(s, acc.len, rhs.len);
                acc = attach(acc, rhs);
            }
            curr.prepend_child(ret);
            ret = curr;
        }
    }

    /// `+` or `-` and the term behind it: the node of the operator with the
    /// term at its right and nothing yet at its left.
    pub fn expr_rhs(&self, state: &State) -> (result: Option<ParserState>)
        ensures
            outcome(result) == place(parse_expr_rhs(state@.remaining), state@.remaining),
        decreases state@.remaining.len(), 5nat,
    {
        let ghost s = state@.remaining;
        proof {
            lemma_scan_after(expr_op_pattern(), s, 0);
            assert(after(s, 0) =~= s);
            lemma_symbols_productive();
            expr_op_pattern().lemma_productive(s);
        }
        let op = match expr_op().matches(state) {
            None => {
                return None;
            },
            Some(op) => op,
        };
        let ghost a = expr_op_pattern().scan(s).unwrap();
        proof {
            lemma_parse_bounds(after(s, a.len));
        }
        let term = match self.term(&op) {
            None => {
                return None;
            },
            Some(term) => term,
        };
        proof {
            let b = parse_term(after(s, a.len)).unwrap();
            lemma_after_after(s, a.len, b.len);
        }
        let mut node = ParserState::new::<BinaryOperator>(op);
        node.append_child(term);
        Some(node)
    }

    /// `expr`: a term, then `+` or `-` and a term as often as they follow.
    /// Each operator takes all that was read before it as its left operand,
    /// so `a - b + c` is read as `(a - b) + c`.
    pub fn expr(&self, state: &State) -> (result: Option<ParserState>)
        ensures
            outcome(result) == place(parse_expr(state@.remaining), state@.remaining),
        decreases state@.remaining.len(), 6nat,
    {
        let ghost s = state@.remaining;
        proof {
            lemma_expr_def(s);
            lemma_parse_bounds(s);
        }
        let mut ret = match self.term(state) {
            None => {
                return None;
            },
            Some(first) => first,
        };
        let ghost mut acc = parse_term(s).unwrap();
        loop
            invariant
                s == state@.remaining,
                acc.len <= s.len(),
                ret@ == place(Some(acc), s).unwrap(),
                parse_expr(s) == Some(expr_fold(after(s, acc.len), acc)),
            decreases s.len() - acc.len,
        {
            let ghost rest = after(s, acc.len);
            proof {
                lemma_after_after(s, acc.len, 0);
                lemma_expr_fold_def(rest, acc);
                lemma_expr_rhs_bounds(rest);
            }
            let mut curr = match self.expr_rhs(&ret.state) {
                None => {
                    return Some(ret);
                },
                Some(curr) => curr,
            };
            proof {
                let rhs = parse_expr_rhs(rest).unwrap();
                lemma_after_after(s, acc.len, rhs.len);
                acc = attach(acc, rhs);
            }
            curr.prepend_child(ret);
            ret = curr;
        }
    }
}

} // verus!
