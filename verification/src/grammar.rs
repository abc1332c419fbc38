use vstd::prelude::*;
use crate::ast::Ast;
use crate::lexical::dotted_name_pattern;
use crate::lexical::name_pattern;
use crate::lexical::natural_pattern;
use crate::lexical::ws_pattern;
use crate::numeral::decimal;
use crate::numeral::fits_u32;
use crate::pattern::Match;
use crate::pattern::Pattern;

verus! {

/// What a rule of the grammar found at the start of an input: how many
/// characters it consumed, the text it kept of them, and the tree it built.
pub struct Parse {
    pub len: nat,
    pub text: Seq<char>,
    pub ast: Ast,
}

/// The input `s` without its first `n` characters.
pub open spec fn after(s: Seq<char>, n: nat) -> Seq<char> {
    if n <= s.len() {
        s.skip(n as int)
    } else {
        Seq::empty()
    }
}

/// Blanks, then the one character `c`.
pub open spec fn symbol_pattern(c: char) -> Pattern {
    Pattern::Sequence(seq![ws_pattern(), Pattern::Range(c, c)])
}

/// Blanks, then a natural number.
pub open spec fn number_pattern() -> Pattern {
    Pattern::Sequence(seq![ws_pattern(), natural_pattern()])
}

/// Blanks, then a dollar sign or nothing: what may stand before a dotted name.
pub open spec fn sigil_pattern() -> Pattern {
    Pattern::Sequence(seq![ws_pattern(), Pattern::Optional(Box::new(Pattern::Range('$', '$')))])
}

/// Blanks, then `*`, `/` or `%`.
pub open spec fn term_op_pattern() -> Pattern {
    Pattern::Sequence(
        seq![
            ws_pattern(),
            Pattern::Choice(
                seq![Pattern::Range('*', '*'), Pattern::Range('/', '/'), Pattern::Range('%', '%')],
            ),
        ],
    )
}

/// Blanks, then `+` or `-`.
pub open spec fn expr_op_pattern() -> Pattern {
    Pattern::Sequence(
        seq![ws_pattern(), Pattern::Choice(seq![Pattern::Range('+', '+'), Pattern::Range('-', '-')])],
    )
}

proof fn lemma_symbol_productive(c: char)
    ensures
        symbol_pattern(c).productive(),
{
    let ps = symbol_pattern(c)->Sequence_0;
    assert(ps.len() == 2);
    assert(ps[1] == Pattern::Range(c, c));
    assert(ps[1].productive());
    assert(Pattern::some_productive(ps, 1));
    assert(Pattern::some_productive(ps, 0));
}

/// The patterns that stand for one symbol consume at least one character
/// wherever they match.
pub proof fn lemma_symbols_productive()
    ensures
        forall|c: char| (#[trigger] symbol_pattern(c)).productive(),
        term_op_pattern().productive(),
        expr_op_pattern().productive(),
{
    reveal_with_fuel(Pattern::all_productive, 4);
    assert forall|c: char| (#[trigger] symbol_pattern(c)).productive() by {
        lemma_symbol_productive(c);
    }
    assert(term_op_pattern().productive()) by {
        let ps = term_op_pattern()->Sequence_0;
        let ops = ps[1]->Choice_0;
        assert(ops[0].productive() && ops[1].productive() && ops[2].productive());
        assert(Pattern::all_productive(ops, 0));
        assert(ps[1].productive());
        assert(Pattern::some_productive(ps, 1));
        assert(Pattern::some_productive(ps, 0));
    }
    assert(expr_op_pattern().productive()) by {
        let ps = expr_op_pattern()->Sequence_0;
        let ops = ps[1]->Choice_0;
        assert(ops[0].productive() && ops[1].productive());
        assert(Pattern::all_productive(ops, 0));
        assert(ps[1].productive());
        assert(Pattern::some_productive(ps, 1));
        assert(Pattern::some_productive(ps, 0));
    }
}

/// `natural`: blanks, then a number that fits.
pub open spec fn parse_natural(s: Seq<char>) -> Option<Parse> {
    match number_pattern().scan(s) {
        Some(m) => if fits_u32(m.text) {
            Some(Parse { len: m.len, text: m.text, ast: Ast::Natural(decimal(m.text)) })
        } else {
            None
        },
        None => None,
    }
}

/// `var`: blanks, an optional dollar sign, then a dotted name.
pub open spec fn parse_var(s: Seq<char>) -> Option<Parse> {
    match sigil_pattern().scan(s) {
        None => None,
        Some(sigil) => match dotted_name_pattern().scan(after(s, sigil.len)) {
            None => None,
            Some(name) => Some(
                Parse { len: sigil.len + name.len, text: name.text, ast: Ast::Var(name.text) },
            ),
        },
    }
}

/// The list `list` with the argument `arg`, found behind the comma `comma`,
/// at its end.
pub open spec fn extend(list: Parse, comma: Match, arg: Parse) -> Parse {
    Parse {
        len: list.len + comma.len + arg.len,
        text: list.text + comma.text + arg.text,
        ast: list.ast.append(arg.ast),
    }
}

/// The list that holds the one argument `first`.
pub open spec fn single(first: Parse) -> Parse {
    Parse { len: first.len, text: first.text, ast: Ast::Args(seq![first.ast]) }
}

/// The empty list of arguments, for which nothing is consumed.
pub open spec fn no_args() -> Parse {
    Parse { len: 0, text: Seq::empty(), ast: Ast::Args(Seq::empty()) }
}

/// The call of `name` with `args`, found behind `sigil` and closed by `close`.
pub open spec fn call(sigil: Match, name: Match, args: Parse, close: Match) -> Parse {
    Parse {
        len: sigil.len + name.len + 1 + args.len + close.len,
        text: close.text,
        ast: Ast::Call { name: name.text, args: args.ast->Args_0 },
    }
}

/// The expression `inner`, found between `open` and `close`.
pub open spec fn group(open: Match, inner: Parse, close: Match) -> Parse {
    Parse { len: open.len + inner.len + close.len, text: inner.text + close.text, ast: inner.ast }
}

/// The operator `op` with the operand `right` behind it: the node of the
/// operator, with its left slot still free.
pub open spec fn right_hand_side(op: Match, right: Parse) -> Parse {
    Parse {
        len: op.len + right.len,
        text: op.text + right.text,
        ast: Ast::Binary { op: op.text, left: None, right: Some(Box::new(right.ast)) },
    }
}

/// The operator node `rhs` with `left`, which was read before it, at its left.
pub open spec fn attach(left: Parse, rhs: Parse) -> Parse {
    Parse {
        len: left.len + rhs.len,
        text: left.text + rhs.text,
        ast: rhs.ast.prepend(left.ast),
    }
}

// The rules from here to `parse_expr` call each other. Their bodies are
// closed, so that a proof unfolds a rule only where it asks for it; what each
// body says is stated by the proof function named after the rule, from
// `lemma_args_def` to `lemma_expr_fold_def`.

/// `args`: nothing, or expressions with commas between them.
pub closed spec fn parse_args(s: Seq<char>) -> Option<Parse>
    decreases s.len(), 9nat,
{
    match parse_expr(s) {
        None => Some(no_args()),
        Some(first) => args_fold(after(s, first.len), single(first)),
    }
}

/// The rest of `args`: the arguments in `list` were found, and `rest` is what
/// follows them.
pub closed spec fn args_fold(rest: Seq<char>, list: Parse) -> Option<Parse>
    decreases rest.len(), 8nat,
{
    match symbol_pattern(',').scan(rest) {
        None => Some(list),
        Some(comma) => {
            proof {
                lemma_symbols_productive();
                symbol_pattern(',').lemma_productive(rest);
            }
            match parse_expr(after(rest, comma.len)) {
                None => None,
                Some(arg) => args_fold(
                    after(after(rest, comma.len), arg.len),
                    extend(list, comma, arg),
                ),
            }
        },
    }
}

/// `fcall`: blanks, an optional dollar sign, a dotted name, and the
/// arguments between `(` and `)`.
pub closed spec fn parse_fcall(s: Seq<char>) -> Option<Parse>
    decreases s.len(), 0nat,
{
    match sigil_pattern().scan(s) {
        None => None,
        Some(sigil) => match dotted_name_pattern().scan(after(s, sigil.len)) {
            None => None,
            Some(name) => {
                let at = sigil.len + name.len;
                match Pattern::Range('(', '(').scan(after(s, at)) {
                    None => None,
                    Some(_) => match parse_args(after(s, at + 1)) {
                        None => None,
                        Some(args) => match Pattern::Range(')', ')').scan(
                            after(s, at + 1 + args.len),
                        ) {
                            None => None,
                            Some(close) => Some(call(sigil, name, args, close)),
                        },
                    },
                }
            },
        },
    }
}

/// `id`: a call, else a number, else a variable.
pub closed spec fn parse_id(s: Seq<char>) -> Option<Parse>
    decreases s.len(), 1nat,
{
    match parse_fcall(s) {
        Some(call) => Some(call),
        None => match parse_natural(s) {
            Some(value) => Some(value),
            None => parse_var(s),
        },
    }
}

/// `factor`: an `id`, else an expression between `(` and `)`.
pub closed spec fn parse_factor(s: Seq<char>) -> Option<Parse>
    decreases s.len(), 2nat,
{
    match parse_id(s) {
        Some(id) => Some(id),
        None => match symbol_pattern('(').scan(s) {
            None => None,
            Some(open) => {
                proof {
                    lemma_symbols_productive();
                    symbol_pattern('(').lemma_productive(s);
                }
                match parse_expr(after(s, open.len)) {
                    None => None,
                    Some(inner) => match symbol_pattern(')').scan(
                        after(s, open.len + inner.len),
                    ) {
                        None => None,
                        Some(close) => Some(group(open, inner, close)),
                    },
                }
            },
        },
    }
}

/// The rest of `term`: `left` was found, and `rest` is what follows it.
pub closed spec fn term_fold(rest: Seq<char>, left: Parse) -> Parse
    decreases rest.len(), 3nat,
{
    match term_op_pattern().scan(rest) {
        None => left,
        Some(op) => {
            proof {
                lemma_symbols_productive();
                term_op_pattern().lemma_productive(rest);
            }
            match parse_factor(after(rest, op.len)) {
                None => left,
                Some(right) => term_fold(
                    after(after(rest, op.len), right.len),
                    attach(left, right_hand_side(op, right)),
                ),
            }
        },
    }
}

/// `term`: factors with `*`, `/` or `%` between them, nested to the left.
pub closed spec fn parse_term(s: Seq<char>) -> Option<Parse>
    decreases s.len(), 4nat,
{
    match parse_factor(s) {
        None => None,
        Some(first) => Some(term_fold(after(s, first.len), first)),
    }
}

/// The rest of `expr`: `left` was found, and `rest` is what follows it.
pub closed spec fn expr_fold(rest: Seq<char>, left: Parse) -> Parse
    decreases rest.len(), 5nat,
{
    match expr_op_pattern().scan(rest) {
        None => left,
        Some(op) => {
            proof {
                lemma_symbols_productive();
                expr_op_pattern().lemma_productive(rest);
            }
            match parse_term(after(rest, op.len)) {
                None => left,
                Some(right) => expr_fold(
                    after(after(rest, op.len), right.len),
                    attach(left, right_hand_side(op, right)),
                ),
            }
        },
    }
}

/// `expr`: terms with `+` or `-` between them, nested to the left.
pub closed spec fn parse_expr(s: Seq<char>) -> Option<Parse>
    decreases s.len(), 6nat,
{
    match parse_term(s) {
        None => None,
        Some(first) => Some(expr_fold(after(s, first.len), first)),
    }
}

/// `*`, `/` or `%` and the factor behind it.
pub open spec fn parse_term_rhs(s: Seq<char>) -> Option<Parse> {
    match term_op_pattern().scan(s) {
        None => None,
        Some(op) => match parse_factor(after(s, op.len)) {
            None => None,
            Some(right) => Some(right_hand_side(op, right)),
        },
    }
}

/// `+` or `-` and the term behind it.
pub open spec fn parse_expr_rhs(s: Seq<char>) -> Option<Parse> {
    match expr_op_pattern().scan(s) {
        None => None,
        Some(op) => match parse_term(after(s, op.len)) {
            None => None,
            Some(right) => Some(right_hand_side(op, right)),
        },
    }
}

/// Dropping `a` characters and then `b` is dropping `a + b`, while the input
/// has that many.
pub proof fn lemma_after_after(s: Seq<char>, a: nat, b: nat)
    requires
        a + b <= s.len(),
    ensures
        after(after(s, a), b) == after(s, a + b),
        after(s, a).len() == s.len() - a,
        after(s, a) == s.skip(a as int),
{
    assert(s.skip(a as int).skip(b as int) =~= s.skip((a + b) as int));
}

/// Where `p` matches behind the first `k` characters of `s`, the match ends
/// inside `s`, and what follows it is `s` without its first `k + m.len`
/// characters.
pub proof fn lemma_scan_after(p: Pattern, s: Seq<char>, k: nat)
    requires
        k <= s.len(),
    ensures
        after(s, k) == s.skip(k as int),
        p.scan(after(s, k)) matches Some(m) ==> k + m.len <= s.len() && after(s, k).skip(
            m.len as int,
        ) == after(s, k + m.len) && after(after(s, k), m.len) == after(s, k + m.len),
{
    p.lemma_scan_bounds(after(s, k));
    if let Some(m) = p.scan(after(s, k)) {
        lemma_after_after(s, k, m.len);
    }
}

/// `args` is `expr` as often as commas follow, or nothing.
pub proof fn lemma_args_def(s: Seq<char>)
    ensures
        parse_args(s) == match parse_expr(s) {
            None => Some(no_args()),
            Some(first) => args_fold(after(s, first.len), single(first)),
        },
{
}

/// The rest of `args`: a comma and an expression, and the rest behind them;
/// or no comma, and the list is complete; or a comma and no expression, and
/// there is no list.
pub proof fn lemma_args_fold_def(rest: Seq<char>, list: Parse)
    ensures
        args_fold(rest, list) == match symbol_pattern(',').scan(rest) {
            None => Some(list),
            Some(comma) => match parse_expr(after(rest, comma.len)) {
                None => None,
                Some(arg) => args_fold(
                    after(rest, comma.len + arg.len),
                    extend(list, comma, arg),
                ),
            },
        },
{
    lemma_scan_after(symbol_pattern(','), rest, 0);
    assert(after(rest, 0) =~= rest);
    if let Some(comma) = symbol_pattern(',').scan(rest) {
        lemma_expr_bounds(after(rest, comma.len));
        if let Some(arg) = parse_expr(after(rest, comma.len)) {
            lemma_after_after(rest, comma.len, arg.len);
        }
    }
}

/// `fcall` is its five pieces one behind the other.
pub proof fn lemma_fcall_def(s: Seq<char>)
    ensures
        parse_fcall(s) == match sigil_pattern().scan(s) {
            None => None,
            Some(sigil) => match dotted_name_pattern().scan(after(s, sigil.len)) {
                None => None,
                Some(name) => {
                    let at = sigil.len + name.len;
                    match Pattern::Range('(', '(').scan(after(s, at)) {
                        None => None,
                        Some(_) => match parse_args(after(s, at + 1)) {
                            None => None,
                            Some(args) => match Pattern::Range(')', ')').scan(
                                after(s, at + 1 + args.len),
                            ) {
                                None => None,
                                Some(close) => Some(call(sigil, name, args, close)),
                            },
                        },
                    }
                },
            },
        },
{
}

/// `id` is the first of `fcall`, `natural` and `var` that matches.
pub proof fn lemma_id_def(s: Seq<char>)
    ensures
        parse_id(s) == match parse_fcall(s) {
            Some(call) => Some(call),
            None => match parse_natural(s) {
                Some(value) => Some(value),
                None => parse_var(s),
            },
        },
{
}

/// `factor` is `id`, or else an expression in parentheses.
pub proof fn lemma_factor_def(s: Seq<char>)
    ensures
        parse_factor(s) == match parse_id(s) {
            Some(id) => Some(id),
            None => match symbol_pattern('(').scan(s) {
                None => None,
                Some(open) => match parse_expr(after(s, open.len)) {
                    None => None,
                    Some(inner) => match symbol_pattern(')').scan(
                        after(s, open.len + inner.len),
                    ) {
                        None => None,
                        Some(close) => Some(group(open, inner, close)),
                    },
                },
            },
        },
{
}

/// `term` is a factor and what the fold makes of the rest.
pub proof fn lemma_term_def(s: Seq<char>)
    ensures
        parse_term(s) == match parse_factor(s) {
            None => None,
            Some(first) => Some(term_fold(after(s, first.len), first)),
        },
{
}

/// The fold of `term`: where an operator and a factor follow, the operator
/// takes `left` as its left operand and the fold goes on behind the factor;
/// else `left` is the result.
pub proof fn lemma_term_fold_def(rest: Seq<char>, left: Parse)
    ensures
        term_fold(rest, left) == match parse_term_rhs(rest) {
            None => left,
            Some(rhs) => term_fold(after(rest, rhs.len), attach(left, rhs)),
        },
{
    lemma_scan_after(term_op_pattern(), rest, 0);
    assert(after(rest, 0) =~= rest);
    if let Some(op) = term_op_pattern().scan(rest) {
        lemma_factor_bounds(after(rest, op.len));
        if let Some(right) = parse_factor(after(rest, op.len)) {
            lemma_after_after(rest, op.len, right.len);
        }
    }
}

/// `expr` is a term and what the fold makes of the rest.
pub proof fn lemma_expr_def(s: Seq<char>)
    ensures
        parse_expr(s) == match parse_term(s) {
            None => None,
            Some(first) => Some(expr_fold(after(s, first.len), first)),
        },
{
}

/// The fold of `expr`: where an operator and a term follow, the operator
/// takes `left` as its left operand and the fold goes on behind the term;
/// else `left` is the result.
pub proof fn lemma_expr_fold_def(rest: Seq<char>, left: Parse)
    ensures
        expr_fold(rest, left) == match parse_expr_rhs(rest) {
            None => left,
            Some(rhs) => expr_fold(after(rest, rhs.len), attach(left, rhs)),
        },
{
    lemma_scan_after(expr_op_pattern(), rest, 0);
    assert(after(rest, 0) =~= rest);
    if let Some(op) = expr_op_pattern().scan(rest) {
        lemma_term_bounds(after(rest, op.len));
        if let Some(right) = parse_term(after(rest, op.len)) {
            lemma_after_after(rest, op.len, right.len);
        }
    }
}

/// No rule consumes more than the input holds, and every rule but `args`
/// consumes at least one character.
pub proof fn lemma_parse_bounds(s: Seq<char>)
    ensures
        parse_natural(s) matches Some(p) ==> 1 <= p.len <= s.len(),
        parse_var(s) matches Some(p) ==> 1 <= p.len <= s.len(),
        parse_fcall(s) matches Some(p) ==> 1 <= p.len <= s.len(),
        parse_id(s) matches Some(p) ==> 1 <= p.len <= s.len(),
        parse_factor(s) matches Some(p) ==> 1 <= p.len <= s.len(),
        parse_term(s) matches Some(p) ==> 1 <= p.len <= s.len(),
        parse_expr(s) matches Some(p) ==> 1 <= p.len <= s.len(),
        parse_args(s) matches Some(p) ==> p.len <= s.len() && p.ast is Args,
        parse_term_rhs(s) matches Some(p) ==> 1 <= p.len <= s.len(),
        parse_expr_rhs(s) matches Some(p) ==> 1 <= p.len <= s.len(),
{
    lemma_natural_bounds(s);
    lemma_var_bounds(s);
    lemma_fcall_bounds(s);
    lemma_id_bounds(s);
    lemma_factor_bounds(s);
    lemma_term_bounds(s);
    lemma_expr_bounds(s);
    lemma_args_bounds(s);
    lemma_term_rhs_bounds(s);
    lemma_expr_rhs_bounds(s);
}

/// `*`, `/` or `%` with its factor consumes at least one character and stays
/// inside the input.
pub proof fn lemma_term_rhs_bounds(s: Seq<char>)
    ensures
        parse_term_rhs(s) matches Some(p) ==> 1 <= p.len <= s.len(),
{
    lemma_symbols_productive();
    term_op_pattern().lemma_productive(s);
    if let Some(op) = term_op_pattern().scan(s) {
        lemma_factor_bounds(after(s, op.len));
        lemma_after_after(s, op.len, 0);
    }
}

/// `+` or `-` with its term consumes at least one character and stays inside
/// the input.
pub proof fn lemma_expr_rhs_bounds(s: Seq<char>)
    ensures
        parse_expr_rhs(s) matches Some(p) ==> 1 <= p.len <= s.len(),
{
    lemma_symbols_productive();
    expr_op_pattern().lemma_productive(s);
    if let Some(op) = expr_op_pattern().scan(s) {
        lemma_term_bounds(after(s, op.len));
        lemma_after_after(s, op.len, 0);
    }
}

proof fn lemma_natural_bounds(s: Seq<char>)
    ensures
        parse_natural(s) matches Some(p) ==> 1 <= p.len <= s.len(),
{
    let ps = number_pattern()->Sequence_0;
    assert(ps.len() == 2);
    let alts = natural_pattern()->Choice_0;
    assert(alts.len() == 2);
    let nonzero = alts[1]->Sequence_0;
    assert(nonzero.len() == 2);
    assert(nonzero[0].productive());
    assert(Pattern::some_productive(nonzero, 0));
    assert(alts[1].productive());
    assert(alts[0].productive());
    assert(Pattern::all_productive(alts, 2));
    assert(Pattern::all_productive(alts, 1));
    assert(Pattern::all_productive(alts, 0));
    assert(ps[1].productive());
    assert(Pattern::some_productive(ps, 1));
    assert(Pattern::some_productive(ps, 0));
    number_pattern().lemma_productive(s);
}

/// A name, and so a dotted name, consumes at least one character.
pub proof fn lemma_name_productive()
    ensures
        name_pattern().productive(),
        dotted_name_pattern().productive(),
{
    let name = name_pattern();
    let ps = name->Sequence_0;
    assert(ps.len() == 2);
    let letters = ps[0]->Choice_0;
    assert(letters.len() == 2);
    assert(letters[0].productive() && letters[1].productive());
    assert(Pattern::all_productive(letters, 2));
    assert(Pattern::all_productive(letters, 1));
    assert(Pattern::all_productive(letters, 0));
    assert(ps[0].productive());
    assert(Pattern::some_productive(ps, 0));
    assert(name.productive());
    let ds = dotted_name_pattern()->Sequence_0;
    assert(ds.len() == 2);
    assert(ds[1] == name);
    assert(Pattern::some_productive(ds, 1));
    assert(Pattern::some_productive(ds, 0));
}

proof fn lemma_var_bounds(s: Seq<char>)
    ensures
        parse_var(s) matches Some(p) ==> 1 <= p.len <= s.len(),
{
    lemma_name_productive();
    lemma_scan_after(sigil_pattern(), s, 0);
    assert(after(s, 0) =~= s);
    if let Some(sigil) = sigil_pattern().scan(s) {
        dotted_name_pattern().lemma_productive(after(s, sigil.len));
    }
}

proof fn lemma_fcall_bounds(s: Seq<char>)
    ensures
        parse_fcall(s) matches Some(p) ==> 1 <= p.len <= s.len(),
    decreases s.len(), 0nat,
{
    lemma_name_productive();
    lemma_scan_after(sigil_pattern(), s, 0);
    assert(after(s, 0) =~= s);
    if let Some(sigil) = sigil_pattern().scan(s) {
        lemma_scan_after(dotted_name_pattern(), s, sigil.len);
        if let Some(name) = dotted_name_pattern().scan(after(s, sigil.len)) {
            let at = sigil.len + name.len;
            lemma_scan_after(Pattern::Range('(', '('), s, at);
            if Pattern::Range('(', '(').scan(after(s, at)) is Some {
                lemma_args_bounds(after(s, at + 1));
                lemma_after_after(s, at + 1, 0);
                if let Some(args) = parse_args(after(s, at + 1)) {
                    lemma_scan_after(Pattern::Range(')', ')'), s, at + 1 + args.len);
                }
            }
        }
    }
}

proof fn lemma_id_bounds(s: Seq<char>)
    ensures
        parse_id(s) matches Some(p) ==> 1 <= p.len <= s.len(),
    decreases s.len(), 1nat,
{
    lemma_fcall_bounds(s);
    lemma_natural_bounds(s);
    lemma_var_bounds(s);
}

proof fn lemma_factor_bounds(s: Seq<char>)
    ensures
        parse_factor(s) matches Some(p) ==> 1 <= p.len <= s.len(),
    decreases s.len(), 2nat,
{
    lemma_id_bounds(s);
    lemma_symbols_productive();
    symbol_pattern('(').lemma_productive(s);
    if let Some(open) = symbol_pattern('(').scan(s) {
        lemma_after_after(s, open.len, 0);
        lemma_expr_bounds(after(s, open.len));
        if let Some(inner) = parse_expr(after(s, open.len)) {
            lemma_scan_after(symbol_pattern(')'), s, open.len + inner.len);
        }
    }
}

proof fn lemma_term_fold_bounds(rest: Seq<char>, left: Parse)
    ensures
        left.len <= term_fold(rest, left).len <= left.len + rest.len(),
    decreases rest.len(), 3nat,
{
    lemma_symbols_productive();
    term_op_pattern().lemma_productive(rest);
    if let Some(op) = term_op_pattern().scan(rest) {
        let s1 = after(rest, op.len);
        lemma_after_after(rest, op.len, 0);
        lemma_factor_bounds(s1);
        if let Some(right) = parse_factor(s1) {
            lemma_after_after(s1, right.len, 0);
            lemma_term_fold_bounds(after(s1, right.len), attach(left, right_hand_side(op, right)));
        }
    }
}

proof fn lemma_term_bounds(s: Seq<char>)
    ensures
        parse_term(s) matches Some(p) ==> 1 <= p.len <= s.len(),
    decreases s.len(), 4nat,
{
    lemma_factor_bounds(s);
    if let Some(first) = parse_factor(s) {
        lemma_after_after(s, first.len, 0);
        lemma_term_fold_bounds(after(s, first.len), first);
    }
}

proof fn lemma_expr_fold_bounds(rest: Seq<char>, left: Parse)
    ensures
        left.len <= expr_fold(rest, left).len <= left.len + rest.len(),
    decreases rest.len(), 5nat,
{
    lemma_symbols_productive();
    expr_op_pattern().lemma_productive(rest);
    if let Some(op) = expr_op_pattern().scan(rest) {
        let s1 = after(rest, op.len);
        lemma_after_after(rest, op.len, 0);
        lemma_term_bounds(s1);
        if let Some(right) = parse_term(s1) {
            lemma_after_after(s1, right.len, 0);
            lemma_expr_fold_bounds(after(s1, right.len), attach(left, right_hand_side(op, right)));
        }
    }
}

proof fn lemma_expr_bounds(s: Seq<char>)
    ensures
        parse_expr(s) matches Some(p) ==> 1 <= p.len <= s.len(),
    decreases s.len(), 6nat,
{
    lemma_term_bounds(s);
    if let Some(first) = parse_term(s) {
        lemma_after_after(s, first.len, 0);
        lemma_expr_fold_bounds(after(s, first.len), first);
    }
}

proof fn lemma_args_fold_bounds(rest: Seq<char>, list: Parse)
    requires
        list.ast is Args,
    ensures
        args_fold(rest, list) matches Some(p) ==> list.len <= p.len <= list.len + rest.len()
            && p.ast is Args,
    decreases rest.len(), 8nat,
{
    lemma_symbols_productive();
    symbol_pattern(',').lemma_productive(rest);
    if let Some(comma) = symbol_pattern(',').scan(rest) {
        let s1 = after(rest, comma.len);
        lemma_after_after(rest, comma.len, 0);
        lemma_expr_bounds(s1);
        if let Some(arg) = parse_expr(s1) {
            lemma_after_after(s1, arg.len, 0);
            lemma_args_fold_bounds(after(s1, arg.len), extend(list, comma, arg));
        }
    }
}

/// `args` consumes no more than the input holds, and builds a list.
pub proof fn lemma_args_bounds(s: Seq<char>)
    ensures
        parse_args(s) matches Some(p) ==> p.len <= s.len() && p.ast is Args,
    decreases s.len(), 9nat,
{
    lemma_expr_bounds(s);
    if let Some(first) = parse_expr(s) {
        lemma_after_after(s, first.len, 0);
        lemma_args_fold_bounds(after(s, first.len), single(first));
    }
}

} // verus!
