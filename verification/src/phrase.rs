use vstd::prelude::*;
use crate::ast::Ast;
use crate::basic_parser::Cursor;
use crate::classes::CharClass;
use crate::grammar::after;
use crate::grammar::args_fold;
use crate::grammar::attach;
use crate::grammar::expr_fold;
use crate::grammar::extend;
use crate::grammar::lemma_after_after;
use crate::grammar::lemma_args_def;
use crate::grammar::lemma_args_fold_def;
use crate::grammar::lemma_expr_def;
use crate::grammar::lemma_expr_fold_def;
use crate::grammar::lemma_factor_def;
use crate::grammar::lemma_fcall_def;
use crate::grammar::lemma_id_def;
use crate::grammar::lemma_term_def;
use crate::grammar::lemma_term_fold_def;
use crate::grammar::no_args;
use crate::grammar::Parse;
use crate::grammar::parse_args;
use crate::grammar::parse_expr;
use crate::grammar::parse_expr_rhs;
use crate::grammar::parse_factor;
use crate::grammar::parse_fcall;
use crate::grammar::parse_id;
use crate::grammar::parse_term;
use crate::grammar::parse_term_rhs;
use crate::grammar::right_hand_side;
use crate::grammar::single;
use crate::grammar::term_fold;
use crate::lexical::dotted_name_pattern;
use crate::lexical::name_pattern;
use crate::lexical::qualifier_pattern;
use crate::lexical::ws_pattern;
use crate::numeral::decimal;
use crate::numeral::fits_u32;
use crate::parser::Parsed;
use crate::parser::place;
use crate::pattern::Match;
use crate::pattern::nothing;
use crate::pattern::Pattern;
use crate::tokens::is_expr_op;
use crate::tokens::is_term_op;
use crate::tokens::lemma_expr_op;
use crate::tokens::lemma_name;
use crate::tokens::lemma_number;
use crate::tokens::lemma_sigil;
use crate::tokens::lemma_symbol;
use crate::tokens::lemma_term_op;
use crate::tokens::lemma_ws;
use crate::tokens::natural_len;
use crate::tokens::shows;
use crate::tokens::unblank;

verus! {

/// Whether `t` is written as a name: a letter, then letters, digits and
/// underscores.
pub open spec fn is_name(t: Seq<char>) -> bool {
    CharClass::Letter.starts(t) && CharClass::Word.all(t)
}

/// Whether `t` is written as a natural number that fits into 32 bits: `0`,
/// or digits of which the first is not `0`.
pub open spec fn is_literal(t: Seq<char>) -> bool {
    fits_u32(t) && (t.len() == 1 || t[0] != '0')
}

/// One part of a dotted name that is not its last: the name, the blanks
/// before the dot and the blanks after it.
pub struct Qualifier {
    pub name: Seq<char>,
    pub before: Seq<char>,
    pub after: Seq<char>,
}

impl Qualifier {
    /// Whether the part is written as the lexical rules ask.
    pub open spec fn wf(self) -> bool {
        is_name(self.name) && CharClass::Blank.all(self.before) && CharClass::Blank.all(self.after)
    }

    /// The part as it is written.
    pub open spec fn text(self) -> Seq<char> {
        self.name + (self.before + (seq!['.'] + self.after))
    }

    /// What is kept of the part: the name and the dot.
    pub open spec fn kept(self) -> Seq<char> {
        self.name + seq!['.']
    }
}

/// A dotted name as it is written: the parts before the last name, and the
/// last name.
pub struct Path {
    pub qualifiers: Seq<Qualifier>,
    pub last: Seq<char>,
}

impl Path {
    /// Whether every part is written as the lexical rules ask.
    pub open spec fn wf(self) -> bool {
        is_name(self.last) && forall|i: int|
            0 <= i < self.qualifiers.len() ==> (#[trigger] self.qualifiers[i]).wf()
    }

    /// The parts from part `i` on that stand before the last name, as they
    /// are written.
    pub open spec fn lead_from(self, i: nat) -> Seq<char>
        decreases self.qualifiers.len() - i,
    {
        if i >= self.qualifiers.len() {
            Seq::empty()
        } else {
            self.qualifiers[i as int].text() + self.lead_from(i + 1)
        }
    }

    /// What is kept of the parts from part `i` on that stand before the last
    /// name: each name and a dot behind it.
    pub open spec fn lead_kept_from(self, i: nat) -> Seq<char>
        decreases self.qualifiers.len() - i,
    {
        if i >= self.qualifiers.len() {
            Seq::empty()
        } else {
            self.qualifiers[i as int].kept() + self.lead_kept_from(i + 1)
        }
    }

    /// The dotted name as it is written.
    pub open spec fn text(self) -> Seq<char> {
        self.lead_from(0) + self.last
    }

    /// The dotted name without the blanks round its dots.
    pub open spec fn kept(self) -> Seq<char> {
        self.lead_kept_from(0) + self.last
    }
}

/// Whether what follows a dotted name ends it: no letter, digit or
/// underscore, and no dot behind blanks.
pub open spec fn ends_name(rest: Seq<char>) -> bool {
    !CharClass::Word.starts(rest) && !shows(rest, '.')
}

/// Whether what follows a factor ends it: it ends a name, and is no `(`.
pub open spec fn ends_factor(rest: Seq<char>) -> bool {
    ends_name(rest) && !(rest.len() > 0 && rest[0] == '(')
}

/// Whether what follows a term ends it: it ends a factor, and no `*`, `/` or
/// `%` stands behind blanks.
pub open spec fn ends_term(rest: Seq<char>) -> bool {
    ends_factor(rest) && !(unblank(rest).len() > 0 && is_term_op(unblank(rest)[0]))
}

/// Whether what follows an expression ends it: it ends a term, and no `+` or
/// `-` stands behind blanks.
pub open spec fn ends_expr(rest: Seq<char>) -> bool {
    ends_term(rest) && !(unblank(rest).len() > 0 && is_expr_op(unblank(rest)[0]))
}

/// The two halves of a text that was put together from `a` and `b`.
pub proof fn lemma_split(a: Seq<char>, b: Seq<char>)
    ensures
        (a + b).len() == a.len() + b.len(),
        (a + b).take(a.len() as int) == a,
        (a + b).skip(a.len() as int) == b,
        a.len() > 0 ==> (a + b)[0] == a[0],
        a.len() == 0 ==> a + b == b,
{
    assert((a + b).take(a.len() as int) =~= a);
    assert((a + b).skip(a.len() as int) =~= b);
    if a.len() == 0 {
        assert(a + b =~= b);
    }
}

/// Putting three texts together gives the same text in either grouping.
pub proof fn lemma_regroup(a: Seq<char>, b: Seq<char>, c: Seq<char>)
    ensures
        (a + b) + c == a + (b + c),
{
    assert((a + b) + c =~= a + (b + c));
}

/// Blanks in front of a text that does not begin with a blank are the run
/// of blanks of the whole.
pub proof fn lemma_blanks_then(blanks: Seq<char>, x: Seq<char>)
    requires
        CharClass::Blank.all(blanks),
        !CharClass::Blank.starts(x),
    ensures
        CharClass::Blank.run(blanks + x) == blanks.len(),
        unblank(blanks + x) == x,
{
    lemma_split(blanks, x);
    CharClass::Blank.lemma_run_is(blanks + x, blanks.len());
}

/// A name in front of a text that does not go on with a letter, a digit or
/// an underscore is the name that stands at the start of the whole.
pub proof fn lemma_name_then(name: Seq<char>, x: Seq<char>)
    requires
        is_name(name),
        !CharClass::Word.starts(x),
    ensures
        name_pattern().scan(name + x) == Some(Match { len: name.len(), text: name }),
{
    let s = name + x;
    lemma_split(name, x);
    lemma_name(s);
    let n = (name.len() - 1) as nat;
    let rest = s.skip(1);
    assert(rest.skip(n as int) =~= x);
    assert forall|i: int| 0 <= i < n implies CharClass::Word.has(#[trigger] rest.take(n as int)[i]) by {
        assert(rest.take(n as int)[i] == name[i + 1]);
    }
    CharClass::Word.lemma_run_is(rest, n);
}

/// The four members of the rule for a part of a dotted name.
proof fn lemma_qualifier_members()
    ensures
        qualifier_pattern() == Pattern::Sequence(
            seq![name_pattern(), ws_pattern(), Pattern::Range('.', '.'), ws_pattern()],
        ),
        qualifier_pattern()->Sequence_0.len() == 4,
        qualifier_pattern()->Sequence_0[0] == name_pattern(),
        qualifier_pattern()->Sequence_0[1] == ws_pattern(),
        qualifier_pattern()->Sequence_0[2] == Pattern::Range('.', '.'),
        qualifier_pattern()->Sequence_0[3] == ws_pattern(),
{
}

/// A part of a dotted name, with a letter behind it, is matched whole by the
/// rule for such parts; the name and the dot are kept.
pub proof fn lemma_qualifier(q: Qualifier, x: Seq<char>)
    requires
        q.wf(),
        CharClass::Letter.starts(x),
    ensures
        qualifier_pattern().scan(q.text() + x) == Some(
            Match { len: q.text().len(), text: q.kept() },
        ),
{
    lemma_qualifier_members();
    let ps = qualifier_pattern()->Sequence_0;
    let dot = seq!['.'];
    let s0 = q.text() + x;
    let s1 = q.before + (dot + (q.after + x));
    let s2 = dot + (q.after + x);
    let s3 = q.after + x;
    assert(s0 =~= q.name + s1);
    lemma_split(q.name, s1);
    lemma_split(q.before, s2);
    lemma_split(dot, s3);
    lemma_split(q.after, x);
    // the name
    assert(!CharClass::Word.starts(s1)) by {
        if q.before.len() > 0 {
            assert(CharClass::Blank.has(q.before[0]));
        }
    }
    lemma_name_then(q.name, s1);
    // the blanks before the dot
    lemma_ws(s1);
    lemma_blanks_then(q.before, s2);
    // the dot, and the blanks behind it
    lemma_ws(s3);
    lemma_blanks_then(q.after, x);
    Pattern::lemma_scan_all_step(ps, 0, s0);
    Pattern::lemma_scan_all_step(ps, 1, s1);
    Pattern::lemma_scan_all_step(ps, 2, s2);
    Pattern::lemma_scan_all_step(ps, 3, s3);
    Pattern::lemma_scan_all_step(ps, 4, x);
    assert(ps[2].scan(s2) == Some(Match { len: 1, text: dot }));
    assert(s0.skip(q.name.len() as int) == s1);
    assert(s1.skip(q.before.len() as int) == s2);
    assert(s2.skip(1) == s3);
    assert(s3.skip(q.after.len() as int) == x);
    assert(Seq::<char>::empty() + Seq::<char>::empty() =~= Seq::<char>::empty());
    assert(dot + Seq::<char>::empty() =~= dot);
    assert(Seq::<char>::empty() + dot =~= dot);
    assert(q.text().len() == q.name.len() + q.before.len() + 1 + q.after.len());
}

/// A last name, with what ends a name behind it, is no part of a dotted
/// name that has a dot behind it.
pub proof fn lemma_no_qualifier(last: Seq<char>, rest: Seq<char>)
    requires
        is_name(last),
        ends_name(rest),
    ensures
        qualifier_pattern().scan(last + rest) is None,
{
    lemma_qualifier_members();
    let ps = qualifier_pattern()->Sequence_0;
    let s0 = last + rest;
    lemma_split(last, rest);
    lemma_name_then(last, rest);
    lemma_ws(rest);
    let s2 = unblank(rest);
    Pattern::lemma_scan_all_step(ps, 0, s0);
    Pattern::lemma_scan_all_step(ps, 1, rest);
    Pattern::lemma_scan_all_step(ps, 2, s2);
    assert(ps[2].scan(s2) is None);
}

impl Path {
    /// What stands at part `i` of a dotted name begins with a letter.
    pub proof fn lemma_starts_with_letter(self, i: nat, rest: Seq<char>)
        requires
            self.wf(),
        ensures
            CharClass::Letter.starts(self.lead_from(i) + (self.last + rest)),
    {
        if i >= self.qualifiers.len() {
            lemma_split(self.lead_from(i), self.last + rest);
            lemma_split(self.last, rest);
        } else {
            let q = self.qualifiers[i as int];
            assert(q.wf());
            assert(self.lead_from(i)[0] == q.name[0]);
            lemma_split(self.lead_from(i), self.last + rest);
        }
    }

    /// Repeating the rule for the parts of a dotted name matches all the
    /// parts before the last name.
    pub proof fn lemma_lead(self, i: nat, rest: Seq<char>)
        requires
            self.wf(),
            ends_name(rest),
        ensures
            Pattern::scan_many(qualifier_pattern(), self.lead_from(i) + (self.last + rest)) == (Match {
                len: self.lead_from(i).len(),
                text: self.lead_kept_from(i),
            }),
        decreases self.qualifiers.len() - i,
    {
        let s = self.lead_from(i) + (self.last + rest);
        if i >= self.qualifiers.len() {
            lemma_split(self.lead_from(i), self.last + rest);
            lemma_no_qualifier(self.last, rest);
        } else {
            let q = self.qualifiers[i as int];
            assert(q.wf());
            let x = self.lead_from(i + 1) + (self.last + rest);
            assert(s =~= q.text() + x);
            self.lemma_starts_with_letter(i + 1, rest);
            lemma_qualifier(q, x);
            lemma_split(q.text(), x);
            self.lemma_lead(i + 1, rest);
            assert(q.text().len() > 0);
        }
    }

    /// A dotted name, with what ends a name behind it, is matched whole;
    /// the blanks round its dots are not kept.
    pub proof fn lemma_dotted(self, rest: Seq<char>)
        requires
            self.wf(),
            ends_name(rest),
        ensures
            dotted_name_pattern().scan(self.text() + rest) == Some(
                Match { len: self.text().len(), text: self.kept() },
            ),
    {
        let s = self.text() + rest;
        let lead = self.lead_from(0);
        assert(s =~= lead + (self.last + rest));
        self.lemma_lead(0, rest);
        lemma_split(lead, self.last + rest);
        lemma_name_then(self.last, rest);
        Pattern::lemma_pair(
            Pattern::ZeroOrMore(Box::new(qualifier_pattern())),
            name_pattern(),
            s,
        );
    }
}

/// A dotted name cannot begin with anything but a letter.
pub proof fn lemma_dotted_needs_letter(s: Seq<char>)
    requires
        !CharClass::Letter.starts(s),
    ensures
        dotted_name_pattern().scan(s) is None,
{
    lemma_qualifier_members();
    let ps = qualifier_pattern()->Sequence_0;
    lemma_name(s);
    Pattern::lemma_scan_all_step(ps, 0, s);
    assert(qualifier_pattern().scan(s) is None);
    assert(Pattern::scan_many(qualifier_pattern(), s) == nothing());
    assert(s.skip(0) =~= s);
    Pattern::lemma_pair(Pattern::ZeroOrMore(Box::new(qualifier_pattern())), name_pattern(), s);
}

/// An expression as it is written, with the blanks that stand in it.
pub enum Phrase {
    /// A natural number, behind blanks.
    Number { blanks: Seq<char>, digits: Seq<char> },
    /// A variable, behind blanks: a dollar sign or none, and a dotted name.
    Variable { blanks: Seq<char>, dollar: bool, path: Path },
    /// An expression between `(` and `)`, each of the two behind blanks.
    Group { blanks: Seq<char>, inner: Box<Phrase>, close: Seq<char> },
    /// Two operands with an operator, behind blanks, between them.
    Infix { left: Box<Phrase>, blanks: Seq<char>, op: char, right: Box<Phrase> },
    /// A call, behind blanks: a dollar sign or none, a dotted name, and the
    /// arguments between `(` and `)`. `gaps[i]` holds the blanks before the
    /// comma that follows `args[i]`.
    Call { blanks: Seq<char>, dollar: bool, path: Path, args: Seq<Phrase>, gaps: Seq<Seq<char>> },
}

/// The dollar sign, or nothing.
pub open spec fn sign(dollar: bool) -> Seq<char> {
    if dollar {
        seq!['$']
    } else {
        Seq::empty()
    }
}

impl Phrase {
    /// The phrase as it is written.
    pub open spec fn text(self) -> Seq<char>
        decreases self, 0nat,
    {
        match self {
            Phrase::Number { blanks, digits } => blanks + digits,
            Phrase::Variable { blanks, dollar, path } => blanks + (sign(dollar) + path.text()),
            Phrase::Group { blanks, inner, close } => blanks + (seq!['('] + (inner.text() + (close
                + seq![')']))),
            Phrase::Infix { left, blanks, op, right } => left.text() + (blanks + (seq![op]
                + right.text())),
            Phrase::Call { blanks, dollar, path, args, gaps } => blanks + (sign(dollar) + (
            path.text() + (seq!['('] + (Self::list_text(args, gaps) + seq![')'])))),
        }
    }

    /// The arguments of a call as they are written, with the commas between
    /// them.
    pub open spec fn list_text(args: Seq<Phrase>, gaps: Seq<Seq<char>>) -> Seq<char>
        decreases args, args.len() + 1,
    {
        if args.len() == 0 {
            Seq::empty()
        } else {
            args[0].text() + Self::rest_text(args, gaps, 0)
        }
    }

    /// What is written behind `args[i]`: a comma and the next argument, as
    /// long as there is one.
    pub open spec fn rest_text(args: Seq<Phrase>, gaps: Seq<Seq<char>>, i: nat) -> Seq<char>
        decreases args, args.len() - i,
    {
        if i + 1 >= args.len() {
            Seq::empty()
        } else {
            gaps[i as int] + (seq![','] + (args[i as int + 1].text() + Self::rest_text(args, gaps, i + 1)))
        }
    }

    /// The list of the arguments up to `args[i]`, as `args` reads it.
    pub open spec fn listed(args: Seq<Phrase>, gaps: Seq<Seq<char>>, i: nat) -> Parse
        decreases i,
    {
        if i >= args.len() {
            no_args()
        } else if i == 0 {
            single(args[0].parse())
        } else {
            extend(
                Self::listed(args, gaps, (i - 1) as nat),
                Match { len: gaps[i - 1].len() + 1, text: seq![','] },
                args[i as int].parse(),
            )
        }
    }

    /// The text that a cursor holds as matched after the phrase was read.
    pub open spec fn kept(self) -> Seq<char>
        decreases self,
    {
        match self {
            Phrase::Number { blanks, digits } => digits,
            Phrase::Variable { blanks, dollar, path } => path.kept(),
            Phrase::Group { blanks, inner, close } => inner.kept() + seq![')'],
            Phrase::Infix { left, blanks, op, right } => left.kept() + (seq![op] + right.kept()),
            Phrase::Call { .. } => seq![')'],
        }
    }

    /// The tree that the phrase stands for: an operator has the operand
    /// written before it at its left and the one written behind it at its
    /// right, and parentheses leave no node.
    pub open spec fn tree(self) -> Ast
        decreases self, 0nat,
    {
        match self {
            Phrase::Number { blanks, digits } => Ast::Natural(decimal(digits)),
            Phrase::Variable { blanks, dollar, path } => Ast::Var(path.kept()),
            Phrase::Group { blanks, inner, close } => inner.tree(),
            Phrase::Infix { left, blanks, op, right } => Ast::Binary {
                op: seq![op],
                left: Some(Box::new(left.tree())),
                right: Some(Box::new(right.tree())),
            },
            Phrase::Call { blanks, dollar, path, args, gaps } => Ast::Call {
                name: path.kept(),
                args: Self::trees(args, args.len()),
            },
        }
    }

    /// The trees of the first `n` arguments, in order.
    pub open spec fn trees(args: Seq<Phrase>, n: nat) -> Seq<Ast>
        decreases args, n,
    {
        if n == 0 || n > args.len() {
            Seq::empty()
        } else {
            Self::trees(args, (n - 1) as nat).push(args[n - 1].tree())
        }
    }

    /// What reading the phrase gives: all of it is consumed.
    pub open spec fn parse(self) -> Parse {
        Parse { len: self.text().len(), text: self.kept(), ast: self.tree() }
    }

    /// Whether the phrase is a factor: a number, a variable, or an
    /// expression in parentheses.
    pub open spec fn is_factor(self) -> bool
        decreases self, 3nat,
    {
        match self {
            Phrase::Number { blanks, digits } => CharClass::Blank.all(blanks) && is_literal(digits),
            Phrase::Variable { blanks, dollar, path } => CharClass::Blank.all(blanks) && path.wf(),
            Phrase::Group { blanks, inner, close } => CharClass::Blank.all(blanks)
                && CharClass::Blank.all(close) && inner.is_expr(),
            Phrase::Infix { .. } => false,
            Phrase::Call { blanks, dollar, path, args, gaps } => CharClass::Blank.all(blanks)
                && path.wf() && Self::is_list(args, gaps, 0),
        }
    }

    /// Whether the arguments from `args[i]` on are expressions, and blanks
    /// stand before the comma behind each of them but the last.
    pub open spec fn is_list(args: Seq<Phrase>, gaps: Seq<Seq<char>>, i: nat) -> bool
        decreases args, args.len() - i,
    {
        i >= args.len() || (args[i as int].is_expr() && (i + 1 < args.len() ==> i < gaps.len()
            && CharClass::Blank.all(gaps[i as int])) && Self::is_list(args, gaps, i + 1))
    }

    /// Whether the phrase is a term: a factor, or a term and a factor with
    /// `*`, `/` or `%` between them.
    pub open spec fn is_term(self) -> bool
        decreases self, 4nat,
    {
        self.is_factor() || match self {
            Phrase::Infix { left, blanks, op, right } => is_term_op(op) && CharClass::Blank.all(
                blanks,
            ) && left.is_term() && right.is_factor(),
            _ => false,
        }
    }

    /// Whether the phrase is an expression: a term, or an expression and a
    /// term with `+` or `-` between them.
    pub open spec fn is_expr(self) -> bool
        decreases self, 5nat,
    {
        self.is_term() || match self {
            Phrase::Infix { left, blanks, op, right } => is_expr_op(op) && CharClass::Blank.all(
                blanks,
            ) && left.is_expr() && right.is_term(),
            _ => false,
        }
    }
}

/// How a text that begins with blanks, a dollar sign or none and a dotted
/// name is laid out.
proof fn lemma_name_layout(blanks: Seq<char>, dollar: bool, path: Path, tail: Seq<char>)
    requires
        CharClass::Blank.all(blanks),
        path.wf(),
    ensures
        ({
            let s = blanks + (sign(dollar) + (path.text() + tail));
            let at = blanks.len() + sign(dollar).len();
            &&& CharClass::Blank.run(s) == blanks.len()
            &&& shows(s, '$') == dollar
            &&& natural_len(unblank(s)) is None
            &&& s.len() == at + path.text().len() + tail.len()
            &&& after(s, at) == path.text() + tail
            &&& after(s, at + path.text().len()) == tail
        }),
{
    let y = path.text() + tail;
    let x = sign(dollar) + y;
    let s = blanks + x;
    path.lemma_starts_with_letter(0, tail);
    assert(y =~= path.lead_from(0) + (path.last + tail));
    lemma_split(sign(dollar), y);
    lemma_split(blanks, x);
    lemma_split(path.text(), tail);
    lemma_blanks_then(blanks, x);
    let at = blanks.len() + sign(dollar).len();
    assert(after(s, at) =~= y);
    assert(after(s, at + path.text().len()) =~= tail);
}

/// No expression begins with a closing parenthesis.
pub proof fn lemma_no_expr_at_close(rest: Seq<char>)
    ensures
        parse_expr(seq![')'] + rest) is None,
{
    let s = seq![')'] + rest;
    lemma_split(seq![')'], rest);
    assert(CharClass::Blank.run(s) == 0);
    assert(s.skip(0) =~= s);
    lemma_sigil(s);
    lemma_dotted_needs_letter(s);
    lemma_fcall_def(s);
    lemma_number(s);
    lemma_id_def(s);
    lemma_symbol('(', s);
    lemma_factor_def(s);
    lemma_term_def(s);
    lemma_expr_def(s);
}

/// Behind what ends a term the fold of `term` finds nothing more.
pub proof fn lemma_term_fold_stops(rest: Seq<char>, left: Parse)
    requires
        ends_term(rest),
    ensures
        term_fold(rest, left) == left,
{
    lemma_term_fold_def(rest, left);
    lemma_term_op(rest);
}

/// Behind what ends an expression the fold of `expr` finds nothing more.
pub proof fn lemma_expr_fold_stops(rest: Seq<char>, left: Parse)
    requires
        ends_expr(rest),
    ensures
        expr_fold(rest, left) == left,
{
    lemma_expr_fold_def(rest, left);
    lemma_expr_op(rest);
}

/// What stands behind the left operand of an operator: the blanks, the
/// operator and the right operand with what follows it. It ends a factor,
/// and the operator is the first character in it that is no blank.
proof fn lemma_operator_follows(blanks: Seq<char>, op: char, x: Seq<char>)
    requires
        CharClass::Blank.all(blanks),
        is_term_op(op) || is_expr_op(op),
    ensures
        ends_factor(blanks + (seq![op] + x)),
        CharClass::Blank.run(blanks + (seq![op] + x)) == blanks.len(),
        unblank(blanks + (seq![op] + x)) == seq![op] + x,
        (seq![op] + x)[0] == op,
        after(blanks + (seq![op] + x), blanks.len() + 1) == x,
{
    let y = seq![op] + x;
    let r = blanks + y;
    lemma_split(seq![op], x);
    lemma_split(blanks, y);
    lemma_blanks_then(blanks, y);
    if blanks.len() > 0 {
        assert(CharClass::Blank.has(blanks[0]));
    }
    assert(r.skip(blanks.len() as int + 1) =~= x);
}

impl Phrase {
    /// A number, with what ends a factor behind it, is read whole by `factor`.
    proof fn lemma_number(self, rest: Seq<char>)
        requires
            self is Number,
            self.is_factor(),
            ends_factor(rest),
        ensures
            parse_factor(self.text() + rest) == Some(self.parse()),
    {
        let blanks = self->Number_blanks;
        let digits = self->digits;
        let s = self.text() + rest;
        let x = digits + rest;
        assert(s =~= blanks + x);
        lemma_split(digits, rest);
        lemma_split(blanks, x);
        assert(CharClass::Digit.has(digits[0]));
        lemma_blanks_then(blanks, x);
        // no call and no variable begins with a digit
        lemma_sigil(s);
        lemma_dotted_needs_letter(x);
        lemma_fcall_def(s);
        // the number
        lemma_number(s);
        if digits[0] != '0' {
            let n = (digits.len() - 1) as nat;
            let tail = x.skip(1);
            assert(tail.skip(n as int) =~= rest);
            assert forall|i: int| 0 <= i < n implies CharClass::Digit.has(
                #[trigger] tail.take(n as int)[i],
            ) by {
                assert(tail.take(n as int)[i] == digits[i + 1]);
            }
            CharClass::Digit.lemma_run_is(tail, n);
        }
        assert(natural_len(x) == Some(digits.len()));
        lemma_id_def(s);
        lemma_factor_def(s);
    }

    /// A variable, with what ends a factor behind it, is read whole by `factor`.
    proof fn lemma_variable(self, rest: Seq<char>)
        requires
            self is Variable,
            self.is_factor(),
            ends_factor(rest),
        ensures
            parse_factor(self.text() + rest) == Some(self.parse()),
    {
        let blanks = self->Variable_blanks;
        let dollar = self->Variable_dollar;
        let path = self->Variable_path;
        let s = self.text() + rest;
        assert(s =~= blanks + (sign(dollar) + (path.text() + rest)));
        lemma_name_layout(blanks, dollar, path, rest);
        lemma_sigil(s);
        path.lemma_dotted(rest);
        // no call: no parenthesis follows the name
        lemma_fcall_def(s);
        assert(Pattern::Range('(', '(').scan(rest) is None);
        // no number begins with a letter or a dollar sign
        lemma_number(s);
        lemma_id_def(s);
        lemma_factor_def(s);
        assert(self.text().len() == blanks.len() + sign(dollar).len() + path.text().len());
    }

    /// Where the arguments of a call stand in the text of a call.
    proof fn lemma_call_layout(self, rest: Seq<char>)
        requires
            self is Call,
        ensures
            ({
                let list = Self::list_text(self->args, self->gaps);
                let tail = seq!['('] + (list + (seq![')'] + rest));
                &&& self.text() + rest == self->Call_blanks + (sign(self->Call_dollar) + (
                self->Call_path.text() + tail))
                &&& tail.len() > 0 && tail[0] == '('
                &&& after(tail, 1) == list + (seq![')'] + rest)
                &&& after(tail, 1 + list.len()) == seq![')'] + rest
                &&& (seq![')'] + rest)[0] == ')'
                &&& self.text().len() == self->Call_blanks.len() + sign(self->Call_dollar).len()
                    + self->Call_path.text().len() + 1 + list.len() + 1
            }),
    {
        let blanks = self->Call_blanks;
        let mark = sign(self->Call_dollar);
        let name = self->Call_path.text();
        let open = seq!['('];
        let shut = seq![')'];
        let list = Self::list_text(self->args, self->gaps);
        assert(self.text() == blanks + (mark + (name + (open + (list + shut)))));
        lemma_regroup(blanks, mark + (name + (open + (list + shut))), rest);
        lemma_regroup(mark, name + (open + (list + shut)), rest);
        lemma_regroup(name, open + (list + shut), rest);
        lemma_regroup(open, list + shut, rest);
        lemma_regroup(list, shut, rest);
        Self::lemma_brackets(list, rest);
    }

    /// How a text in parentheses, with `rest` behind it, is laid out.
    proof fn lemma_brackets(list: Seq<char>, rest: Seq<char>)
        ensures
            ({
                let tail = seq!['('] + (list + (seq![')'] + rest));
                &&& tail.len() == 1 + list.len() + 1 + rest.len()
                &&& tail[0] == '('
                &&& after(tail, 1) == list + (seq![')'] + rest)
                &&& after(tail, 1 + list.len()) == seq![')'] + rest
                &&& (seq![')'] + rest)[0] == ')'
            }),
    {
        let shut = seq![')'] + rest;
        let inside = list + shut;
        let tail = seq!['('] + inside;
        lemma_split(seq![')'], rest);
        lemma_split(list, shut);
        lemma_split(seq!['('], inside);
        lemma_after_after(tail, 1, list.len());
    }

    /// Where the pieces of a call begin in its text.
    proof fn lemma_call_positions(self, rest: Seq<char>)
        requires
            self is Call,
            CharClass::Blank.all(self->Call_blanks),
            self->Call_path.wf(),
        ensures
            ({
                let s = self.text() + rest;
                let list = Self::list_text(self->args, self->gaps);
                let tail = seq!['('] + (list + (seq![')'] + rest));
                let name = self->Call_blanks.len() + sign(self->Call_dollar).len();
                let open = name + self->Call_path.text().len();
                &&& CharClass::Blank.run(s) == self->Call_blanks.len()
                &&& shows(s, '$') == self->Call_dollar
                &&& after(s, name) == self->Call_path.text() + tail
                &&& ends_name(tail)
                &&& after(s, open) == tail
                &&& tail.len() > 0 && tail[0] == '('
                &&& after(s, open + 1) == list + (seq![')'] + rest)
                &&& after(s, open + 1 + list.len()) == seq![')'] + rest
                &&& (seq![')'] + rest)[0] == ')'
                &&& self.text().len() == open + 1 + list.len() + 1
            }),
    {
        let s = self.text() + rest;
        let list = Self::list_text(self->args, self->gaps);
        let tail = seq!['('] + (list + (seq![')'] + rest));
        let open = self->Call_blanks.len() + sign(self->Call_dollar).len()
            + self->Call_path.text().len();
        self.lemma_call_layout(rest);
        lemma_name_layout(self->Call_blanks, self->Call_dollar, self->Call_path, tail);
        Self::lemma_brackets(list, rest);
        assert(ends_name(tail)) by {
            assert(CharClass::Blank.run(tail) == 0);
            assert(tail.skip(0) =~= tail);
        }
        lemma_after_after(s, open, 1);
        lemma_after_after(s, open, 1 + list.len());
    }

    /// A call is read whole by `fcall`, where `args` reads its arguments
    /// whole.
    proof fn lemma_call(self, rest: Seq<char>)
        requires
            self is Call,
            CharClass::Blank.all(self->Call_blanks),
            self->Call_path.wf(),
            parse_args(Self::list_text(self->args, self->gaps) + (seq![')'] + rest)) matches Some(
                list,
            ) && list.len == Self::list_text(self->args, self->gaps).len() && list.ast
                == Ast::Args(Self::trees(self->args, self->args.len())),
        ensures
            parse_fcall(self.text() + rest) == Some(self.parse()),
    {
        let s = self.text() + rest;
        let list = Self::list_text(self->args, self->gaps);
        let tail = seq!['('] + (list + (seq![')'] + rest));
        self.lemma_call_positions(rest);
        lemma_sigil(s);
        self->Call_path.lemma_dotted(tail);
        lemma_fcall_def(s);
    }

    /// No call, no number and no variable begins with a parenthesis.
    proof fn lemma_parenthesis_is_no_id(blanks: Seq<char>, x: Seq<char>)
        requires
            CharClass::Blank.all(blanks),
            x.len() > 0,
            x[0] == '(',
        ensures
            parse_id(blanks + x) is None,
    {
        let s = blanks + x;
        lemma_split(blanks, x);
        lemma_blanks_then(blanks, x);
        lemma_sigil(s);
        lemma_dotted_needs_letter(x);
        lemma_fcall_def(s);
        lemma_number(s);
        lemma_id_def(s);
    }

    /// How the text of an expression in parentheses, with `rest` behind it,
    /// is laid out.
    proof fn lemma_group_layout(self, rest: Seq<char>)
        requires
            self is Group,
            CharClass::Blank.all(self->Group_blanks),
            CharClass::Blank.all(self->close),
        ensures
            ({
                let s = self.text() + rest;
                let open = self->Group_blanks.len() + 1;
                let within = self->inner.text() + (self->close + (seq![')'] + rest));
                let behind = self->close + (seq![')'] + rest);
                &&& s == self->Group_blanks + (seq!['('] + within)
                &&& (seq!['('] + within)[0] == '('
                &&& CharClass::Blank.run(s) == self->Group_blanks.len()
                &&& shows(s, '(')
                &&& after(s, open) == within
                &&& after(s, open + self->inner.text().len()) == behind
                &&& CharClass::Blank.run(behind) == self->close.len()
                &&& shows(behind, ')')
                &&& self.text().len() == open + self->inner.text().len() + self->close.len() + 1
            }),
    {
        let blanks = self->Group_blanks;
        let inner = *self->inner;
        let close = self->close;
        let s = self.text() + rest;
        let r3 = seq![')'] + rest;
        let r2 = close + r3;
        let y = inner.text() + r2;
        let x = seq!['('] + y;
        assert(s =~= blanks + x);
        lemma_split(seq![')'], rest);
        lemma_split(close, r3);
        lemma_split(inner.text(), r2);
        lemma_split(seq!['('], y);
        lemma_split(blanks, x);
        lemma_blanks_then(blanks, x);
        lemma_blanks_then(close, r3);
        assert(after(s, blanks.len() + 1) =~= y);
        assert(after(s, blanks.len() + 1 + inner.text().len()) =~= r2);
    }

    /// An expression in parentheses is read whole by `factor`, where `expr`
    /// reads the expression whole.
    proof fn lemma_group(self, rest: Seq<char>)
        requires
            self is Group,
            CharClass::Blank.all(self->Group_blanks),
            CharClass::Blank.all(self->close),
            parse_expr(self->inner.text() + (self->close + (seq![')'] + rest))) == Some(
                self->inner.parse(),
            ),
        ensures
            parse_factor(self.text() + rest) == Some(self.parse()),
    {
        let s = self.text() + rest;
        let within = self->inner.text() + (self->close + (seq![')'] + rest));
        let behind = self->close + (seq![')'] + rest);
        self.lemma_group_layout(rest);
        Self::lemma_parenthesis_is_no_id(self->Group_blanks, seq!['('] + within);
        lemma_symbol('(', s);
        lemma_symbol(')', behind);
        lemma_factor_def(s);
    }

    /// A factor, with what ends a factor behind it, is read whole by `factor`.
    pub proof fn lemma_factor(self, rest: Seq<char>)
        requires
            self.is_factor(),
            ends_factor(rest),
        ensures
            parse_factor(self.text() + rest) == Some(self.parse()),
        decreases self, 0nat,
    {
        match self {
            Phrase::Number { .. } => self.lemma_number(rest),
            Phrase::Variable { .. } => self.lemma_variable(rest),
            Phrase::Group { blanks, inner, close } => {
                let r3 = seq![')'] + rest;
                let r2 = close + r3;
                lemma_split(seq![')'], rest);
                lemma_split(close, r3);
                lemma_blanks_then(close, r3);
                if close.len() > 0 {
                    assert(CharClass::Blank.has(close[0]));
                }
                inner.lemma_expr(r2);
                self.lemma_group(rest);
            },
            Phrase::Infix { .. } => {},
            Phrase::Call { blanks, dollar, path, args, gaps } => {
                Self::lemma_list(args, gaps, rest);
                self.lemma_call(rest);
                lemma_id_def(self.text() + rest);
                lemma_factor_def(self.text() + rest);
            },
        }
    }

    /// The arguments of a list are expressions, and blanks stand before the
    /// commas between them.
    proof fn lemma_is_list(args: Seq<Phrase>, gaps: Seq<Seq<char>>, k: nat, i: nat)
        requires
            Self::is_list(args, gaps, k),
            k <= i < args.len(),
        ensures
            args[i as int].is_expr(),
            i + 1 < args.len() ==> i < gaps.len() && CharClass::Blank.all(gaps[i as int]),
            Self::is_list(args, gaps, i),
        decreases i - k,
    {
        if k < i {
            Self::lemma_is_list(args, gaps, k + 1, i);
        }
    }

    /// What stands behind an argument of a call ends an expression: a comma
    /// behind blanks, or the closing parenthesis.
    proof fn lemma_list_follow(args: Seq<Phrase>, gaps: Seq<Seq<char>>, i: nat, rest: Seq<char>)
        requires
            Self::is_list(args, gaps, 0),
            i < args.len(),
        ensures
            ends_expr(Self::rest_text(args, gaps, i) + (seq![')'] + rest)),
            i + 1 >= args.len() ==> Self::rest_text(args, gaps, i) + (seq![')'] + rest) == seq![')']
                + rest,
            i + 1 >= args.len() ==> !shows(seq![')'] + rest, ','),
            i + 1 < args.len() ==> ({
                let next = args[i as int + 1].text() + (Self::rest_text(args, gaps, i + 1) + (seq![')']
                    + rest));
                let r = Self::rest_text(args, gaps, i) + (seq![')'] + rest);
                &&& shows(r, ',')
                &&& CharClass::Blank.run(r) == gaps[i as int].len()
                &&& after(r, gaps[i as int].len() + 1) == next
                &&& after(r, gaps[i as int].len() + 1 + args[i as int + 1].text().len())
                    == Self::rest_text(args, gaps, i + 1) + (seq![')'] + rest)
            }),
    {
        let close = seq![')'] + rest;
        let r = Self::rest_text(args, gaps, i) + close;
        lemma_split(seq![')'], rest);
        Self::lemma_is_list(args, gaps, 0, i);
        if i + 1 >= args.len() {
            assert(r =~= close);
            assert(CharClass::Blank.run(close) == 0);
            assert(close.skip(0) =~= close);
        } else {
            let gap = gaps[i as int];
            let behind = Self::rest_text(args, gaps, i + 1) + close;
            let next = args[i as int + 1].text() + behind;
            let x = seq![','] + next;
            assert(r =~= gap + x);
            lemma_split(seq![','], next);
            lemma_split(gap, x);
            lemma_split(args[i as int + 1].text(), behind);
            lemma_blanks_then(gap, x);
            if gap.len() > 0 {
                assert(CharClass::Blank.has(gap[0]));
            }
            assert(after(r, gap.len() + 1) =~= next);
            assert(after(r, gap.len() + 1 + args[i as int + 1].text().len()) =~= behind);
        }
    }

    /// How long the list of the arguments up to `args[i]` is, and what it holds.
    proof fn lemma_listed(args: Seq<Phrase>, gaps: Seq<Seq<char>>, i: nat)
        requires
            i < args.len(),
        ensures
            Self::listed(args, gaps, i).len + Self::rest_text(args, gaps, i).len()
                == Self::list_text(args, gaps).len(),
            Self::listed(args, gaps, i).ast == Ast::Args(Self::trees(args, i + 1)),
        decreases i,
    {
        if i == 0 {
            assert(Self::trees(args, 1) =~= seq![args[0].tree()]) by {
                assert(Self::trees(args, 0) =~= Seq::<Ast>::empty());
            }
        } else {
            Self::lemma_listed(args, gaps, (i - 1) as nat);
        }
    }

    /// Behind `args[i]` the fold of `args` reads the arguments that are left.
    proof fn lemma_list_fold(args: Seq<Phrase>, gaps: Seq<Seq<char>>, i: nat, rest: Seq<char>)
        requires
            Self::is_list(args, gaps, 0),
            i < args.len(),
        ensures
            args_fold(
                Self::rest_text(args, gaps, i) + (seq![')'] + rest),
                Self::listed(args, gaps, i),
            ) == Some(Self::listed(args, gaps, (args.len() - 1) as nat)),
        decreases args, args.len() - i,
    {
        let r = Self::rest_text(args, gaps, i) + (seq![')'] + rest);
        let list = Self::listed(args, gaps, i);
        Self::lemma_list_follow(args, gaps, i, rest);
        lemma_args_fold_def(r, list);
        lemma_symbol(',', r);
        if i + 1 < args.len() {
            let behind = Self::rest_text(args, gaps, i + 1) + (seq![')'] + rest);
            Self::lemma_list_follow(args, gaps, i + 1, rest);
            Self::lemma_is_list(args, gaps, 0, i + 1);
            args[i as int + 1].lemma_expr(behind);
            Self::lemma_list_fold(args, gaps, i + 1, rest);
        }
    }

    /// The arguments of a call, with the closing parenthesis behind them, are
    /// read whole by `args`.
    proof fn lemma_list(args: Seq<Phrase>, gaps: Seq<Seq<char>>, rest: Seq<char>)
        requires
            Self::is_list(args, gaps, 0),
        ensures
            parse_args(Self::list_text(args, gaps) + (seq![')'] + rest)) matches Some(list)
                && list.len == Self::list_text(args, gaps).len() && list.ast == Ast::Args(
                Self::trees(args, args.len()),
            ),
        decreases args, args.len() + 1,
    {
        let close = seq![')'] + rest;
        let s = Self::list_text(args, gaps) + close;
        lemma_args_def(s);
        if args.len() == 0 {
            assert(s =~= close);
            lemma_no_expr_at_close(rest);
            assert(Self::trees(args, 0) =~= Seq::<Ast>::empty());
        } else {
            let behind = Self::rest_text(args, gaps, 0) + close;
            assert(s =~= args[0].text() + behind);
            Self::lemma_list_follow(args, gaps, 0, rest);
            Self::lemma_is_list(args, gaps, 0, 0);
            args[0].lemma_expr(behind);
            lemma_split(args[0].text(), behind);
            Self::lemma_list_fold(args, gaps, 0, rest);
            Self::lemma_listed(args, gaps, (args.len() - 1) as nat);
        }
    }

    /// A term, with what ends a factor behind it, is read whole by `term`,
    /// whose fold then goes on behind it.
    pub proof fn lemma_term_then(self, rest: Seq<char>)
        requires
            self.is_term(),
            ends_factor(rest),
        ensures
            parse_term(self.text() + rest) == Some(term_fold(rest, self.parse())),
        decreases self, 1nat,
    {
        let s = self.text() + rest;
        if self.is_factor() {
            self.lemma_factor(rest);
            lemma_term_def(s);
            lemma_split(self.text(), rest);
        } else {
            let left = *self->left;
            let right = *self->right;
            let blanks = self->Infix_blanks;
            let op = self->op;
            let x = right.text() + rest;
            let r1 = blanks + (seq![op] + x);
            assert(s =~= left.text() + r1);
            lemma_operator_follows(blanks, op, x);
            left.lemma_term_then(r1);
            lemma_term_fold_def(r1, left.parse());
            lemma_term_op(r1);
            right.lemma_factor(rest);
            lemma_split(right.text(), rest);
            let sign = Match { len: blanks.len() + 1, text: seq![op] };
            let rhs = right_hand_side(sign, right.parse());
            assert(parse_term_rhs(r1) == Some(rhs));
            assert(after(r1, rhs.len) =~= rest);
            assert(attach(left.parse(), rhs) == self.parse());
        }
    }

    /// A term, with what ends a term behind it, is read whole by `term`.
    pub proof fn lemma_term(self, rest: Seq<char>)
        requires
            self.is_term(),
            ends_term(rest),
        ensures
            parse_term(self.text() + rest) == Some(self.parse()),
    {
        self.lemma_term_then(rest);
        lemma_term_fold_stops(rest, self.parse());
    }

    /// An expression, with what ends a term behind it, is read whole by
    /// `expr`, whose fold then goes on behind it.
    pub proof fn lemma_expr_then(self, rest: Seq<char>)
        requires
            self.is_expr(),
            ends_term(rest),
        ensures
            parse_expr(self.text() + rest) == Some(expr_fold(rest, self.parse())),
        decreases self, 2nat,
    {
        let s = self.text() + rest;
        if self.is_term() {
            self.lemma_term_then(rest);
            lemma_term_fold_stops(rest, self.parse());
            lemma_expr_def(s);
            lemma_split(self.text(), rest);
        } else {
            let left = *self->left;
            let right = *self->right;
            let blanks = self->Infix_blanks;
            let op = self->op;
            let x = right.text() + rest;
            let r1 = blanks + (seq![op] + x);
            assert(s =~= left.text() + r1);
            lemma_operator_follows(blanks, op, x);
            left.lemma_expr_then(r1);
            lemma_expr_fold_def(r1, left.parse());
            lemma_expr_op(r1);
            right.lemma_term_then(rest);
            lemma_term_fold_stops(rest, right.parse());
            lemma_split(right.text(), rest);
            let sign = Match { len: blanks.len() + 1, text: seq![op] };
            let rhs = right_hand_side(sign, right.parse());
            assert(parse_expr_rhs(r1) == Some(rhs));
            assert(after(r1, rhs.len) =~= rest);
            assert(attach(left.parse(), rhs) == self.parse());
        }
    }

    /// An expression, with what ends an expression behind it, is read whole
    /// by `expr`: all of it is consumed and nothing of what follows, and the
    /// tree is the tree of the phrase.
    pub proof fn lemma_expr(self, rest: Seq<char>)
        requires
            self.is_expr(),
            ends_expr(rest),
        ensures
            parse_expr(self.text() + rest) == Some(self.parse()),
        decreases self, 3nat,
    {
        self.lemma_expr_then(rest);
        lemma_expr_fold_stops(rest, self.parse());
    }
}

/// `expr` consumes every expression that is written as the grammar asks,
/// with any blanks between its parts: from a cursor at the start of the text
/// of `p` it hands back a cursor with nothing remaining, and the tree of `p`.
pub proof fn lemma_expression_is_consumed(p: Phrase)
    requires
        p.is_expr(),
    ensures
        place(parse_expr(p.text()), p.text()) == Some(
            Parsed {
                cursor: Cursor { remaining: Seq::empty(), matched: p.kept() },
                ast: p.tree(),
            },
        ),
{
    let rest = Seq::<char>::empty();
    assert(p.text() + rest =~= p.text());
    assert(unblank(rest) =~= rest) by {
        assert(CharClass::Blank.run(rest) == 0);
        assert(rest.skip(0) =~= rest);
    }
    p.lemma_expr(rest);
    assert(after(p.text(), p.text().len()) =~= Seq::<char>::empty());
}

} // verus!
