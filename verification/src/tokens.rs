use vstd::prelude::*;
use crate::classes::CharClass;
use crate::grammar::expr_op_pattern;
use crate::grammar::number_pattern;
use crate::grammar::sigil_pattern;
use crate::grammar::symbol_pattern;
use crate::grammar::term_op_pattern;
use crate::lexical::alphanum_pattern;
use crate::lexical::digit_pattern;
use crate::lexical::letter_pattern;
use crate::lexical::name_pattern;
use crate::lexical::natural_pattern;
use crate::lexical::one_or_more;
use crate::lexical::ws_pattern;
use crate::pattern::Match;
use crate::pattern::nothing;
use crate::pattern::Pattern;

verus! {

/// The match of the first `n` characters of `s`, all of them kept.
pub open spec fn prefix(s: Seq<char>, n: nat) -> Match {
    Match { len: n, text: s.take(n as int) }
}

/// The input `s` behind the blanks that it begins with.
pub open spec fn unblank(s: Seq<char>) -> Seq<char> {
    s.skip(CharClass::Blank.run(s) as int)
}

/// Whether `c` is the first character of `s` that is no blank.
pub open spec fn shows(s: Seq<char>, c: char) -> bool {
    unblank(s).len() > 0 && unblank(s)[0] == c
}

/// Whether `c` is one of `*`, `/` and `%`.
pub open spec fn is_term_op(c: char) -> bool {
    c == '*' || c == '/' || c == '%'
}

/// Whether `c` is `+` or `-`.
pub open spec fn is_expr_op(c: char) -> bool {
    c == '+' || c == '-'
}

/// How long the natural number at the start of `s` is, if one stands there:
/// one character for a `0`, else all the digits behind a digit from `1` to `9`.
pub open spec fn natural_len(s: Seq<char>) -> Option<nat> {
    if s.len() > 0 && s[0] == '0' {
        Some(1nat)
    } else if s.len() > 0 && '1' <= s[0] && s[0] <= '9' {
        Some(1 + CharClass::Digit.run(s.skip(1)))
    } else {
        None
    }
}

/// How long the name at the start of `s` is, if one stands there: a letter
/// and all the letters, digits and underscores behind it.
pub open spec fn name_len(s: Seq<char>) -> Option<nat> {
    if CharClass::Letter.starts(s) {
        Some(1 + CharClass::Word.run(s.skip(1)))
    } else {
        None
    }
}

/// The match of `inner`, found behind `blanks` blanks that are not kept.
pub open spec fn behind(blanks: nat, inner: Option<Match>) -> Option<Match> {
    match inner {
        Some(m) => Some(Match { len: blanks + m.len, text: m.text }),
        None => None,
    }
}

/// `ws` consumes the blanks at the start of the input and keeps nothing.
pub proof fn lemma_ws(s: Seq<char>)
    ensures
        ws_pattern().scan(s) == Some(Match { len: CharClass::Blank.run(s), text: Seq::empty() }),
{
    CharClass::Blank.lemma_many(s);
    let many = Pattern::ZeroOrMore(Box::new(CharClass::Blank.pattern()));
    assert(many.scan(s) == Some(Pattern::scan_many(CharClass::Blank.pattern(), s)));
    assert(ws_pattern() == Pattern::Discard(Box::new(many)));
}

/// Blanks and then a pattern: the pattern is matched behind the blanks.
pub proof fn lemma_behind_blanks(p: Pattern, s: Seq<char>)
    ensures
        Pattern::Sequence(seq![ws_pattern(), p]).scan(s) == behind(
            CharClass::Blank.run(s),
            p.scan(unblank(s)),
        ),
{
    lemma_ws(s);
    Pattern::lemma_pair(ws_pattern(), p, s);
    if let Some(m) = p.scan(unblank(s)) {
        assert(Seq::<char>::empty() + m.text =~= m.text);
    }
}

/// `symbol(c)` matches where `c` is the first character that is no blank.
pub proof fn lemma_symbol(c: char, s: Seq<char>)
    ensures
        symbol_pattern(c).scan(s) == (if shows(s, c) {
            Some(Match { len: CharClass::Blank.run(s) + 1, text: seq![c] })
        } else {
            None
        }),
{
    lemma_behind_blanks(Pattern::Range(c, c), s);
}

/// The operators of `term` match where one of `*`, `/` and `%` is the first
/// character that is no blank.
pub proof fn lemma_term_op(s: Seq<char>)
    ensures
        term_op_pattern().scan(s) == (if unblank(s).len() > 0 && is_term_op(unblank(s)[0]) {
            Some(Match { len: CharClass::Blank.run(s) + 1, text: seq![unblank(s)[0]] })
        } else {
            None
        }),
{
    let ops = seq![Pattern::Range('*', '*'), Pattern::Range('/', '/'), Pattern::Range('%', '%')];
    assert(ops.len() == 3);
    lemma_behind_blanks(Pattern::Choice(ops), s);
    let t = unblank(s);
    reveal_with_fuel(Pattern::scan_first, 4);
    assert(Pattern::Choice(ops).scan(t) == Pattern::scan_first(ops, 0, t));
}

/// The operators of `expr` match where `+` or `-` is the first character
/// that is no blank.
pub proof fn lemma_expr_op(s: Seq<char>)
    ensures
        expr_op_pattern().scan(s) == (if unblank(s).len() > 0 && is_expr_op(unblank(s)[0]) {
            Some(Match { len: CharClass::Blank.run(s) + 1, text: seq![unblank(s)[0]] })
        } else {
            None
        }),
{
    let ops = seq![Pattern::Range('+', '+'), Pattern::Range('-', '-')];
    assert(ops.len() == 2);
    lemma_behind_blanks(Pattern::Choice(ops), s);
    let t = unblank(s);
    reveal_with_fuel(Pattern::scan_first, 3);
    assert(Pattern::Choice(ops).scan(t) == Pattern::scan_first(ops, 0, t));
}

/// The sigil always matches: the blanks, and a dollar sign where one follows.
pub proof fn lemma_sigil(s: Seq<char>)
    ensures
        sigil_pattern().scan(s) == Some(
            if shows(s, '$') {
                Match { len: CharClass::Blank.run(s) + 1, text: seq!['$'] }
            } else {
                Match { len: CharClass::Blank.run(s), text: Seq::empty() }
            },
        ),
{
    let dollar = Pattern::Optional(Box::new(Pattern::Range('$', '$')));
    lemma_behind_blanks(dollar, s);
    let t = unblank(s);
    assert(Pattern::Range('$', '$').scan(t) == (if shows(s, '$') {
        Some(Match { len: 1, text: seq![t[0]] })
    } else {
        None
    }));
    if shows(s, '$') {
        assert(seq![t[0]] =~= seq!['$']);
        assert(dollar.scan(t) == Some(Match { len: 1, text: seq!['$'] }));
    } else {
        assert(dollar.scan(t) == Some(nothing()));
    }
}

/// `natural` matches the natural number at the start of the input, and
/// keeps all of it.
pub proof fn lemma_natural(s: Seq<char>)
    ensures
        natural_pattern().scan(s) == match natural_len(s) {
            Some(n) => Some(prefix(s, n)),
            None => None,
        },
{
    let nonzero = Pattern::Sequence(
        seq![Pattern::Range('1', '9'), Pattern::ZeroOrMore(Box::new(digit_pattern()))],
    );
    let ps = seq![Pattern::Range('0', '0'), nonzero];
    assert(ps.len() == 2 && ps[0] == Pattern::Range('0', '0') && ps[1] == nonzero);
    Pattern::lemma_pair(
        Pattern::Range('1', '9'),
        Pattern::ZeroOrMore(Box::new(digit_pattern())),
        s,
    );
    reveal_with_fuel(Pattern::scan_first, 3);
    assert(natural_pattern().scan(s) == Pattern::scan_first(ps, 0, s));
    if s.len() > 0 && s[0] == '0' {
        assert(seq![s[0]] =~= s.take(1));
    } else if s.len() > 0 && '1' <= s[0] && s[0] <= '9' {
        let rest = s.skip(1);
        CharClass::Digit.lemma_many(rest);
        CharClass::Digit.lemma_run(rest);
        let n = CharClass::Digit.run(rest);
        assert(seq![s[0]] + rest.take(n as int) =~= s.take(n as int + 1));
    }
}

/// `number` matches the natural number behind the blanks.
pub proof fn lemma_number(s: Seq<char>)
    ensures
        number_pattern().scan(s) == match natural_len(unblank(s)) {
            Some(n) => Some(Match { len: CharClass::Blank.run(s) + n, text: unblank(s).take(n as int) }),
            None => None,
        },
{
    lemma_behind_blanks(natural_pattern(), s);
    lemma_natural(unblank(s));
}

/// `name` matches the name at the start of the input, and keeps all of it.
pub proof fn lemma_name(s: Seq<char>)
    ensures
        name_pattern().scan(s) == match name_len(s) {
            Some(n) => Some(prefix(s, n)),
            None => None,
        },
{
    let word = alphanum_pattern();
    let more = Pattern::Optional(Box::new(one_or_more(word)));
    Pattern::lemma_pair(letter_pattern(), more, s);
    CharClass::Letter.lemma_pattern(s);
    if CharClass::Letter.starts(s) {
        let rest = s.skip(1);
        Pattern::lemma_pair(word, Pattern::ZeroOrMore(Box::new(word)), rest);
        CharClass::Word.lemma_pattern(rest);
        let n = CharClass::Word.run(rest);
        CharClass::Word.lemma_run(rest);
        if CharClass::Word.starts(rest) {
            let rest2 = rest.skip(1);
            CharClass::Word.lemma_many(rest2);
            CharClass::Word.lemma_run(rest2);
            let k = CharClass::Word.run(rest2);
            assert(seq![rest[0]] + rest2.take(k as int) =~= rest.take(n as int));
        } else {
            assert(rest.take(0) =~= Seq::<char>::empty());
        }
        assert(seq![s[0]] + rest.take(n as int) =~= s.take(n as int + 1));
    }
}

} // verus!
