use vstd::prelude::*;
use vstd::string::StrSliceExecFns;
use vstd::string::StringExecFns;
use crate::pattern::Match;
use crate::pattern::Pattern;

verus! {

/// The mathematical content of a [`State`]: the text not yet consumed and the
/// text that the most recent operation matched.
pub struct Cursor {
    pub remaining: Seq<char>,
    pub matched: Seq<char>,
}

/// An immutable position in the input. Every operation hands back a new
/// `State` and leaves the one it was given as it is, so a caller that still
/// holds a `State` can try another alternative from it at any time.
pub struct State {
    s: String,
    m: String,
}

impl View for State {
    type V = Cursor;

    closed spec fn view(&self) -> Cursor {
        Cursor { remaining: self.s@, matched: self.m@ }
    }
}

impl Clone for State {
    fn clone(&self) -> (copy: State)
        ensures
            copy@ == self@,
    {
        State { s: self.s.clone(), m: self.m.clone() }
    }
}

impl State {
    /// A cursor at the start of `s`, with nothing matched yet.
    pub fn from_string(s: &str) -> (state: State)
        ensures
            state@ == (Cursor { remaining: s@, matched: Seq::<char>::empty() }),
    {
        State { s: String::from_str(s), m: String::new() }
    }

    /// The text that is still to be consumed.
    pub fn display(&self) -> (text: &str)
        ensures
            text@ == self@.remaining,
    {
        self.s.as_str()
    }

    /// The text that the most recent operation consumed and kept.
    pub fn matched(&self) -> (text: &str)
        ensures
            text@ == self@.matched,
    {
        self.m.as_str()
    }

    /// The next character, or `'\0'` where the input is exhausted.
    pub fn peek(&self) -> (c: char)
        ensures
            c == (if self@.remaining.len() > 0 {
                self@.remaining[0]
            } else {
                '\0'
            }),
    {
        if self.s.as_str().is_empty() {
            '\0'
        } else {
            self.s.as_str().get_char(0)
        }
    }

    /// The next `n` characters, or the empty text where fewer than `n` are left.
    pub fn peek_many(&self, n: usize) -> (text: &str)
        ensures
            text@ == (if n <= self@.remaining.len() {
                self@.remaining.take(n as int)
            } else {
                Seq::<char>::empty()
            }),
    {
        let len: usize = self.s.as_str().unicode_len();
        if n > len {
            self.s.as_str().substring_char(0, 0)
        } else {
            self.s.as_str().substring_char(0, n)
        }
    }

    /// The number of characters that are still to be consumed.
    pub fn len(&self) -> (n: usize)
        ensures
            n == self@.remaining.len(),
    {
        self.s.as_str().unicode_len()
    }

    /// The cursor after consuming `n` characters, which become its matched text.
    pub fn read(&self, n: usize) -> (next: State)
        requires
            n <= self@.remaining.len(),
        ensures
            next@ == (Cursor {
                remaining: self@.remaining.skip(n as int),
                matched: self@.remaining.take(n as int),
            }),
    {
        let len: usize = self.s.as_str().unicode_len();
        let head = self.s.as_str().substring_char(0, n);
        let tail = self.s.as_str().substring_char(n, len);
        State { s: String::from_str(tail), m: String::from_str(head) }
    }

    /// Whether the whole input has been consumed.
    pub fn complete(&self) -> (b: bool)
        ensures
            b == (self@.remaining.len() == 0),
    {
        self.s.as_str().is_empty()
    }

    /// The same position with the matched text cleared.
    pub fn forget(&self) -> (next: State)
        ensures
            next@ == (Cursor { remaining: self@.remaining, matched: Seq::<char>::empty() }),
    {
        State { s: self.s.clone(), m: String::new() }
    }

    /// Moves this cursor on to where `other` stands and appends what `other`
    /// matched to what this cursor had matched so far.
    pub fn update(&mut self, other: &State)
        ensures
            final(self)@ == (Cursor {
                remaining: other@.remaining,
                matched: old(self)@.matched + other@.matched,
            }),
    {
        self.s = other.s.clone();
        self.m.append(other.m.as_str());
    }
}

/// How a matcher is built from other matchers.
pub enum Rule {
    /// One character between the two bounds, both included. There is no
    /// match where the input is exhausted.
    Range(char, char),
    /// Every matcher in turn, each from where the one before it stopped.
    Sequence(Vec<Transition>),
    /// The first matcher of the list that succeeds.
    Choice(Vec<Transition>),
    /// The matcher, or nothing where it fails.
    Optional(Box<Transition>),
    /// The matcher as often as it succeeds and consumes something.
    ZeroOrMore(Box<Transition>),
    /// The matcher once, and then as often as it succeeds and consumes
    /// something.
    OneOrMore(Box<Transition>),
    /// The matcher, with the text it matched dropped.
    Discard(Box<Transition>),
}

/// A matcher: a step from one [`State`] to the next, or to nothing.
pub struct Transition {
    pub rule: Rule,
}

impl Rule {
    /// The pattern that this rule stands for.
    pub open spec fn pattern(&self) -> Pattern
        decreases self,
    {
        match self {
            Rule::Range(lo, hi) => Pattern::Range(*lo, *hi),
            Rule::Sequence(ts) => Pattern::Sequence(
                Seq::new(
                    ts.len() as nat,
                    |i: int|
                        if 0 <= i < ts.len() {
                            ts[i].rule.pattern()
                        } else {
                            Pattern::Sequence(Seq::empty())
                        },
                ),
            ),
            Rule::Choice(ts) => Pattern::Choice(
                Seq::new(
                    ts.len() as nat,
                    |i: int|
                        if 0 <= i < ts.len() {
                            ts[i].rule.pattern()
                        } else {
                            Pattern::Sequence(Seq::empty())
                        },
                ),
            ),
            Rule::Optional(t) => Pattern::Optional(Box::new(t.rule.pattern())),
            Rule::ZeroOrMore(t) => Pattern::ZeroOrMore(Box::new(t.rule.pattern())),
            Rule::OneOrMore(t) => Pattern::Sequence(
                seq![t.rule.pattern(), Pattern::ZeroOrMore(Box::new(t.rule.pattern()))],
            ),
            Rule::Discard(t) => Pattern::Discard(Box::new(t.rule.pattern())),
        }
    }
}

impl View for Rule {
    type V = Pattern;

    open spec fn view(&self) -> Pattern {
        self.pattern()
    }
}

impl View for Transition {
    type V = Pattern;

    open spec fn view(&self) -> Pattern {
        self.rule@
    }
}

/// The cursor of the state that a matcher returned, if it returned one.
pub open spec fn cursor_of(next: Option<State>) -> Option<Cursor> {
    match next {
        Some(state) => Some(state@),
        None => None,
    }
}

impl Transition {
    /// The matcher that works as `rule` says.
    pub fn new(rule: Rule) -> (t: Transition)
        ensures
            t.rule == rule,
    {
        Transition { rule }
    }

    /// Runs the matcher at `state`. The state that comes back stands behind
    /// what was consumed and holds the text that was matched; `state` itself
    /// is left as it was.
    pub fn matches(&self, state: &State) -> (next: Option<State>)
        ensures
            cursor_of(next) == self@.apply(state@),
        decreases self, 0nat,
    {
        match &self.rule {
            Rule::Range(lo, hi) => {
                if state.complete() {
                    return None;
                }
                let c = state.peek();
                if *lo <= c && c <= *hi {
                    let next = state.read(1);
                    assert(next@.matched =~= seq![state@.remaining[0]]);
                    Some(next)
                } else {
                    None
                }
            },
            Rule::Sequence(ts) => Self::matches_all(ts, state),
            Rule::Choice(ts) => Self::matches_first(ts, state),
            Rule::Optional(t) => {
                match t.matches(state) {
                    Some(next) => Some(next),
                    None => {
                        let next = state.forget();
                        assert(next@.remaining =~= state@.remaining.skip(0));
                        Some(next)
                    },
                }
            },
            Rule::ZeroOrMore(t) => Some(Self::matches_many(t, state)),
            Rule::OneOrMore(t) => {
                proof {
                    Pattern::lemma_pair(t@, Pattern::ZeroOrMore(Box::new(t@)), state@.remaining);
                }
                match t.matches(state) {
                    None => None,
                    Some(first) => {
                        let rest = Self::matches_many(t, &first);
                        let mut next = first;
                        next.update(&rest);
                        proof {
                            let s = state@.remaining;
                            let head = t@.scan(s).unwrap();
                            let rest = s.skip(head.len as int);
                            let tail = Pattern::scan_many(t@, rest);
                            t@.lemma_scan_bounds(s);
                            Pattern::lemma_scan_many_bounds(t@, rest);
                            assert(rest.skip(tail.len as int) =~= s.skip(
                                (head.len + tail.len) as int,
                            ));
                            assert(Pattern::ZeroOrMore(Box::new(t@)).scan(rest) == Some(tail));
                        }
                        Some(next)
                    },
                }
            },
            Rule::Discard(t) => {
                match t.matches(state) {
                    Some(next) => Some(next.forget()),
                    None => None,
                }
            },
        }
    }

    /// Runs the matchers of `ts` one after the other.
    fn matches_all(ts: &Vec<Transition>, state: &State) -> (next: Option<State>)
        ensures
            cursor_of(next) == Rule::Sequence(*ts)@.apply(state@),
        decreases ts, 1nat,
    {
        let ghost ps = Rule::Sequence(*ts)@->Sequence_0;
        let ghost s = state@.remaining;
        let ghost mut n: nat = 0;
        let mut cur = state.forget();
        let mut i: usize = 0;
        assert(s.skip(0) =~= s);
        while i < ts.len()
            invariant
                0 <= i <= ts.len(),
                ps.len() == ts.len(),
                forall|k: int| 0 <= k < ts.len() ==> ps[k] == ts[k]@,
                n <= s.len(),
                s == state@.remaining,
                Rule::Sequence(*ts)@ == Pattern::Sequence(ps),
                cur@.remaining == s.skip(n as int),
                Pattern::scan_all(ps, 0, s) == Pattern::join(
                    Match { len: n, text: cur@.matched },
                    Pattern::scan_all(ps, i as nat, s.skip(n as int)),
                ),
            decreases ts.len() - i,
        {
            assert(ps[i as int] == ts[i as int]@);
            match ts[i].matches(&cur) {
                None => {
                    assert(ps[i as int].scan(s.skip(n as int)) is None);
                    assert(Pattern::scan_all(ps, i as nat, s.skip(n as int)) is None);
                    return None;
                },
                Some(step) => {
                    proof {
                        let head = ps[i as int].scan(s.skip(n as int)).unwrap();
                        ps[i as int].lemma_scan_bounds(s.skip(n as int));
                        assert(s.skip(n as int).skip(head.len as int) =~= s.skip(
                            (n + head.len) as int,
                        ));
                        let tail = Pattern::scan_all(ps, (i + 1) as nat, s.skip((n + head.len) as int));
                        if let Some(t) = tail {
                            assert((cur@.matched + head.text) + t.text =~= cur@.matched + (head.text
                                + t.text));
                        }
                        n = n + head.len;
                    }
                    cur.update(&step);
                },
            }
            i += 1;
        }
        proof {
            assert(cur@.matched + Seq::<char>::empty() =~= cur@.matched);
        }
        Some(cur)
    }

    /// Runs the matchers of `ts` at `state` until one succeeds.
    fn matches_first(ts: &Vec<Transition>, state: &State) -> (next: Option<State>)
        ensures
            cursor_of(next) == Rule::Choice(*ts)@.apply(state@),
        decreases ts, 1nat,
    {
        let ghost ps = Rule::Choice(*ts)@->Choice_0;
        let ghost s = state@.remaining;
        let mut i: usize = 0;
        while i < ts.len()
            invariant
                0 <= i <= ts.len(),
                ps.len() == ts.len(),
                forall|k: int| 0 <= k < ts.len() ==> ps[k] == ts[k]@,
                s == state@.remaining,
                Rule::Choice(*ts)@ == Pattern::Choice(ps),
                Pattern::scan_first(ps, 0, s) == Pattern::scan_first(ps, i as nat, s),
            decreases ts.len() - i,
        {
            assert(ps[i as int] == ts[i as int]@);
            match ts[i].matches(state) {
                Some(next) => {
                    assert(Pattern::scan_first(ps, i as nat, s) == ps[i as int].scan(s));
                    return Some(next);
                },
                None => {},
            }
            i += 1;
        }
        None
    }

    /// Runs `t` again and again, until it fails or consumes nothing.
    fn matches_many(t: &Transition, state: &State) -> (next: State)
        ensures
            Some(next@) == Pattern::ZeroOrMore(Box::new(t@)).apply(state@),
        decreases t, 1nat,
    {
        let ghost p = t@;
        let ghost s = state@.remaining;
        let ghost mut n: nat = 0;
        let mut cur = state.forget();
        assert(s.skip(0) =~= s);
        assert(Seq::<char>::empty() + Pattern::scan_many(p, s).text =~= Pattern::scan_many(p, s).text);
        loop
            invariant
                p == t@,
                n <= s.len(),
                cur@.remaining == s.skip(n as int),
                Pattern::scan_many(p, s) == (Match {
                    len: n + Pattern::scan_many(p, s.skip(n as int)).len,
                    text: cur@.matched + Pattern::scan_many(p, s.skip(n as int)).text,
                }),
            ensures
                n <= s.len(),
                cur@.remaining == s.skip(n as int),
                Pattern::scan_many(p, s) == (Match { len: n, text: cur@.matched }),
            decreases cur@.remaining.len(),
        {
            let before: usize = cur.len();
            proof {
                p.lemma_scan_bounds(s.skip(n as int));
            }
            match t.matches(&cur) {
                None => {
                    proof {
                        assert(cur@.matched + Seq::<char>::empty() =~= cur@.matched);
                    }
                    break ;
                },
                Some(step) => {
                    if step.len() >= before {
                        proof {
                            assert(cur@.matched + Seq::<char>::empty() =~= cur@.matched);
                        }
                        break ;
                    }
                    proof {
                        let head = p.scan(s.skip(n as int)).unwrap();
                        assert(s.skip(n as int).skip(head.len as int) =~= s.skip(
                            (n + head.len) as int,
                        ));
                        let tail = Pattern::scan_many(p, s.skip((n + head.len) as int));
                        assert((cur@.matched + head.text) + tail.text =~= cur@.matched + (head.text
                            + tail.text));
                        n = n + head.len;
                    }
                    cur.update(&step);
                },
            }
        }
        cur
    }
}

/// The patterns of a list of matchers, in the same order.
pub open spec fn patterns_of(ts: Seq<Transition>) -> Seq<Pattern> {
    ts.map_values(|t: Transition| t@)
}

/// The one character `c`.
pub fn chr(c: char) -> (t: Transition)
    ensures
        t@ == Pattern::Range(c, c),
{
    Transition::new(Rule::Range(c, c))
}

/// One character from `lo` to `hi`, both included.
pub fn char_range(lo: char, hi: char) -> (t: Transition)
    ensures
        t@ == Pattern::Range(lo, hi),
{
    Transition::new(Rule::Range(lo, hi))
}

/// Every matcher of `ts` in turn; the matched text is what they matched, put
/// together in order. With an empty list it matches and consumes nothing.
pub fn sequence(ts: Vec<Transition>) -> (t: Transition)
    ensures
        t@ == Pattern::Sequence(patterns_of(ts@)),
{
    let t = Transition::new(Rule::Sequence(ts));
    assert(t@->Sequence_0 =~= patterns_of(ts@));
    t
}

/// The first matcher of `ts` that succeeds, in the order of the list. With an
/// empty list it never matches.
pub fn alternation(ts: Vec<Transition>) -> (t: Transition)
    ensures
        t@ == Pattern::Choice(patterns_of(ts@)),
{
    let t = Transition::new(Rule::Choice(ts));
    assert(t@->Choice_0 =~= patterns_of(ts@));
    t
}

/// The matcher `m`, or an empty match where `m` fails.
pub fn optional(m: Transition) -> (t: Transition)
    ensures
        t@ == Pattern::Optional(Box::new(m@)),
{
    Transition::new(Rule::Optional(Box::new(m)))
}

/// The matcher `m` as often as it succeeds and consumes something.
pub fn zero_or_more(m: Transition) -> (t: Transition)
    ensures
        t@ == Pattern::ZeroOrMore(Box::new(m@)),
{
    Transition::new(Rule::ZeroOrMore(Box::new(m)))
}

/// Whether `q` is one of the three quantifier symbols.
pub open spec fn is_quantifier(q: char) -> bool {
    q == '?' || q == '+' || q == '*'
}

/// The pattern of `m` repeated as the quantifier `q` says.
pub open spec fn quantified_pattern(p: Pattern, q: char) -> Pattern {
    if q == '?' {
        Pattern::Optional(Box::new(p))
    } else if q == '*' {
        Pattern::ZeroOrMore(Box::new(p))
    } else {
        Pattern::Sequence(seq![p, Pattern::ZeroOrMore(Box::new(p))])
    }
}

/// The matcher `m` under a quantifier: `'?'` for at most once, `'*'` for any
/// number of times, `'+'` for at least once.
pub fn quantified(m: Transition, q: char) -> (t: Transition)
    requires
        is_quantifier(q),
    ensures
        t@ == quantified_pattern(m@, q),
{
    if q == '?' {
        optional(m)
    } else if q == '*' {
        zero_or_more(m)
    } else {
        Transition::new(Rule::OneOrMore(Box::new(m)))
    }
}

/// The matcher `m` with its matched text dropped: the cursor moves on as `m`
/// moves it, and nothing of what was consumed is kept.
pub fn discard(m: Transition) -> (t: Transition)
    ensures
        t@ == Pattern::Discard(Box::new(m@)),
{
    Transition::new(Rule::Discard(Box::new(m)))
}

} // verus!
