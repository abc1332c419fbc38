use vstd::prelude::*;
use crate::basic_parser::Cursor;

verus! {

/// What a successful match took from the input: how many characters it
/// consumed, and the text it kept of them.
pub struct Match {
    pub len: nat,
    pub text: Seq<char>,
}

/// The match that consumes nothing.
pub open spec fn nothing() -> Match {
    Match { len: 0, text: Seq::empty() }
}

/// The mathematical description of a matcher.
pub enum Pattern {
    /// One character between the two bounds, both included. Where the
    /// input is exhausted there is no character, and no match.
    Range(char, char),
    /// Every pattern in turn, each from where the one before it stopped.
    Sequence(Seq<Pattern>),
    /// The first pattern of the list that matches.
    Choice(Seq<Pattern>),
    /// The pattern, or nothing where it does not match.
    Optional(Box<Pattern>),
    /// The pattern as often as it matches and consumes something.
    ZeroOrMore(Box<Pattern>),
    /// The pattern, with the text it matched dropped.
    Discard(Box<Pattern>),
}

impl Pattern {
    /// Puts the match `tail`, found where `head` stopped, behind `head`.
    pub open spec fn join(head: Match, tail: Option<Match>) -> Option<Match> {
        match tail {
            Some(t) => Some(Match { len: head.len + t.len, text: head.text + t.text }),
            None => None,
        }
    }

    /// The result of matching this pattern at the start of `s`.
    pub open spec fn scan(self, s: Seq<char>) -> Option<Match>
        decreases self, 0nat, 0nat,
    {
        match self {
            Pattern::Range(lo, hi) => {
                if s.len() > 0 && lo <= s[0] && s[0] <= hi {
                    Some(Match { len: 1, text: seq![s[0]] })
                } else {
                    None
                }
            },
            Pattern::Sequence(ps) => Self::scan_all(ps, 0, s),
            Pattern::Choice(ps) => Self::scan_first(ps, 0, s),
            Pattern::Optional(p) => match p.scan(s) {
                Some(m) => Some(m),
                None => Some(nothing()),
            },
            Pattern::ZeroOrMore(p) => Some(Self::scan_many(*p, s)),
            Pattern::Discard(p) => match p.scan(s) {
                Some(m) => Some(Match { len: m.len, text: Seq::empty() }),
                None => None,
            },
        }
    }

    /// The patterns `ps[i..]` matched one after the other from the start of `s`.
    pub open spec fn scan_all(ps: Seq<Pattern>, i: nat, s: Seq<char>) -> Option<Match>
        decreases ps, ps.len() - i, 0nat,
    {
        if i >= ps.len() {
            Some(nothing())
        } else {
            match ps[i as int].scan(s) {
                None => None,
                Some(head) => Self::join(head, Self::scan_all(ps, i + 1, s.skip(head.len as int))),
            }
        }
    }

    /// The first of the patterns `ps[i..]` that matches at the start of `s`.
    pub open spec fn scan_first(ps: Seq<Pattern>, i: nat, s: Seq<char>) -> Option<Match>
        decreases ps, ps.len() - i, 0nat,
    {
        if i >= ps.len() {
            None
        } else {
            match ps[i as int].scan(s) {
                Some(m) => Some(m),
                None => Self::scan_first(ps, i + 1, s),
            }
        }
    }

    /// The pattern `p` matched again and again from the start of `s`, until it
    /// fails or consumes nothing.
    pub open spec fn scan_many(p: Pattern, s: Seq<char>) -> Match
        decreases p, 1nat, s.len(),
    {
        match p.scan(s) {
            Some(head) if 0 < head.len <= s.len() => {
                let tail = Self::scan_many(p, s.skip(head.len as int));
                Match { len: head.len + tail.len, text: head.text + tail.text }
            },
            _ => nothing(),
        }
    }

    /// Whether the shape of this pattern alone shows that every match of it
    /// consumes at least one character.
    pub open spec fn productive(self) -> bool
        decreases self, 0nat,
    {
        match self {
            Pattern::Range(_, _) => true,
            Pattern::Sequence(ps) => Self::some_productive(ps, 0),
            Pattern::Choice(ps) => Self::all_productive(ps, 0),
            Pattern::Optional(_) => false,
            Pattern::ZeroOrMore(_) => false,
            Pattern::Discard(p) => p.productive(),
        }
    }

    /// Whether one of the patterns `ps[i..]` is productive.
    pub open spec fn some_productive(ps: Seq<Pattern>, i: nat) -> bool
        decreases ps, ps.len() - i,
    {
        i < ps.len() && (ps[i as int].productive() || Self::some_productive(ps, i + 1))
    }

    /// Whether each of the patterns `ps[i..]` is productive.
    pub open spec fn all_productive(ps: Seq<Pattern>, i: nat) -> bool
        decreases ps, ps.len() - i,
    {
        i >= ps.len() || (ps[i as int].productive() && Self::all_productive(ps, i + 1))
    }

    /// The pattern as a function from cursor to cursor.
    pub open spec fn apply(self, c: Cursor) -> Option<Cursor> {
        match self.scan(c.remaining) {
            Some(m) => Some(Cursor { remaining: c.remaining.skip(m.len as int), matched: m.text }),
            None => None,
        }
    }
}

impl Pattern {
    /// A match never reaches past the end of the input, and keeps no more
    /// text than it consumed.
    pub proof fn lemma_scan_bounds(self, s: Seq<char>)
        ensures
            self.scan(s) matches Some(m) ==> m.len <= s.len() && m.text.len() <= m.len,
        decreases self, 0nat, 0nat,
    {
        match self {
            Pattern::Range(lo, hi) => {},
            Pattern::Sequence(ps) => Self::lemma_scan_all_bounds(ps, 0, s),
            Pattern::Choice(ps) => Self::lemma_scan_first_bounds(ps, 0, s),
            Pattern::Optional(p) => p.lemma_scan_bounds(s),
            Pattern::ZeroOrMore(p) => Self::lemma_scan_many_bounds(*p, s),
            Pattern::Discard(p) => p.lemma_scan_bounds(s),
        }
    }

    /// The bounds of [`Pattern::lemma_scan_bounds`], for a sequence.
    pub proof fn lemma_scan_all_bounds(ps: Seq<Pattern>, i: nat, s: Seq<char>)
        ensures
            Self::scan_all(ps, i, s) matches Some(m) ==> m.len <= s.len() && m.text.len() <= m.len,
        decreases ps, ps.len() - i, 0nat,
    {
        if i < ps.len() {
            ps[i as int].lemma_scan_bounds(s);
            if let Some(head) = ps[i as int].scan(s) {
                Self::lemma_scan_all_bounds(ps, i + 1, s.skip(head.len as int));
            }
        }
    }

    /// The bounds of [`Pattern::lemma_scan_bounds`], for a choice.
    pub proof fn lemma_scan_first_bounds(ps: Seq<Pattern>, i: nat, s: Seq<char>)
        ensures
            Self::scan_first(ps, i, s) matches Some(m) ==> m.len <= s.len() && m.text.len()
                <= m.len,
        decreases ps, ps.len() - i, 0nat,
    {
        if i < ps.len() {
            ps[i as int].lemma_scan_bounds(s);
            Self::lemma_scan_first_bounds(ps, i + 1, s);
        }
    }

    /// The bounds of [`Pattern::lemma_scan_bounds`], for a repetition.
    pub proof fn lemma_scan_many_bounds(p: Pattern, s: Seq<char>)
        ensures
            Self::scan_many(p, s).len <= s.len(),
            Self::scan_many(p, s).text.len() <= Self::scan_many(p, s).len,
        decreases p, 1nat, s.len(),
    {
        p.lemma_scan_bounds(s);
        if let Some(head) = p.scan(s) {
            if 0 < head.len <= s.len() {
                Self::lemma_scan_many_bounds(p, s.skip(head.len as int));
            }
        }
    }
}

impl Pattern {
    /// A match of a productive pattern consumes at least one character.
    pub proof fn lemma_productive(self, s: Seq<char>)
        requires
            self.productive(),
        ensures
            self.scan(s) matches Some(m) ==> 1 <= m.len <= s.len(),
        decreases self, 0nat,
    {
        self.lemma_scan_bounds(s);
        match self {
            Pattern::Range(_, _) => {},
            Pattern::Sequence(ps) => Self::lemma_some_productive(ps, 0, s),
            Pattern::Choice(ps) => Self::lemma_all_productive(ps, 0, s),
            Pattern::Optional(_) => {},
            Pattern::ZeroOrMore(_) => {},
            Pattern::Discard(p) => p.lemma_productive(s),
        }
    }

    /// A match of a sequence with a productive member consumes at least one
    /// character.
    pub proof fn lemma_some_productive(ps: Seq<Pattern>, i: nat, s: Seq<char>)
        requires
            Self::some_productive(ps, i),
        ensures
            Self::scan_all(ps, i, s) matches Some(m) ==> 1 <= m.len,
        decreases ps, ps.len() - i,
    {
        if let Some(head) = ps[i as int].scan(s) {
            if ps[i as int].productive() {
                ps[i as int].lemma_productive(s);
            } else {
                Self::lemma_some_productive(ps, i + 1, s.skip(head.len as int));
            }
        }
    }

    /// A match of a choice among productive patterns consumes at least one
    /// character.
    pub proof fn lemma_all_productive(ps: Seq<Pattern>, i: nat, s: Seq<char>)
        requires
            Self::all_productive(ps, i),
        ensures
            Self::scan_first(ps, i, s) matches Some(m) ==> 1 <= m.len,
        decreases ps, ps.len() - i,
    {
        if i < ps.len() {
            ps[i as int].lemma_productive(s);
            Self::lemma_all_productive(ps, i + 1, s);
        }
    }
}

impl Pattern {
    /// `optional(p)` and `zeroOrMore(p)` match at every cursor.
    pub proof fn lemma_optional_and_repetition_never_fail(p: Pattern, c: Cursor)
        ensures
            Pattern::Optional(Box::new(p)).apply(c) is Some,
            Pattern::ZeroOrMore(Box::new(p)).apply(c) is Some,
    {
    }

    /// Where `p` does not match at the cursor `c`, `optional(p)` and
    /// `zeroOrMore(p)` match there without consuming anything: the cursor
    /// they hand back stands where `c` stands, and its matched text is empty.
    pub proof fn lemma_no_match_consumes_nothing(p: Pattern, c: Cursor)
        requires
            p.apply(c) is None,
        ensures
            Pattern::Optional(Box::new(p)).apply(c) == Some(
                Cursor { remaining: c.remaining, matched: Seq::empty() },
            ),
            Pattern::ZeroOrMore(Box::new(p)).apply(c) == Some(
                Cursor { remaining: c.remaining, matched: Seq::empty() },
            ),
    {
        assert(c.remaining.skip(0) =~= c.remaining);
        assert(Self::scan_many(p, c.remaining) == nothing());
    }

    /// Behind a repetition of `p`, `p` matches no more, or matches without
    /// consuming anything.
    pub proof fn lemma_repetition_is_exhaustive(p: Pattern, s: Seq<char>)
        ensures
            Self::scan_many(p, s.skip(Self::scan_many(p, s).len as int)) == nothing(),
        decreases s.len(),
    {
        p.lemma_scan_bounds(s);
        match p.scan(s) {
            Some(head) => {
                if 0 < head.len <= s.len() {
                    let rest = s.skip(head.len as int);
                    Self::lemma_repetition_is_exhaustive(p, rest);
                    Self::lemma_scan_many_bounds(p, rest);
                    assert(rest.skip(Self::scan_many(p, rest).len as int) =~= s.skip(
                        Self::scan_many(p, s).len as int,
                    ));
                } else {
                    assert(s.skip(0) =~= s);
                }
            },
            None => {
                assert(s.skip(0) =~= s);
            },
        }
    }

    /// Repeating a repetition, or making an optional pattern optional, changes
    /// nothing.
    pub proof fn lemma_idempotent(p: Pattern, s: Seq<char>)
        ensures
            Pattern::Optional(Box::new(Pattern::Optional(Box::new(p)))).scan(s)
                == Pattern::Optional(Box::new(p)).scan(s),
            Pattern::ZeroOrMore(Box::new(Pattern::ZeroOrMore(Box::new(p)))).scan(s)
                == Pattern::ZeroOrMore(Box::new(p)).scan(s),
    {
        let inner = Pattern::ZeroOrMore(Box::new(p));
        let once = Self::scan_many(p, s);
        Self::lemma_scan_many_bounds(p, s);
        Self::lemma_repetition_is_exhaustive(p, s);
        assert(inner.scan(s) == Some(once));
        if 0 < once.len {
            let rest = s.skip(once.len as int);
            assert(inner.scan(rest) == Some(nothing()));
            assert(Self::scan_many(inner, rest) == nothing());
            assert(once.text + Seq::<char>::empty() =~= once.text);
            assert(Self::scan_many(inner, s) == once);
        } else {
            assert(Self::scan_many(inner, s) == nothing());
            assert(once.text =~= Seq::<char>::empty());
        }
    }

    /// A choice gives what the first of its patterns that matches gives,
    /// whatever the patterns behind it would match.
    pub proof fn lemma_choice_is_ordered(ps: Seq<Pattern>, i: int, s: Seq<char>)
        requires
            0 <= i < ps.len(),
            ps[i].scan(s) is Some,
            forall|j: int| 0 <= j < i ==> (#[trigger] ps[j]).scan(s) is None,
        ensures
            Pattern::Choice(ps).scan(s) == ps[i].scan(s),
    {
        Self::lemma_scan_first_from(ps, 0, i, s);
    }

    proof fn lemma_scan_first_from(ps: Seq<Pattern>, k: int, i: int, s: Seq<char>)
        requires
            0 <= k <= i < ps.len(),
            ps[i].scan(s) is Some,
            forall|j: int| 0 <= j < i ==> (#[trigger] ps[j]).scan(s) is None,
        ensures
            Self::scan_first(ps, k as nat, s) == ps[i].scan(s),
        decreases i - k,
    {
        if k < i {
            Self::lemma_scan_first_from(ps, k + 1, i, s);
        }
    }

    /// A choice fails where each of its patterns fails.
    pub proof fn lemma_choice_fails(ps: Seq<Pattern>, k: int, s: Seq<char>)
        requires
            0 <= k <= ps.len(),
            forall|j: int| k <= j < ps.len() ==> (#[trigger] ps[j]).scan(s) is None,
        ensures
            Self::scan_first(ps, k as nat, s) is None,
        decreases ps.len() - k,
    {
        if k < ps.len() {
            Self::lemma_choice_fails(ps, k + 1, s);
        }
    }
}

impl Pattern {
    /// What a sequence gives from its member `i` on: nothing behind the last
    /// member, else the member and, behind it, the members that follow.
    pub proof fn lemma_scan_all_step(ps: Seq<Pattern>, i: nat, s: Seq<char>)
        ensures
            Self::scan_all(ps, i, s) == (if i >= ps.len() {
                Some(nothing())
            } else {
                match ps[i as int].scan(s) {
                    None => None,
                    Some(head) => Self::join(
                        head,
                        Self::scan_all(ps, i + 1, s.skip(head.len as int)),
                    ),
                }
            }),
    {
    }

    /// A sequence of two patterns is the first and, behind it, the second.
    pub proof fn lemma_pair(a: Pattern, b: Pattern, s: Seq<char>)
        ensures
            Pattern::Sequence(seq![a, b]).scan(s) == match a.scan(s) {
                None => None,
                Some(head) => Self::join(head, b.scan(s.skip(head.len as int))),
            },
    {
        let ps = seq![a, b];
        assert(ps.len() == 2 && ps[0] == a && ps[1] == b);
        if let Some(head) = a.scan(s) {
            let s1 = s.skip(head.len as int);
            assert(Self::scan_all(ps, 0, s) == Self::join(head, Self::scan_all(ps, 1, s1)));
            if let Some(tail) = b.scan(s1) {
                let s2 = s1.skip(tail.len as int);
                assert(Self::scan_all(ps, 2, s2) == Some(nothing()));
                assert(tail.text + Seq::<char>::empty() =~= tail.text);
                assert(Self::scan_all(ps, 1, s1) == Some(tail));
            } else {
                assert(Self::scan_all(ps, 1, s1) is None);
            }
        }
    }
}

} // verus!
