use vstd::prelude::*;
use crate::lexical::alpha_pattern;
use crate::lexical::alphanum_pattern;
use crate::lexical::blank_pattern;
use crate::lexical::digit_pattern;
use crate::lexical::letter_pattern;
use crate::pattern::Match;
use crate::pattern::Pattern;

verus! {

/// The classes of characters that the lexical rules tell apart.
pub enum CharClass {
    /// A space, a tab, a line feed or a carriage return.
    Blank,
    /// `a` to `z` and `A` to `Z`.
    Letter,
    /// `0` to `9`.
    Digit,
    /// A letter, a digit or the underscore.
    Word,
}

impl CharClass {
    /// Whether `c` belongs to the class.
    pub open spec fn has(self, c: char) -> bool {
        match self {
            CharClass::Blank => c == ' ' || c == '\t' || c == '\n' || c == '\r',
            CharClass::Letter => ('a' <= c && c <= 'z') || ('A' <= c && c <= 'Z'),
            CharClass::Digit => '0' <= c && c <= '9',
            CharClass::Word => ('a' <= c && c <= 'z') || ('A' <= c && c <= 'Z') || c == '_' || (
            '0' <= c && c <= '9'),
        }
    }

    /// The lexical rule that matches one character of the class.
    pub open spec fn pattern(self) -> Pattern {
        match self {
            CharClass::Blank => blank_pattern(),
            CharClass::Letter => letter_pattern(),
            CharClass::Digit => digit_pattern(),
            CharClass::Word => alphanum_pattern(),
        }
    }

    /// Whether every character of `s` belongs to the class.
    pub open spec fn all(self, s: Seq<char>) -> bool {
        forall|i: int| 0 <= i < s.len() ==> self.has(#[trigger] s[i])
    }

    /// Whether `s` begins with a character of the class.
    pub open spec fn starts(self, s: Seq<char>) -> bool {
        s.len() > 0 && self.has(s[0])
    }

    /// How many characters at the start of `s` belong to the class, one
    /// after the other.
    pub open spec fn run(self, s: Seq<char>) -> nat
        decreases s.len(),
    {
        if self.starts(s) {
            1 + self.run(s.skip(1))
        } else {
            0
        }
    }

    /// The match of the one character at the start of `s`.
    pub open spec fn one(s: Seq<char>) -> Match {
        Match { len: 1, text: seq![s[0]] }
    }

    /// The rule of a class matches one character of the class, and nothing else.
    pub proof fn lemma_pattern(self, s: Seq<char>)
        ensures
            self.pattern().scan(s) == (if self.starts(s) {
                Some(Self::one(s))
            } else {
                None
            }),
    {
        match self {
            CharClass::Blank => {
                let ps = blank_pattern()->Choice_0;
                assert(ps.len() == 4);
                assert(ps[0] == Pattern::Range(' ', ' '));
                assert(ps[1] == Pattern::Range('\t', '\t'));
                assert(ps[2] == Pattern::Range('\n', '\n'));
                assert(ps[3] == Pattern::Range('\r', '\r'));
                Self::lemma_first_of(ps, s);
            },
            CharClass::Letter => {
                Self::lemma_letter(s);
            },
            CharClass::Digit => {},
            CharClass::Word => {
                Self::lemma_letter(s);
                let alpha = alpha_pattern();
                let qs = alpha->Choice_0;
                assert(qs.len() == 2);
                assert(qs[0] == letter_pattern());
                assert(qs[1] == Pattern::Range('_', '_'));
                Self::lemma_first_of(qs, s);
                let ps = alphanum_pattern()->Choice_0;
                assert(ps.len() == 2);
                assert(ps[0] == alpha);
                assert(ps[1] == digit_pattern());
                Self::lemma_first_of(ps, s);
            },
        }
    }

    proof fn lemma_letter(s: Seq<char>)
        ensures
            letter_pattern().scan(s) == (if CharClass::Letter.starts(s) {
                Some(Self::one(s))
            } else {
                None
            }),
    {
        let ps = letter_pattern()->Choice_0;
        assert(ps.len() == 2);
        assert(ps[0] == Pattern::Range('a', 'z'));
        assert(ps[1] == Pattern::Range('A', 'Z'));
        Self::lemma_first_of(ps, s);
    }

    /// What a choice gives, by where its first match stands.
    proof fn lemma_first_of(ps: Seq<Pattern>, s: Seq<char>)
        ensures
            forall|i: int|
                0 <= i < ps.len() && (#[trigger] ps[i]).scan(s) is Some && (forall|j: int|
                    0 <= j < i ==> (#[trigger] ps[j]).scan(s) is None) ==> Pattern::Choice(ps).scan(
                    s,
                ) == ps[i].scan(s),
            (forall|j: int| 0 <= j < ps.len() ==> (#[trigger] ps[j]).scan(s) is None)
                ==> Pattern::Choice(ps).scan(s) is None,
    {
        assert forall|i: int|
            0 <= i < ps.len() && (#[trigger] ps[i]).scan(s) is Some && (forall|j: int|
                0 <= j < i ==> (#[trigger] ps[j]).scan(s) is None) implies Pattern::Choice(ps).scan(
            s,
        ) == ps[i].scan(s) by {
            Pattern::lemma_choice_is_ordered(ps, i, s);
        }
        if forall|j: int| 0 <= j < ps.len() ==> (#[trigger] ps[j]).scan(s) is None {
            Pattern::lemma_choice_fails(ps, 0, s);
        }
    }

    /// A run of the class is no longer than the input, all of it belongs to
    /// the class, and what follows it does not begin with the class.
    pub proof fn lemma_run(self, s: Seq<char>)
        ensures
            self.run(s) <= s.len(),
            self.all(s.take(self.run(s) as int)),
            !self.starts(s.skip(self.run(s) as int)),
        decreases s.len(),
    {
        if self.starts(s) {
            let rest = s.skip(1);
            self.lemma_run(rest);
            let n = self.run(rest);
            assert(rest.skip(n as int) =~= s.skip(n as int + 1));
            assert forall|i: int| 0 <= i < n + 1 implies self.has(#[trigger] s.take(n as int + 1)[i]) by {
                if i > 0 {
                    assert(s.take(n as int + 1)[i] == rest.take(n as int)[i - 1]);
                }
            }
        } else {
            assert(s.skip(0) =~= s);
        }
    }

    /// The one prefix of `s` that belongs to the class and is not followed
    /// by the class is the run.
    pub proof fn lemma_run_is(self, s: Seq<char>, n: nat)
        requires
            n <= s.len(),
            self.all(s.take(n as int)),
            !self.starts(s.skip(n as int)),
        ensures
            self.run(s) == n,
        decreases n,
    {
        if n == 0 {
            assert(s.skip(0) =~= s);
        } else {
            assert(s[0] == s.take(n as int)[0]);
            let rest = s.skip(1);
            assert(rest.skip(n - 1) =~= s.skip(n as int));
            assert forall|i: int| 0 <= i < n - 1 implies self.has(#[trigger] rest.take(n - 1)[i]) by {
                assert(rest.take(n - 1)[i] == s.take(n as int)[i + 1]);
            }
            self.lemma_run_is(rest, (n - 1) as nat);
        }
    }

    /// Repeating the rule of a class matches the run of the class, and keeps it.
    pub proof fn lemma_many(self, s: Seq<char>)
        ensures
            Pattern::scan_many(self.pattern(), s) == (Match {
                len: self.run(s),
                text: s.take(self.run(s) as int),
            }),
        decreases s.len(),
    {
        self.lemma_pattern(s);
        if self.starts(s) {
            let rest = s.skip(1);
            self.lemma_many(rest);
            self.lemma_run(rest);
            let n = self.run(rest);
            assert(seq![s[0]] + rest.take(n as int) =~= s.take(n as int + 1));
        } else {
            assert(s.take(0) =~= Seq::<char>::empty());
        }
    }
}

} // verus!
