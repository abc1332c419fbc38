use vstd::prelude::*;
use crate::basic_parser::alternation;
use crate::basic_parser::char_range;
use crate::basic_parser::chr;
use crate::basic_parser::discard;
use crate::basic_parser::optional;
use crate::basic_parser::quantified;
use crate::basic_parser::sequence;
use crate::basic_parser::Transition;
use crate::basic_parser::zero_or_more;
use crate::pattern::Pattern;

verus! {

/// `'a'` to `'z'`.
pub open spec fn lower_letter_pattern() -> Pattern {
    Pattern::Range('a', 'z')
}

/// `'A'` to `'Z'`.
pub open spec fn upper_letter_pattern() -> Pattern {
    Pattern::Range('A', 'Z')
}

/// A lower-case or an upper-case letter.
pub open spec fn letter_pattern() -> Pattern {
    Pattern::Choice(seq![lower_letter_pattern(), upper_letter_pattern()])
}

/// A letter or the underscore.
pub open spec fn alpha_pattern() -> Pattern {
    Pattern::Choice(seq![letter_pattern(), Pattern::Range('_', '_')])
}

/// `'0'` to `'9'`.
pub open spec fn digit_pattern() -> Pattern {
    Pattern::Range('0', '9')
}

/// A letter, an underscore or a digit.
pub open spec fn alphanum_pattern() -> Pattern {
    Pattern::Choice(seq![alpha_pattern(), digit_pattern()])
}

/// The pattern `p`, at least once.
pub open spec fn one_or_more(p: Pattern) -> Pattern {
    Pattern::Sequence(seq![p, Pattern::ZeroOrMore(Box::new(p))])
}

/// One blank: a space, a tab, a line feed or a carriage return.
pub open spec fn blank_pattern() -> Pattern {
    Pattern::Choice(
        seq![
            Pattern::Range(' ', ' '),
            Pattern::Range('\t', '\t'),
            Pattern::Range('\n', '\n'),
            Pattern::Range('\r', '\r'),
        ],
    )
}

/// Any number of blanks, none of them kept.
pub open spec fn ws_pattern() -> Pattern {
    Pattern::Discard(Box::new(Pattern::ZeroOrMore(Box::new(blank_pattern()))))
}

/// A letter, followed by any number of letters, underscores and digits.
pub open spec fn name_pattern() -> Pattern {
    Pattern::Sequence(
        seq![letter_pattern(), Pattern::Optional(Box::new(one_or_more(alphanum_pattern())))],
    )
}

/// A name, blanks, a dot and blanks: one part of a dotted name that is not
/// its last.
pub open spec fn qualifier_pattern() -> Pattern {
    Pattern::Sequence(seq![name_pattern(), ws_pattern(), Pattern::Range('.', '.'), ws_pattern()])
}

/// Names joined by dots, with blanks allowed on both sides of each dot.
pub open spec fn dotted_name_pattern() -> Pattern {
    Pattern::Sequence(
        seq![Pattern::ZeroOrMore(Box::new(qualifier_pattern())), name_pattern()],
    )
}

/// `0` alone, or a digit from `1` to `9` followed by any number of digits.
pub open spec fn natural_pattern() -> Pattern {
    Pattern::Choice(
        seq![
            Pattern::Range('0', '0'),
            Pattern::Sequence(
                seq![Pattern::Range('1', '9'), Pattern::ZeroOrMore(Box::new(digit_pattern()))],
            ),
        ],
    )
}

/// Matches one lower-case letter.
pub fn lower_letter() -> (t: Transition)
    ensures
        t@ == lower_letter_pattern(),
{
    char_range('a', 'z')
}

/// Matches one upper-case letter.
pub fn upper_letter() -> (t: Transition)
    ensures
        t@ == upper_letter_pattern(),
{
    char_range('A', 'Z')
}

/// Matches one letter.
pub fn letter() -> (t: Transition)
    ensures
        t@ == letter_pattern(),
{
    let t = alternation(vec![lower_letter(), upper_letter()]);
    assert(t@->Choice_0 =~= letter_pattern()->Choice_0);
    t
}

/// Matches one letter or underscore.
pub fn alpha() -> (t: Transition)
    ensures
        t@ == alpha_pattern(),
{
    let t = alternation(vec![letter(), chr('_')]);
    assert(t@->Choice_0 =~= alpha_pattern()->Choice_0);
    t
}

/// Matches one digit.
pub fn digit() -> (t: Transition)
    ensures
        t@ == digit_pattern(),
{
    char_range('0', '9')
}

/// Matches one letter, underscore or digit.
pub fn alphanum() -> (t: Transition)
    ensures
        t@ == alphanum_pattern(),
{
    let t = alternation(vec![alpha(), digit()]);
    assert(t@->Choice_0 =~= alphanum_pattern()->Choice_0);
    t
}

/// Matches one or more letters.
pub fn letter_str() -> (t: Transition)
    ensures
        t@ == one_or_more(letter_pattern()),
{
    quantified(letter(), '+')
}

/// Matches one or more letters and underscores.
pub fn alpha_str() -> (t: Transition)
    ensures
        t@ == one_or_more(alpha_pattern()),
{
    quantified(alpha(), '+')
}

/// Matches one or more letters, underscores and digits.
pub fn alphanum_str() -> (t: Transition)
    ensures
        t@ == one_or_more(alphanum_pattern()),
{
    quantified(alphanum(), '+')
}

/// Skips blanks and keeps nothing of them.
pub fn ws() -> (t: Transition)
    ensures
        t@ == ws_pattern(),
{
    let blank = alternation(vec![chr(' '), chr('\t'), chr('\n'), chr('\r')]);
    assert(blank@->Choice_0 =~= blank_pattern()->Choice_0);
    discard(zero_or_more(blank))
}

/// Matches a name.
pub fn name() -> (t: Transition)
    ensures
        t@ == name_pattern(),
{
    let t = sequence(vec![letter(), optional(alphanum_str())]);
    assert(t@->Sequence_0 =~= name_pattern()->Sequence_0);
    t
}

/// Matches a dotted name. The blanks round the dots are not kept, so the
/// matched text of `a . b` is `a.b`.
pub fn dotted_name() -> (t: Transition)
    ensures
        t@ == dotted_name_pattern(),
{
    let qualifier = sequence(vec![name(), ws(), chr('.'), ws()]);
    assert(qualifier@->Sequence_0 =~= qualifier_pattern()->Sequence_0);
    let t = sequence(vec![zero_or_more(qualifier), name()]);
    assert(t@->Sequence_0 =~= dotted_name_pattern()->Sequence_0);
    t
}

/// Matches an unsigned integer literal. After a leading `0` nothing more is
/// taken: of `01234` only the `0` is matched.
pub fn natural() -> (t: Transition)
    ensures
        t@ == natural_pattern(),
{
    let nonzero = sequence(vec![char_range('1', '9'), zero_or_more(digit())]);
    assert(nonzero@->Sequence_0 =~= natural_pattern()->Choice_0[1]->Sequence_0);
    let t = alternation(vec![chr('0'), nonzero]);
    assert(t@->Choice_0 =~= natural_pattern()->Choice_0);
    t
}

} // verus!
