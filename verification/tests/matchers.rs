use expr_parser::basic_parser;
use expr_parser::basic_parser::chr;
use expr_parser::basic_parser::Rule;
use expr_parser::basic_parser::State;
use expr_parser::basic_parser::Transition;
use expr_parser::lexical;

#[test]
fn chr_match() {
    let matcher = chr('a');
    let result = matcher.matches(&State::from_string("abcd"));
    assert!(result.is_some());
    let result = result.unwrap();
    assert_eq!(result.peek_many(3), "bcd");
    assert_eq!(result.matched(), "a");
}

#[test]
fn chr_no_match() {
    let matcher = chr('a');
    let result = matcher.matches(&State::from_string("ABCDabcd"));
    assert!(result.is_none());
}

#[test]
fn range_chr_match() {
    let matcher = basic_parser::char_range('0', '9');
    let result = matcher.matches(&State::from_string("0"));
    assert!(result.is_some());
    assert_eq!(result.unwrap().matched(), "0");
    let result = matcher.matches(&State::from_string("5"));
    assert!(result.is_some());
    assert_eq!(result.unwrap().matched(), "5");
    let result = matcher.matches(&State::from_string("9"));
    assert!(result.is_some());
    assert_eq!(result.unwrap().matched(), "9");
}

#[test]
fn range_chr_no_match() {
    let matcher = basic_parser::char_range('0', '9');
    let result = matcher.matches(&State::from_string("ABCD1234"));
    assert!(result.is_none());
}

#[test]
fn seq() {
    let matcher = basic_parser::sequence(vec![chr('a'), chr('b'), chr('c')]);
    let result = matcher.matches(&State::from_string("abcd"));
    assert!(result.is_some());
    let result = result.unwrap();
    assert_eq!(result.peek(), 'd');
    assert_eq!(result.matched(), "abc");
}

#[test]
fn alt_match() {
    let state = State::from_string("abc");
    let matcher1 = basic_parser::alternation(vec![chr('a'), chr('b')]);
    let matcher2 = basic_parser::alternation(vec![chr('b'), chr('a')]);
    let result1 = matcher1.matches(&state);
    assert!(result1.is_some());
    assert_eq!(result1.as_ref().unwrap().peek(), 'b');
    assert_eq!(result1.unwrap().matched(), "a");
    let result2 = matcher2.matches(&state);
    assert!(result2.is_some());
    assert_eq!(result2.as_ref().unwrap().peek(), 'b');
    assert_eq!(result2.unwrap().matched(), "a");
}

#[test]
fn alt_no_match() {
    let state = State::from_string("cba");
    let matcher = basic_parser::alternation(vec![chr('a'), chr('b')]);
    let result = matcher.matches(&state);
    assert!(result.is_none());
}

#[test]
fn opt() {
    let matcher = basic_parser::optional(chr('b'));
    // For opt being false
    let result = matcher.matches(&State::from_string("abc"));
    assert!(result.is_some());
    assert_eq!(result.as_ref().unwrap().peek(), 'a');
    assert_eq!(result.unwrap().matched(), "");
    // for opt being true
    let result = matcher.matches(&State::from_string("bcd"));
    assert!(result.is_some());
    assert_eq!(result.as_ref().unwrap().peek(), 'c');
    assert_eq!(result.unwrap().matched(), "b");
}

#[test]
fn rep() {
    // Testing ?
    let matcher = basic_parser::quantified(chr('a'), '?');
    let mut result = matcher.matches(&State::from_string("abcd"));
    assert!(result.is_some());
    result = matcher.matches(&State::from_string("bcda"));
    assert!(result.is_some());
    assert_eq!(result.unwrap().matched(), "");
    // Testing +
    let matcher = basic_parser::quantified(chr('a'), '+');
    result = matcher.matches(&State::from_string("aabcd"));
    assert!(result.is_some());
    assert_eq!(result.as_ref().unwrap().peek(), 'b');
    assert_eq!(result.unwrap().matched(), "aa");
    result = matcher.matches(&State::from_string("bcda"));
    assert!(result.is_none());
    // Testing *
    let matcher = basic_parser::quantified(chr('a'), '*');
    result = matcher.matches(&State::from_string("aaaaaaabcd"));
    assert!(result.is_some());
    assert_eq!(result.as_ref().unwrap().peek(), 'b');
    assert_eq!(result.unwrap().matched(), "aaaaaaa");
    result = matcher.matches(&State::from_string("bcda"));
    assert!(result.is_some());
    assert_eq!(result.as_ref().unwrap().matched(), "");
    assert_eq!(result.unwrap().peek(), 'b');
}

#[test]
fn lower_letter() {
    let matcher = lexical::lower_letter();
    let mut result = matcher.matches(&State::from_string("a"));
    assert!(result.is_some());
    result = matcher.matches(&State::from_string("z"));
    assert!(result.is_some());
    result = matcher.matches(&State::from_string("A"));
    assert!(result.is_none());
}

#[test]
fn upper_letter() {
    let matcher = lexical::upper_letter();
    let mut result = matcher.matches(&State::from_string("A"));
    assert!(result.is_some());
    result = matcher.matches(&State::from_string("Z"));
    assert!(result.is_some());
    result = matcher.matches(&State::from_string("a"));
    assert!(result.is_none());
}

#[test]
fn letter() {
    let matcher = lexical::letter();
    let mut result = matcher.matches(&State::from_string("A"));
    assert!(result.is_some());
    result = matcher.matches(&State::from_string("Z"));
    assert!(result.is_some());
    result = matcher.matches(&State::from_string("a"));
    assert!(result.is_some());
    result = matcher.matches(&State::from_string("z"));
    assert!(result.is_some());
    result = matcher.matches(&State::from_string("_"));
    assert!(result.is_none());
    result = matcher.matches(&State::from_string("0"));
    assert!(result.is_none());
}

#[test]
fn alpha() {
    let matcher = lexical::alpha();
    let mut result = matcher.matches(&State::from_string("A"));
    assert!(result.is_some());
    result = matcher.matches(&State::from_string("z"));
    assert!(result.is_some());
    result = matcher.matches(&State::from_string("_"));
    assert!(result.is_some());
    result = matcher.matches(&State::from_string("0"));
    assert!(result.is_none());
}

#[test]
fn digit() {
    let matcher = lexical::digit();
    let mut result = matcher.matches(&State::from_string("0"));
    assert!(result.is_some());
    result = matcher.matches(&State::from_string("9"));
    assert!(result.is_some());
    result = matcher.matches(&State::from_string("a"));
    assert!(result.is_none());
}

#[test]
fn letter_str() {
    let matcher = lexical::letter_str();
    let mut result = matcher.matches(&State::from_string("Hello"));
    assert!(result.is_some());
    assert!(result.unwrap().complete());
    let mut result = matcher.matches(&State::from_string("Hello_"));
    assert!(result.is_some());
    assert_eq!(result.as_ref().unwrap().matched(), "Hello");
    assert_eq!(result.unwrap().peek(), '_');
    result = matcher.matches(&State::from_string("Alpha42"));
    assert!(result.is_some());
    assert_eq!(result.as_ref().unwrap().matched(), "Alpha");
    assert!(result.unwrap().peek() == '4');
}

#[test]
fn alpha_str() {
    let matcher = lexical::alpha_str();
    let mut result = matcher.matches(&State::from_string("Hello"));
    assert!(result.is_some());
    assert_eq!(result.as_ref().unwrap().matched(), "Hello");
    assert!(result.unwrap().complete());
    let mut result = matcher.matches(&State::from_string("Hello_"));
    assert!(result.is_some());
    assert_eq!(result.as_ref().unwrap().matched(), "Hello_");
    assert!(result.unwrap().complete());
    result = matcher.matches(&State::from_string("Alpha42"));
    assert!(result.is_some());
    assert_eq!(result.as_ref().unwrap().matched(), "Alpha");
    assert!(result.unwrap().peek() == '4');
}

#[test]
fn alphanum_str() {
    let matcher = lexical::alphanum_str();
    let mut result = matcher.matches(&State::from_string("Hello"));
    assert!(result.is_some());
    assert_eq!(result.as_ref().unwrap().matched(), "Hello");
    assert!(result.unwrap().complete());
    let mut result = matcher.matches(&State::from_string("Hello_"));
    assert!(result.is_some());
    assert_eq!(result.as_ref().unwrap().matched(), "Hello_");
    assert!(result.unwrap().complete());
    result = matcher.matches(&State::from_string("Alpha42"));
    assert!(result.is_some());
    assert_eq!(result.as_ref().unwrap().matched(), "Alpha42");
    assert!(result.unwrap().complete());
}

#[test]
fn transition_new_runs_its_rule() {
    let matcher = Transition::new(Rule::Range('x', 'z'));
    let result = matcher.matches(&State::from_string("yes"));
    assert_eq!(result.unwrap().matched(), "y");
    assert!(matcher.matches(&State::from_string("no")).is_none());
}

#[test]
fn range_fails_on_exhausted_input() {
    assert!(chr('a').matches(&State::from_string("")).is_none());
    assert!(basic_parser::char_range('\0', 'z').matches(&State::from_string("")).is_none());
    // a NUL that stands in the input is a character like any other
    let nul = basic_parser::char_range('\0', '\0').matches(&State::from_string("\0a"));
    assert_eq!(nul.unwrap().display(), "a");
}

#[test]
fn range_bounds_are_included() {
    let m = basic_parser::char_range('b', 'd');
    assert!(m.matches(&State::from_string("a")).is_none());
    assert!(m.matches(&State::from_string("b")).is_some());
    assert!(m.matches(&State::from_string("d")).is_some());
    assert!(m.matches(&State::from_string("e")).is_none());
    // an empty range matches nothing
    assert!(basic_parser::char_range('d', 'b').matches(&State::from_string("c")).is_none());
}

#[test]
fn sequence_fails_as_a_whole() {
    let state = State::from_string("abx");
    let matcher = basic_parser::sequence(vec![chr('a'), chr('b'), chr('c')]);
    assert!(matcher.matches(&state).is_none());
    // the cursor that was handed in can be used again
    assert_eq!(state.display(), "abx");
    let other = basic_parser::sequence(vec![chr('a'), chr('b'), chr('x')]);
    assert!(other.matches(&state).unwrap().complete());
}

#[test]
fn empty_sequence_and_empty_alternation() {
    let state = State::from_string("abc");
    let nothing = basic_parser::sequence(vec![]).matches(&state).unwrap();
    assert_eq!(nothing.display(), "abc");
    assert_eq!(nothing.matched(), "");
    assert!(basic_parser::alternation(vec![]).matches(&state).is_none());
}

#[test]
fn alternation_takes_the_first_that_matches() {
    let state = State::from_string("abc");
    let short = chr('a');
    let long = basic_parser::sequence(vec![chr('a'), chr('b')]);
    let matcher = basic_parser::alternation(vec![short, long]);
    let result = matcher.matches(&state).unwrap();
    assert_eq!(result.matched(), "a");
    assert_eq!(result.display(), "bc");
}

#[test]
fn zero_or_more_on_no_match() {
    let state = State::from_string("xyz");
    let many = basic_parser::zero_or_more(chr('a')).matches(&state).unwrap();
    assert_eq!(many.matched(), "");
    assert_eq!(many.display(), "xyz");
    let maybe = basic_parser::optional(chr('a')).matches(&state).unwrap();
    assert_eq!(maybe.matched(), "");
    assert_eq!(maybe.display(), "xyz");
    let empty = State::from_string("");
    assert!(basic_parser::zero_or_more(chr('a')).matches(&empty).unwrap().complete());
    assert!(basic_parser::optional(chr('a')).matches(&empty).unwrap().complete());
}

#[test]
fn zero_or_more_stops_where_nothing_is_consumed() {
    let state = State::from_string("aab");
    let inner = basic_parser::optional(chr('a'));
    let result = basic_parser::zero_or_more(inner).matches(&state).unwrap();
    assert_eq!(result.matched(), "aa");
    assert_eq!(result.display(), "b");
    let nested = basic_parser::zero_or_more(basic_parser::zero_or_more(chr('a')));
    assert_eq!(nested.matches(&state).unwrap().display(), "b");
}

#[test]
fn discard_keeps_nothing() {
    let state = State::from_string("abc");
    let matcher = basic_parser::discard(basic_parser::sequence(vec![chr('a'), chr('b')]));
    let result = matcher.matches(&state).unwrap();
    assert_eq!(result.matched(), "");
    assert_eq!(result.display(), "c");
    assert!(basic_parser::discard(chr('x')).matches(&state).is_none());
}

#[test]
fn discard_inside_a_sequence() {
    let matcher = basic_parser::sequence(vec![chr('a'), lexical::ws(), chr('b')]);
    let result = matcher.matches(&State::from_string("a \t\n\r b!")).unwrap();
    assert_eq!(result.matched(), "ab");
    assert_eq!(result.display(), "!");
}

#[test]
fn ws_skips_the_four_blanks() {
    let result = lexical::ws().matches(&State::from_string(" \t\r\n x ")).unwrap();
    assert_eq!(result.matched(), "");
    assert_eq!(result.display(), "x ");
    let none = lexical::ws().matches(&State::from_string("x")).unwrap();
    assert_eq!(none.display(), "x");
}

#[test]
fn name_is_a_letter_and_word_characters() {
    let result = lexical::name().matches(&State::from_string("a_1b-c")).unwrap();
    assert_eq!(result.matched(), "a_1b");
    assert_eq!(result.display(), "-c");
    assert_eq!(lexical::name().matches(&State::from_string("x")).unwrap().matched(), "x");
    assert!(lexical::name().matches(&State::from_string("_a")).is_none());
    assert!(lexical::name().matches(&State::from_string("1a")).is_none());
    assert!(lexical::name().matches(&State::from_string("")).is_none());
}

#[test]
fn alphanum_is_one_word_character() {
    assert!(lexical::alphanum().matches(&State::from_string("7")).is_some());
    assert!(lexical::alphanum().matches(&State::from_string("_")).is_some());
    assert!(lexical::alphanum().matches(&State::from_string("q")).is_some());
    assert!(lexical::alphanum().matches(&State::from_string("-")).is_none());
}

#[test]
fn dotted_name_drops_blanks_round_dots() {
    let result = lexical::dotted_name().matches(&State::from_string("a . b2.c+1")).unwrap();
    assert_eq!(result.matched(), "a.b2.c");
    assert_eq!(result.display(), "+1");
    let single = lexical::dotted_name().matches(&State::from_string("abc def")).unwrap();
    assert_eq!(single.matched(), "abc");
    assert_eq!(single.display(), " def");
}

#[test]
fn dotted_name_needs_a_name_after_a_dot() {
    assert!(lexical::dotted_name().matches(&State::from_string("a.")).is_none());
    assert!(lexical::dotted_name().matches(&State::from_string("a.1")).is_none());
    assert!(lexical::dotted_name().matches(&State::from_string(".a")).is_none());
}

#[test]
fn natural_stops_after_a_leading_zero() {
    let result = lexical::natural().matches(&State::from_string("01234")).unwrap();
    assert_eq!(result.matched(), "0");
    assert_eq!(result.display(), "1234");
    let result = lexical::natural().matches(&State::from_string("12034x")).unwrap();
    assert_eq!(result.matched(), "12034");
    assert_eq!(result.display(), "x");
    assert!(lexical::natural().matches(&State::from_string("x1")).is_none());
    assert!(lexical::natural().matches(&State::from_string(" 1")).is_none());
}
