use expr_parser::basic_parser::State;

#[test]
fn peek_one() {
    let s = State::from_string("Hello, World!");
    assert_eq!(s.peek(), 'H');
}

#[test]
fn peek_one_exceed() {
    let s = State::from_string("");
    assert_eq!(s.peek(), '\0');
}

#[test]
fn peek_many() {
    let s = State::from_string("Hello, World!");
    assert_eq!(s.peek_many(7), "Hello, ");
}

#[test]
fn peek_many_exceed() {
    let s = State::from_string("Hi");
    assert_eq!(s.peek_many(3), "");
}

#[test]
fn complete_true() {
    let s = State::from_string("");
    assert!(s.complete());
}

#[test]
fn complete_false() {
    let s = State::from_string("A");
    assert_eq!(s.complete(), false);
}

#[test]
fn read() {
    let s1 = State::from_string("Hello, World!");
    let s2 = s1.read(7);
    assert_eq!(s2.peek_many(6), "World!");
}

#[test]
fn read_keeps_what_it_consumed() {
    let s1 = State::from_string("Hello, World!");
    let s2 = s1.read(5);
    assert_eq!(s2.matched(), "Hello");
    assert_eq!(s2.display(), ", World!");
    assert_eq!(s2.len(), 8);
    // the cursor that was read from is untouched
    assert_eq!(s1.display(), "Hello, World!");
    assert_eq!(s1.matched(), "");
}

#[test]
fn read_nothing_and_everything() {
    let s = State::from_string("abc");
    let none = s.read(0);
    assert_eq!(none.display(), "abc");
    assert_eq!(none.matched(), "");
    let all = s.read(3);
    assert!(all.complete());
    assert_eq!(all.matched(), "abc");
}

#[test]
fn peek_many_counts_characters() {
    let s = State::from_string("häß!");
    assert_eq!(s.peek_many(3), "häß");
    assert_eq!(s.peek_many(4), "häß!");
    assert_eq!(s.peek_many(5), "");
    assert_eq!(s.peek_many(0), "");
    assert_eq!(s.len(), 4);
    assert_eq!(s.read(2).display(), "ß!");
}

#[test]
fn forget_clears_the_matched_text() {
    let s = State::from_string("abc").read(2);
    let f = s.forget();
    assert_eq!(f.matched(), "");
    assert_eq!(f.display(), "c");
    assert_eq!(s.matched(), "ab");
}

#[test]
fn update_moves_on_and_appends() {
    let start = State::from_string("abcdef");
    let mut first = start.read(2);
    let second = first.read(3);
    first.update(&second);
    assert_eq!(first.matched(), "abcde");
    assert_eq!(first.display(), "f");
    assert_eq!(second.matched(), "cde");
}

#[test]
fn clone_is_an_equal_cursor() {
    let s = State::from_string("abc").read(1);
    let c = s.clone();
    assert_eq!(c.display(), "bc");
    assert_eq!(c.matched(), "a");
}
