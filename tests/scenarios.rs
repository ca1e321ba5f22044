use swifty_parser::parser::{
    and, and2, and3, and_then, char, char_if, evaluate, many, next, pure, sequence, some,
    terminate_if_ok, token, ControlFlow, Output, Parser, SequenceSettings, State,
};
use swifty_parser::position::FatChar;
use swifty_parser::text::Text;

fn values(list: &[FatChar]) -> Vec<char> {
    list.iter().map(|c| c.value).collect()
}

#[test]
fn some_alphabetic_stops_at_digits() {
    let (out, state) = evaluate("ab12", some(char_if(|c: char| c.is_alphabetic())));
    assert_eq!(values(&out.unwrap()), vec!['a', 'b']);
    assert_eq!(state.text.render(), "12");
}

#[test]
fn many_on_empty_input_is_empty() {
    let (out, state) = evaluate("", many(char_if(|c: char| c.is_alphabetic())));
    assert_eq!(out.unwrap().len(), 0);
    assert!(state.text.is_empty());
}

#[test]
fn some_on_empty_input_fails() {
    let (out, state) = evaluate("", some(char_if(|c: char| c.is_alphabetic())));
    assert!(out.is_none());
    assert!(state.text.is_empty());
}

#[test]
fn repeat_until_whitespace_terminator() {
    let settings = SequenceSettings::new()
        .allow_empty(false)
        .until_terminator(terminate_if_ok(char_if(|c: char| c.is_whitespace())));
    let (out, state) = evaluate("Hello World", sequence(next(), settings));
    assert_eq!(values(&out.unwrap()), vec!['H', 'e', 'l', 'l', 'o']);
    assert_eq!(state.text.render(), " World");
}

#[test]
fn literal_matches_prefix() {
    let (out, state) = evaluate("Hello World", token("Hello".to_string()));
    assert_eq!(out.unwrap().render(), "Hello");
    assert_eq!(state.text.render(), " World");
}

#[test]
fn literal_mismatch_leaves_cursor() {
    let start = Text::initialize_from("Help");
    let (out, state) = evaluate("Help", token("Hello".to_string()));
    assert!(out.is_none());
    assert_eq!(state.text.render(), "Help");
    assert_eq!(state.text.start_index(), start.start_index());
    assert_eq!(state.text.len(), start.len());
}

#[test]
fn pure_keeps_cursor() {
    let state = State { text: Text::initialize_from("xyz") };
    match pure(7u8).run(state) {
        Output::Success { value, state } => {
            assert_eq!(value, 7);
            assert_eq!(state.text.render(), "xyz");
        }
        Output::Failure { .. } => panic!("pure failed"),
    }
}

#[test]
fn bind_of_pure_is_function_applied() {
    let bound = and_then(pure('e'), |c: char| char(c));
    let direct = char('e');
    let (a, sa) = evaluate("ex", bound);
    let (b, sb) = evaluate("ex", direct);
    assert_eq!(a.unwrap().value, b.unwrap().value);
    assert_eq!(sa.text.render(), sb.text.render());
    assert_eq!(sa.text.render(), "x");
}

#[test]
fn bind_is_associative_on_a_sample() {
    let left = and_then(and_then(next(), |c: FatChar| char(c.value)), |_c: FatChar| next());
    let right = and_then(next(), |c: FatChar| and_then(char(c.value), |_d: FatChar| next()));
    let (a, sa) = evaluate("aab", left);
    let (b, sb) = evaluate("aab", right);
    assert_eq!(a.unwrap().value, 'b');
    assert_eq!(b.unwrap().value, 'b');
    assert_eq!(sa.text.render(), sb.text.render());
    let (a, sa) = evaluate("abb", and_then(and_then(next(), |c: FatChar| char(c.value)), |_c: FatChar| next()));
    assert!(a.is_none());
    assert_eq!(sa.text.render(), "bb");
}

#[test]
fn bind_does_not_roll_back() {
    let parser = and_then(next(), |_c: FatChar| char('z'));
    let (out, state) = evaluate("ab", parser);
    assert!(out.is_none());
    assert_eq!(state.text.render(), "b");
}

#[test]
fn many_of_always_failing_is_empty() {
    let (out, state) = evaluate("abc", many(char_if(|_c: char| false)));
    assert_eq!(out.unwrap().len(), 0);
    assert_eq!(state.text.render(), "abc");
    let (out, state) = evaluate("abc", some(char_if(|_c: char| false)));
    assert!(out.is_none());
    assert_eq!(state.text.render(), "abc");
}

#[test]
fn some_of_single_success() {
    let (out, state) = evaluate("a1", some(char('a')));
    assert_eq!(values(&out.unwrap()), vec!['a']);
    assert_eq!(state.text.render(), "1");
}

#[test]
fn terminator_preempts_first_element() {
    let settings = SequenceSettings::new()
        .allow_empty(true)
        .until_terminator(terminate_if_ok(next()));
    let (out, state) = evaluate("abc", sequence(next(), settings));
    assert_eq!(out.unwrap().len(), 0);
    assert_eq!(state.text.render(), "abc");
    let settings = SequenceSettings::new()
        .allow_empty(false)
        .until_terminator(terminate_if_ok(next()));
    let (out, state) = evaluate("abc", sequence(next(), settings));
    assert!(out.is_none());
    assert_eq!(state.text.render(), "abc");
}

#[test]
fn terminator_reports_without_consuming() {
    let state = State { text: Text::initialize_from("a") };
    match terminate_if_ok(char('a')).run(state) {
        Output::Success { value, state } => {
            assert_eq!(value, ControlFlow::Terminate);
            assert_eq!(state.text.render(), "a");
        }
        Output::Failure { .. } => panic!("terminator failed"),
    }
    let state = State { text: Text::initialize_from("b") };
    match terminate_if_ok(char('a')).run(state) {
        Output::Success { value, .. } => assert_eq!(value, ControlFlow::NoOp),
        Output::Failure { .. } => panic!("terminator failed"),
    }
}

#[test]
fn products_collect_values_in_order() {
    let (out, state) = evaluate("abcd!", and(char('a'), char('b')));
    let (x, y) = out.unwrap();
    assert_eq!((x.value, y.value), ('a', 'b'));
    assert_eq!(state.text.render(), "cd!");
    let (out, _) = evaluate("abcd!", and2(char('a'), char('b'), char('c')));
    let (x, y, z) = out.unwrap();
    assert_eq!((x.value, y.value, z.value), ('a', 'b', 'c'));
    let (out, state) = evaluate("abcd!", and3(char('a'), char('b'), char('c'), char('d')));
    let (_, _, _, w) = out.unwrap();
    assert_eq!(w.value, 'd');
    assert_eq!(state.text.render(), "!");
}

#[test]
fn product_failure_keeps_consumption() {
    let (out, state) = evaluate("ax", and(char('a'), char('b')));
    assert!(out.is_none());
    assert_eq!(state.text.render(), "x");
}

#[test]
fn map_transforms_value_only() {
    let (out, state) = evaluate("q!", swifty_parser::parser::map(next(), |c: FatChar| c.value.is_alphabetic()));
    assert_eq!(out, Some(true));
    assert_eq!(state.text.render(), "!");
}

#[test]
fn exact_scalar_failure_keeps_cursor() {
    let (out, state) = evaluate("b", char('a'));
    assert!(out.is_none());
    assert_eq!(state.text.render(), "b");
}

#[test]
fn next_after_literal_reads_following_scalar() {
    let parser = and(token("Hello".to_string()), next());
    let (out, state) = evaluate("Hello World", parser);
    let (matched, c) = out.unwrap();
    assert_eq!(matched.render(), "Hello");
    assert_eq!(c.value, ' ');
    assert_eq!(c.index.byte_offset, 5);
    assert_eq!(state.text.render(), "World");
}

#[test]
fn split_text_uncons_and_prefix() {
    let text = Text::initialize_from("abcdef");
    let (_, rest) = text.take(2).unwrap();
    let (c, tail) = rest.uncons().unwrap();
    assert_eq!(c.value, 'c');
    assert_eq!(tail.render(), "def");
    assert!(rest.has_prefix("cd"));
    assert!(!rest.has_prefix("ab"));
    let (_, rest) = text.pop_prefix("abc").unwrap();
    assert!(rest.has_prefix("def"));
    assert_eq!(rest.uncons().unwrap().0.value, 'd');
}

#[test]
fn pure_of_text_value() {
    let value = Text::initialize_from("v");
    let (out, state) = evaluate("xy", pure(value));
    assert_eq!(out.unwrap().render(), "v");
    assert_eq!(state.text.render(), "xy");
}
