use swifty_parser::formatter::{Formatter, TreeColumn};
use swifty_parser::parser::{ControlFlow, State};
use swifty_parser::position::to_fat_chars;
use swifty_parser::text::Text;
use swifty_parser::tree::{PrettyBranch, PrettyFragment, PrettyTree, PrettyValue, ToPrettyTree};

fn text_of(tree: &PrettyTree) -> String {
    match tree {
        PrettyTree::Value(x) => x.clone(),
        _ => panic!("not a value"),
    }
}

#[test]
fn leaves_keep_or_quote_text() {
    assert_eq!(text_of(&PrettyTree::value("a b")), "a b");
    assert_eq!(text_of(&PrettyTree::leaf("x")), "x");
    assert_eq!(text_of(&PrettyTree::string("a\"b")), "\"a\\\"b\"");
    assert_eq!(text_of(&PrettyTree::str("hi")), "\"hi\"");
    assert!(matches!(PrettyTree::empty(), PrettyTree::Empty));
}

#[test]
fn key_value_joins_leaf() {
    let t = PrettyTree::key_value_of("k", PrettyTree::value("v"));
    assert_eq!(text_of(&t), "k: v");
    let t = PrettyTree::key_value_of("k", PrettyTree::String("s".to_string()));
    assert_eq!(text_of(&t), "k: \"s\"");
    let t = PrettyTree::key_value_of("k", PrettyTree::Empty);
    match t {
        PrettyTree::Branch(b) => {
            assert_eq!(b.label, "k");
            assert_eq!(b.children.len(), 1);
        }
        _ => panic!("not a branch"),
    }
}

#[test]
fn branch_and_fragment_hold_children() {
    let t = PrettyTree::branch_of("root", vec![PrettyTree::value("a"), PrettyTree::value("b")]);
    match t {
        PrettyTree::Branch(b) => {
            assert_eq!(b.label, "root");
            assert_eq!(b.children.len(), 2);
        }
        _ => panic!("not a branch"),
    }
    let f = PrettyTree::fragment(vec![PrettyTree::value("a")]);
    assert!(matches!(f, PrettyTree::Fragment(ref x) if x.nodes.len() == 1));
    let b = PrettyBranch::from_iter("l", vec!["x".to_string()]);
    assert_eq!(text_of(&b.children[0]), "\"x\"");
    let fr = PrettyFragment::from_iter(vec!["y".to_string(), "z".to_string()]);
    assert_eq!(fr.nodes.len(), 2);
    assert_eq!(text_of(&PrettyTree::some_value(PrettyValue::from_str("v"))), "v");
    assert_eq!(PrettyValue::from_string("w".to_string()).text, "w");
    assert!(matches!(PrettyTree::some_branch(b), PrettyTree::Branch(_)));
    assert!(matches!(PrettyTree::some_fragment(fr), PrettyTree::Fragment(_)));
}

#[test]
fn plain_format_draws_guides() {
    let f = Formatter::new(false);
    assert_eq!(PrettyTree::value("x").format(&f), "x");
    assert_eq!(PrettyTree::empty().format(&f), "");
    let t = PrettyTree::branch_of("root", vec![PrettyTree::value("a"), PrettyTree::value("b")]);
    assert_eq!(t.format(&f), "root\n\u{251c}\u{257c}\u{2009}a\n\u{2570}\u{257c}\u{2009}b");
    let one = PrettyTree::branch_of("r", vec![PrettyTree::branch_of("s", vec![PrettyTree::value("t")])]);
    assert_eq!(one.format(&f), "r\n\u{2570}\u{257c}\u{2009}s\n   \u{2570}\u{257c}\u{2009}t");
    let frag = PrettyTree::fragment(vec![PrettyTree::value("a")]);
    assert_eq!(frag.format(&f), "[]\n\u{2570}\u{257c}\u{2009}a");
}

#[test]
fn formatter_columns_settle() {
    let f = Formatter::new(false).down_and_right().down_then_right();
    assert_eq!(f.columns, vec![TreeColumn::VerticalBar, TreeColumn::DownThenRight]);
    let g = f.down_then_right();
    assert_eq!(g.columns, vec![TreeColumn::VerticalBar, TreeColumn::Empty, TreeColumn::DownThenRight]);
    assert_eq!(g.leading(), "\u{2502}     \u{2570}\u{257c}\u{2009}");
    let h = g.with_column(TreeColumn::UpThenRight).replace_last_column(TreeColumn::Empty).drop_last_column();
    assert_eq!(h.columns.len(), 3);
    assert_eq!(Formatter::new(false).leaf("v"), "v");
    assert_eq!(Formatter::new(false).color(3, "c"), "c");
}

#[test]
fn parser_values_describe_themselves() {
    let c = to_fat_chars("a")[0];
    assert_eq!(text_of(&c.to_pretty_tree()), "'a'");
    let nl = to_fat_chars("\n")[0];
    assert_eq!(text_of(&nl.to_pretty_tree()), "'\\n'");
    assert_eq!(text_of(&ControlFlow::Terminate.to_pretty_tree()), "ControlFlow::Terminate");
    assert_eq!(text_of(&ControlFlow::NoOp.to_pretty_tree()), "ControlFlow::NoOp");
    let text = Text::initialize_from("hi\n");
    assert_eq!(text_of(&text.to_pretty_tree()), "\"hi\\n\"");
    let state = State { text };
    let f = Formatter::new(false);
    assert_eq!(state.to_pretty_tree().format(&f), "State\n\u{2570}\u{257c}\u{2009}text: \"hi\\n\"");
}

#[test]
fn duplicate_copies_every_node() {
    let t = PrettyTree::branch_of("r", vec![PrettyTree::value("a"), PrettyTree::fragment(vec![PrettyTree::value("b")])]);
    let f = Formatter::new(false);
    assert_eq!(t.duplicate().format(&f), t.format(&f));
    assert_eq!(t.clone().format(&f), t.format(&f));
}

#[test]
fn string_node_renders_quoted() {
    let f = Formatter::new(false);
    assert_eq!(PrettyTree::String("a\nb".to_string()).format(&f), "\"a\\nb\"");
    assert_eq!(PrettyValue::from_str("v").format(&f), "v");
    let t = PrettyTree::key_value("key", &"text".to_string());
    assert_eq!(text_of(&t), "key: \"text\"");
    let t = PrettyTree::key_value("key", &PrettyTree::value("v"));
    assert_eq!(text_of(&t), "key: v");
}

fn strip_codes(s: &str) -> String {
    let mut out = String::new();
    let mut chars = s.chars().peekable();
    while let Some(c) = chars.next() {
        if c == '\u{1b}' && chars.peek() == Some(&'[') {
            for d in chars.by_ref() {
                if d == 'm' {
                    break;
                }
            }
        } else {
            out.push(c);
        }
    }
    out
}

#[test]
fn coloured_format_reads_as_plain() {
    let t = PrettyTree::branch_of(
        "root",
        vec![PrettyTree::value("a"), PrettyTree::fragment(vec![PrettyTree::value("b"), PrettyTree::value("c")])],
    );
    let coloured = t.format(&Formatter::default());
    let plain = t.format(&Formatter::new(false));
    assert_eq!(strip_codes(&coloured), plain);
    assert_eq!(strip_codes(&PrettyValue::from_str("v").format(&Formatter::default())), "v");
}
