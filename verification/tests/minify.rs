use proc_macro2::TokenStream;
use rustminify::canonical::canonical_tokens;
use rustminify::minify::{minify, minify_file, minify_tokens};
use rustminify::token::{tokens_equal, Delim, Pos, Spacing, Token};

fn ts(s: &str) -> TokenStream {
    s.parse().unwrap()
}

fn ident(s: &str) -> Token {
    Token::Ident(s.chars().collect())
}

fn lit(s: &str, line: usize, column: usize) -> Token {
    Token::Literal(s.chars().collect(), Pos { line, column })
}

fn punct(c: char, line: usize, column: usize, sp: Spacing) -> Token {
    Token::Punct(c, Pos { line, column }, sp)
}

#[test]
fn joint_add_deref() {
    assert_eq!("a+*b", minify_tokens(ts("a + *b")));
}

#[test]
fn joint_add_not() {
    assert_eq!("a+!b", minify_tokens(ts("a + !b")));
}

#[test]
fn joint_add_neg() {
    assert_eq!("a+-b", minify_tokens(ts("a + -b")));
}

#[test]
fn joint_add_reference() {
    assert_eq!("a+&b", minify_tokens(ts("a + &b")));
}

#[test]
fn joint_andand_reference() {
    assert_eq!("a&&&b", minify_tokens(ts("a && &b")));
}

#[test]
fn space_and_reference() {
    assert_eq!("a& &b", minify_tokens(ts("a & &b")));
}

#[test]
fn space_le_neg() {
    assert_eq!("a< -b", minify_tokens(ts("a < -b")));
}

#[test]
fn zero_arg_closure() {
    assert_eq!("x| ||()", minify_tokens(ts("x | || ()")));
}

#[test]
fn println_call() {
    assert_eq!(
        "println!(\"{}\",2*2+1)",
        minify_tokens(ts("println!(\"{}\", 2 * 2 + 1)"))
    );
}

#[test]
fn macro_rules_def() {
    assert_eq!(
        "macro_rules!m{($($_:tt)*)=>{};}",
        minify_tokens(ts("macro_rules! m { ($($_:tt)*) => {}; }"))
    );
}

#[test]
fn match_arms() {
    assert_eq!("'a'=>1,'b'=>2,", minify_tokens(ts("'a' => 1, 'b' => 2,")));
}

#[test]
fn mod_a_hello_file() {
    let file: syn::File =
        syn::parse_str("mod a { fn hello() -> &'static str { \"Hello\" } }").unwrap();
    assert_eq!(
        "mod a{fn hello()->&'static str{\"Hello\"}}",
        minify_file(&file)
    );
}

#[test]
fn empty_stream() {
    assert_eq!("", minify(&Vec::new()));
}

#[test]
fn two_words_single_space() {
    assert_eq!("mod a", minify_tokens(ts("mod    a")));
}

#[test]
fn dec_point_range_unpositioned() {
    // The trailing-dot literal split: with no position information the
    // pending dot is treated as non-adjacent, and `.` against `.` is in the
    // ambiguity table, so one protective space survives.
    let tokens = vec![
        lit("0.", 0, 0),
        punct('.', 0, 0, Spacing::Joint),
        punct('.', 0, 0, Spacing::Alone),
        lit("1.", 0, 0),
    ];
    assert_eq!("0. ..1.", minify(&tokens));
}

#[test]
fn dec_point_range_fallback() {
    // With real positions the literal's end cell and the first dot of the
    // range count as adjacent, the candidate merges into text that lexes
    // differently, and the canonical space-separated rendering is emitted.
    let tokens = vec![
        lit("0.", 1, 2),
        punct('.', 1, 3, Spacing::Joint),
        punct('.', 1, 4, Spacing::Alone),
        lit("1.", 1, 7),
    ];
    assert_eq!("0. . . 1.", minify(&tokens));
}

#[test]
fn invisible_group_falls_back() {
    // An invisible delimiter cannot survive re-tokenization, so the
    // canonical rendering, a space for each invisible side, is emitted.
    let tokens = vec![Token::Group(Delim::Invisible, vec![ident("a")]), ident("b")];
    assert_eq!(" a  b", minify(&tokens));
}

#[test]
fn minify_file_idempotent() {
    let src = "mod a { fn hello() -> &'static str { \"Hello\" } }";
    let once = minify_file(&syn::parse_str(src).unwrap());
    let twice = minify_file(&syn::parse_str(&once).unwrap());
    assert_eq!(once, twice);
}

#[test]
fn minify_tokens_idempotent() {
    for src in ["a & &b", "0. ..1.", "x | || ()", "a && &b"] {
        let once = minify_tokens(ts(src));
        let twice = minify_tokens(ts(&once));
        assert_eq!(once, twice);
    }
}

#[test]
fn round_trip_retokenizes() {
    // Safety: the output lexes back to an equivalent token sequence.
    let src = "mod a { fn hello(x: &[u8]) -> u32 { x.len() as u32 + 1 } }";
    let out = minify_file(&syn::parse_str(src).unwrap());
    let reparsed: syn::File = syn::parse_str(&out).unwrap();
    assert_eq!(out, minify_file(&reparsed));
}

#[test]
fn equivalence_ignores_positions_and_spacing() {
    let a = vec![
        ident("x"),
        punct('+', 1, 2, Spacing::Alone),
        Token::Group(Delim::Paren, vec![lit("1", 1, 4)]),
    ];
    let b = vec![
        ident("x"),
        punct('+', 9, 9, Spacing::Joint),
        Token::Group(Delim::Paren, vec![lit("1", 0, 0)]),
    ];
    assert!(tokens_equal(&a, &b));
}

#[test]
fn equivalence_sees_text() {
    let a = vec![ident("x")];
    let b = vec![ident("y")];
    assert!(!tokens_equal(&a, &b));
    let c = vec![Token::Group(Delim::Paren, vec![ident("x")])];
    let d = vec![Token::Group(Delim::Brace, vec![ident("x")])];
    assert!(!tokens_equal(&c, &d));
}

#[test]
fn canonical_single_spaces() {
    let tokens = vec![
        ident("a"),
        punct('+', 0, 0, Spacing::Alone),
        Token::Group(Delim::Paren, vec![ident("b"), ident("c")]),
    ];
    let r: String = canonical_tokens(&tokens).into_iter().collect();
    assert_eq!("a + (b c)", r);
}
