//! The token-tree data model: groups, identifiers, literals and punctuation,
//! together with structural equivalence, which ignores source positions and
//! spacing flags.

use vstd::prelude::*;

verus! {

/// A group's delimiter.  An invisible group renders as a space on each side.
#[derive(Clone, Copy, PartialEq, Eq, Structural, Debug)]
pub enum Delim {
    Paren,
    Brace,
    Bracket,
    Invisible,
}

/// Whether a punctuation character is glued to the punctuation token that
/// follows it (`Joint`, as in the two halves of `==`) or not (`Alone`).
#[derive(Clone, Copy, PartialEq, Eq, Structural, Debug)]
pub enum Spacing {
    Alone,
    Joint,
}

/// A source position: line and column of a token's start or end.  Positions
/// only feed the adjacency check of the serializer; they are never emitted.
#[derive(Clone, Copy, PartialEq, Eq, Structural, Debug)]
pub struct Pos {
    pub line: usize,
    pub column: usize,
}

/// One tree of a token stream.  Texts are held as character vectors.
pub enum Token {
    /// A delimited group and the token sequence inside it.
    Group(Delim, Vec<Token>),
    /// An identifier or keyword.
    Ident(Vec<char>),
    /// A literal, with the position just past its last character.
    Literal(Vec<char>, Pos),
    /// A punctuation character, with its start position and spacing flag.
    Punct(char, Pos, Spacing),
}

/// Structural equivalence of two tokens: equal delimiters, texts and
/// punctuation characters, recursively through groups, ignoring positions
/// and spacing flags.
pub open spec fn tok_equiv(a: Token, b: Token) -> bool
    decreases a, 1int,
{
    match (a, b) {
        (Token::Group(d1, i1), Token::Group(d2, i2)) => d1 == d2 && toks_equiv(i1@, i2@),
        (Token::Ident(s1), Token::Ident(s2)) => s1@ == s2@,
        (Token::Literal(s1, _), Token::Literal(s2, _)) => s1@ == s2@,
        (Token::Punct(c1, _, _), Token::Punct(c2, _, _)) => c1 == c2,
        _ => false,
    }
}

/// Structural equivalence of two token sequences, element by element.
pub open spec fn toks_equiv(a: Seq<Token>, b: Seq<Token>) -> bool
    decreases a, 0int,
{
    a.len() == b.len() && forall|i: int| 0 <= i < a.len() ==> tok_equiv(#[trigger] a[i], b[i])
}

/// Compares two character vectors for equality of their contents.
pub fn chars_equal(a: &Vec<char>, b: &Vec<char>) -> (r: bool)
    ensures
        r == (a@ == b@),
{
    if a.len() != b.len() {
        return false;
    }
    let mut i: usize = 0;
    while i < a.len()
        invariant
            0 <= i <= a.len(),
            a.len() == b.len(),
            forall|k: int| 0 <= k < i ==> a@[k] == b@[k],
        decreases a.len() - i,
    {
        if a[i] != b[i] {
            return false;
        }
        i += 1;
    }
    proof {
        assert(a@ =~= b@);
    }
    true
}

/// Decides structural equivalence of two tokens.
pub fn token_equal(a: &Token, b: &Token) -> (r: bool)
    ensures
        r == tok_equiv(*a, *b),
    decreases *a, 1int,
{
    match (a, b) {
        (Token::Group(d1, i1), Token::Group(d2, i2)) => *d1 == *d2 && tokens_equal(i1, i2),
        (Token::Ident(s1), Token::Ident(s2)) => chars_equal(s1, s2),
        (Token::Literal(s1, _), Token::Literal(s2, _)) => chars_equal(s1, s2),
        (Token::Punct(c1, _, _), Token::Punct(c2, _, _)) => *c1 == *c2,
        _ => false,
    }
}

/// Decides structural equivalence of two token sequences.  This is the
/// comparison the re-tokenization check of `minify` rests on.
pub fn tokens_equal(a: &Vec<Token>, b: &Vec<Token>) -> (r: bool)
    ensures
        r == toks_equiv(a@, b@),
    decreases a@, 0int,
{
    if a.len() != b.len() {
        return false;
    }
    let mut i: usize = 0;
    while i < a.len()
        invariant
            0 <= i <= a.len(),
            a.len() == b.len(),
            forall|k: int| 0 <= k < i ==> tok_equiv(#[trigger] a@[k], b@[k]),
        decreases a.len() - i,
    {
        proof {
            assert(decreases_to!(a@ => a@[i as int]));
        }
        if !token_equal(&a[i], &b[i]) {
            return false;
        }
        i += 1;
    }
    true
}

/// Structural equivalence is reflexive.
pub proof fn lemma_tok_equiv_reflexive(t: Token)
    ensures
        tok_equiv(t, t),
    decreases t,
{
    match t {
        Token::Group(d, inner) => {
            assert forall|i: int| 0 <= i < inner@.len()
                implies tok_equiv(#[trigger] inner@[i], inner@[i]) by {
                assert(decreases_to!(t => t->Group_1));
                assert(decreases_to!(t->Group_1 => t->Group_1@));
                assert(decreases_to!(t->Group_1@ => t->Group_1@[i]));
                lemma_tok_equiv_reflexive(inner@[i]);
            }
        },
        _ => {},
    }
}

/// Structural equivalence of sequences is reflexive.
pub proof fn lemma_toks_equiv_reflexive(ts: Seq<Token>)
    ensures
        toks_equiv(ts, ts),
{
    assert forall|i: int| 0 <= i < ts.len() implies tok_equiv(#[trigger] ts[i], ts[i]) by {
        lemma_tok_equiv_reflexive(ts[i]);
    }
}

} // verus!
