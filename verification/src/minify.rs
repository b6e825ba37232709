//! The minifier's public entry points, and the trusted bridge to the
//! external tokenizer.
//!
//! `minify` serializes a token sequence with the least whitespace the
//! ambiguity rules allow, re-tokenizes the candidate text, and compares the
//! result structurally with the input; if the text does not lex back to an
//! equivalent sequence, the canonical space-separated rendering is emitted
//! instead.

use vstd::prelude::*;
use vstd::string::*;
use crate::canonical::{canon_seq, canonical_tokens};
use crate::serialize::{ser_output, render_tokens};
use crate::token::{lemma_toks_equiv_reflexive, toks_equiv, tokens_equal, Delim, Pos, Spacing, Token};
use proc_macro2::{Delimiter, TokenTree};

verus! {

#[verifier::external_type_specification]
#[verifier::external_body]
pub struct ExTokenStream(proc_macro2::TokenStream);

#[verifier::external_type_specification]
#[verifier::external_body]
pub struct ExTokenTree(proc_macro2::TokenTree);

#[verifier::external_type_specification]
#[verifier::external_body]
pub struct ExFile(syn::File);

/// The trees a proc-macro2 stream holds, in order.
pub uninterp spec fn stream_trees_of(ts: proc_macro2::TokenStream) -> Seq<proc_macro2::TokenTree>;

/// The token one proc-macro2 tree converts to.
pub uninterp spec fn tree_token(t: proc_macro2::TokenTree) -> Token;

/// The token sequence a proc-macro2 stream holds, as this crate's tokens.
pub open spec fn stream_tokens(ts: proc_macro2::TokenStream) -> Seq<Token> {
    stream_trees_of(ts).map_values(|t: proc_macro2::TokenTree| tree_token(t))
}

/// What tokenizing a text yields: its token sequence, or nothing when the
/// text does not lex.
pub uninterp spec fn retokenized(s: Seq<char>) -> Option<Seq<Token>>;

/// The token sequence a syntax tree flattens to.
pub uninterp spec fn file_tokens(f: syn::File) -> Seq<Token>;

/// Relies on `proc_macro2::TokenStream: IntoIterator`: hands out the
/// stream's trees in order.
#[verifier::external_body]
fn stream_trees(ts: proc_macro2::TokenStream) -> (r: Vec<proc_macro2::TokenTree>)
    ensures
        r@ == stream_trees_of(ts),
{
    ts.into_iter().collect()
}

/// Relies on `proc_macro2::Group`'s `delimiter` and `stream` accessors:
/// rebuilds a group tree as this crate's `Token`; every other tree is
/// rebuilt by `from_leaf`.
#[verifier::external_body]
fn from_tree(t: &proc_macro2::TokenTree) -> (r: Token)
    ensures
        r == tree_token(*t),
{
    match t {
        TokenTree::Group(g) => Token::Group(match g.delimiter() {
            Delimiter::Parenthesis => Delim::Paren,
            Delimiter::Brace => Delim::Brace,
            Delimiter::Bracket => Delim::Bracket,
            Delimiter::None => Delim::Invisible,
        }, from_stream(g.stream())),
        other => from_leaf(other),
    }
}

/// Relies on proc-macro2's leaf-tree accessors (`to_string`, `as_char`,
/// `spacing`, `span`): rebuilds an identifier, literal or punctuation tree
/// as this crate's `Token`, keeping text, spacing flag and position.
#[verifier::external_body]
fn from_leaf(t: &proc_macro2::TokenTree) -> (r: Token)
    ensures
        r == tree_token(*t),
{
    let ps = |c: proc_macro2::LineColumn| Pos { line: c.line, column: c.column };
    match t {
        TokenTree::Ident(i) => Token::Ident(i.to_string().chars().collect()),
        TokenTree::Literal(l) => Token::Literal(l.to_string().chars().collect(), ps(l.span().end())),
        TokenTree::Punct(p) => Token::Punct(p.as_char(), ps(p.span().start()),
            if p.spacing() == proc_macro2::Spacing::Joint { Spacing::Joint } else { Spacing::Alone }),
        group => from_tree(group),
    }
}

/// Converts a proc-macro2 stream into this crate's token sequence, tree by
/// tree.
fn from_stream(ts: proc_macro2::TokenStream) -> (r: Vec<Token>)
    ensures
        r@ == stream_tokens(ts),
{
    let trees = stream_trees(ts);
    let mut out: Vec<Token> = Vec::new();
    let mut i: usize = 0;
    while i < trees.len()
        invariant
            0 <= i <= trees.len(),
            trees@ == stream_trees_of(ts),
            out@ == stream_trees_of(ts).subrange(0, i as int).map_values(
                |t: proc_macro2::TokenTree| tree_token(t)),
        decreases trees.len() - i,
    {
        out.push(from_tree(&trees[i]));
        proof {
            assert(out@ =~= stream_trees_of(ts).subrange(0, i as int + 1).map_values(
                |t: proc_macro2::TokenTree| tree_token(t)));
        }
        i += 1;
    }
    proof {
        assert(stream_trees_of(ts).subrange(0, stream_trees_of(ts).len() as int)
            =~= stream_trees_of(ts));
    }
    out
}

/// Relies on `str::parse::<proc_macro2::TokenStream>`: tokenizes the text
/// anew, yielding its token sequence, or nothing when the text does not lex.
#[verifier::external_body]
fn retokenize(s: &str) -> (r: Option<Vec<Token>>)
    ensures
        r matches Some(v) ==> retokenized(s@) == Some(v@),
        r is None ==> retokenized(s@) is None,
{
    match s.parse::<proc_macro2::TokenStream>() {
        Ok(ts) => Some(from_stream(ts)),
        Err(_) => None,
    }
}

/// Relies on `quote::ToTokens for syn::File`: flattens the syntax tree into
/// its token stream, rebuilt as this crate's tokens.
#[verifier::external_body]
fn flatten_file(f: &syn::File) -> (r: Vec<Token>)
    ensures
        r@ == file_tokens(*f),
{
    from_stream(quote::ToTokens::to_token_stream(f))
}

/// Relies on `String: FromIterator<char>`: collects the characters in order.
#[verifier::external_body]
fn chars_to_string(v: &Vec<char>) -> (r: String)
    ensures
        r@ == v@,
{
    v.iter().copied().collect()
}

/// What `minify` returns on a token sequence: the minimal candidate when it
/// re-tokenizes to an equivalent sequence, the canonical rendering
/// otherwise.
pub open spec fn minify_spec(ts: Seq<Token>) -> Seq<char> {
    let cand = ser_output(ts);
    match retokenized(cand) {
        Some(v) => if toks_equiv(v, ts) {
            cand
        } else {
            canon_seq(ts)
        },
        None => canon_seq(ts),
    }
}

/// Minifies a token sequence: emits the least-whitespace candidate, checks
/// it by re-tokenizing, and falls back to the canonical space-separated
/// rendering when the check fails.
pub fn minify(tokens: &Vec<Token>) -> (r: String)
    ensures
        r@ == minify_spec(tokens@),
{
    let cand = render_tokens(tokens);
    let cand_s = chars_to_string(&cand);
    match retokenize(cand_s.as_str()) {
        Some(v) => if tokens_equal(&v, tokens) {
            cand_s
        } else {
            let canon = canonical_tokens(tokens);
            chars_to_string(&canon)
        },
        None => {
            let canon = canonical_tokens(tokens);
            chars_to_string(&canon)
        },
    }
}

/// Minifies a proc-macro2 token stream.
pub fn minify_tokens(tokens: proc_macro2::TokenStream) -> (r: String)
    ensures
        r@ == minify_spec(stream_tokens(tokens)),
{
    let model = from_stream(tokens);
    minify(&model)
}

/// Minifies a parsed source file: flattens it to its token stream and
/// minifies that.
pub fn minify_file(file: &syn::File) -> (r: String)
    ensures
        r@ == minify_spec(file_tokens(*file)),
{
    let model = flatten_file(file);
    minify(&model)
}

/// Safety and round-trip of `minify`: the returned text re-tokenizes, and
/// to a sequence structurally equivalent to the input.  The hypothesis is
/// that the canonical fallback rendering itself re-tokenizes faithfully --
/// a fact about the external tokenizer that can only be assumed of it; on
/// the candidate path the property is checked, not assumed.
pub proof fn lemma_minify_round_trip(ts: Seq<Token>)
    requires
        retokenized(canon_seq(ts)) matches Some(v) && toks_equiv(v, ts),
    ensures
        retokenized(minify_spec(ts)) matches Some(v2) && toks_equiv(v2, ts),
{
    let cand = ser_output(ts);
    match retokenized(cand) {
        Some(v) => {
            if toks_equiv(v, ts) {
                assert(minify_spec(ts) == cand);
            } else {
                assert(minify_spec(ts) == canon_seq(ts));
            }
        },
        None => {
            assert(minify_spec(ts) == canon_seq(ts));
        },
    }
}

/// Idempotence of `minify`: wherever its output re-tokenizes to a sequence
/// that serializes back to that same text -- the external tokenizer's
/// stability on minified text, which can only be assumed of it -- minifying
/// that sequence returns the output unchanged.
pub proof fn lemma_minify_idempotent(ts: Seq<Token>, ts2: Seq<Token>)
    requires
        retokenized(minify_spec(ts)) == Some(ts2),
        ser_output(ts2) == minify_spec(ts),
    ensures
        minify_spec(ts2) == minify_spec(ts),
{
    lemma_toks_equiv_reflexive(ts2);
}

} // verus!
