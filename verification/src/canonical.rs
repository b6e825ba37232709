//! The safe fallback rendering: every token separated by exactly one space,
//! recursively through groups.  It is never ambiguous, so it is what
//! `minify` falls back to when the optimistic candidate fails its re-check.

use vstd::prelude::*;
use crate::serialize::{close_char, close_of, open_char, open_of, push_chars};
use crate::token::Token;

verus! {

/// The canonical rendering of one token.
pub open spec fn canon_tok(t: Token) -> Seq<char>
    decreases t, 1int,
{
    match t {
        Token::Group(d, inner) => {
            proof {
                assert(decreases_to!(t => t->Group_1));
                assert(decreases_to!(t->Group_1 => t->Group_1@));
            }
            seq![open_char(d)] + canon_seq(inner@) + seq![close_char(d)]
        },
        Token::Ident(s) => s@,
        Token::Literal(s, _) => s@,
        Token::Punct(c, _, _) => seq![c],
    }
}

/// The canonical rendering of a token sequence: the tokens' renderings,
/// joined by single spaces.
pub open spec fn canon_seq(ts: Seq<Token>) -> Seq<char>
    decreases ts, 0int,
{
    if ts.len() == 0 {
        Seq::<char>::empty()
    } else if ts.len() == 1 {
        canon_tok(ts[0])
    } else {
        canon_tok(ts[0]) + seq![' '] + canon_seq(ts.subrange(1, ts.len() as int))
    }
}

/// Extending a nonempty sequence by one token extends its canonical
/// rendering by one space and that token's rendering.
proof fn lemma_canon_snoc(a: Seq<Token>, t: Token)
    requires
        a.len() >= 1,
    ensures
        canon_seq(a.push(t)) == canon_seq(a) + seq![' '] + canon_tok(t),
    decreases a,
{
    let s = a.push(t);
    assert(s[0] == a[0]);
    if a.len() == 1 {
        assert(s.subrange(1, 2) =~= seq![t]);
        assert(seq![t][0] == t);
        assert(canon_seq(seq![t]) == canon_tok(t));
        assert(canon_seq(s) == canon_tok(a[0]) + seq![' '] + canon_tok(t));
    } else {
        let arest = a.subrange(1, a.len() as int);
        assert(s.subrange(1, s.len() as int) =~= arest.push(t));
        lemma_canon_snoc(arest, t);
        assert(canon_tok(a[0]) + seq![' '] + (canon_seq(arest) + seq![' '] + canon_tok(t))
            =~= (canon_tok(a[0]) + seq![' '] + canon_seq(arest)) + seq![' '] + canon_tok(t));
    }
}

/// Writes the canonical rendering of `ts` onto `acc`.
fn canon_run(ts: &Vec<Token>, acc: &mut Vec<char>)
    ensures
        final(acc)@ == old(acc)@ + canon_seq(ts@),
    decreases ts@,
{
    let mut i: usize = 0;
    proof {
        assert(ts@.subrange(0, 0) =~= Seq::<Token>::empty());
    }
    while i < ts.len()
        invariant
            0 <= i <= ts.len(),
            acc@ == old(acc)@ + canon_seq(ts@.subrange(0, i as int)),
        decreases ts.len() - i,
    {
        let ghost acc_in = acc@;
        if i > 0 {
            acc.push(' ');
        }
        match &ts[i] {
            Token::Group(d, inner) => {
                acc.push(open_of(d));
                proof {
                    assert(decreases_to!(ts@ => ts@[i as int]));
                    assert(decreases_to!(ts@[i as int] => ts@[i as int]->Group_1));
                    assert(decreases_to!(ts@[i as int]->Group_1 => ts@[i as int]->Group_1@));
                    assert(ts@[i as int]->Group_1@ == inner@);
                }
                canon_run(inner, acc);
                acc.push(close_of(d));
                proof {
                    assert(canon_tok(ts@[i as int]) =~= seq![open_char(ts@[i as int]->Group_0)]
                        + canon_seq(inner@) + seq![close_char(ts@[i as int]->Group_0)]);
                }
            },
            Token::Ident(s) => {
                push_chars(acc, s);
            },
            Token::Literal(s, _) => {
                push_chars(acc, s);
            },
            Token::Punct(c, _, _) => {
                acc.push(*c);
            },
        }
        proof {
            if i == 0 {
                assert(ts@.subrange(0, 1)[0] == ts@[0]);
                assert(canon_seq(ts@.subrange(0, 1)) == canon_tok(ts@[0]));
                assert(acc@ =~= old(acc)@ + canon_seq(ts@.subrange(0, 1)));
            } else {
                assert(ts@.subrange(0, i as int + 1) =~= ts@.subrange(0, i as int).push(ts@[i as int]));
                lemma_canon_snoc(ts@.subrange(0, i as int), ts@[i as int]);
                assert(acc@ =~= acc_in + seq![' '] + canon_tok(ts@[i as int]));
                assert(acc@ =~= old(acc)@ + canon_seq(ts@.subrange(0, i as int + 1)));
            }
        }
        i += 1;
    }
    proof {
        assert(ts@.subrange(0, ts@.len() as int) =~= ts@);
    }
}

/// The canonical space-separated rendering of a token sequence.
pub fn canonical_tokens(ts: &Vec<Token>) -> (r: Vec<char>)
    ensures
        r@ == canon_seq(ts@),
{
    let mut acc: Vec<char> = Vec::new();
    canon_run(ts, &mut acc);
    acc
}

} // verus!
