//! The minifying serializer: one left-to-right pass over a token sequence,
//! carrying a small state value, that emits the token texts with the least
//! whitespace that still keeps distinct tokens from merging.

use vstd::prelude::*;
use crate::token::{Delim, Pos, Spacing, Token};

verus! {

/// The serializer's state between two tokens, at the specification level.
///
/// `Word` means the last token was word-like (an identifier or a literal),
/// so another word-like token needs one separating space.  `Run` holds
/// punctuation characters that have been seen but not yet written out,
/// together with the position of the run's first character and the spacing
/// flag of its last one.
pub enum MState {
    Start,
    Word,
    Run(Seq<char>, Pos, Spacing),
}

/// The serializer's state between two tokens, as executable data.
pub enum SerState {
    Start,
    Word,
    Run(Vec<char>, Pos, Spacing),
}

/// The specification-level value of an executable serializer state.
pub open spec fn st_view(st: SerState) -> MState {
    match st {
        SerState::Start => MState::Start,
        SerState::Word => MState::Word,
        SerState::Run(text, p, sp) => MState::Run(text@, p, sp),
    }
}

/// What a word-like token makes the serializer emit before its own text.
pub open spec fn lead(st: MState) -> Seq<char> {
    match st {
        MState::Start => Seq::<char>::empty(),
        MState::Word => seq![' '],
        MState::Run(text, _, _) => text,
    }
}

/// What reaching the end of a sequence makes the serializer emit.
pub open spec fn flushed(st: MState) -> Seq<char> {
    match st {
        MState::Run(text, _, _) => text,
        _ => Seq::<char>::empty(),
    }
}

/// Whether position `b` is the character cell right after position `a`.
pub open spec fn adjacent(a: Pos, b: Pos) -> bool {
    a.line == b.line && a.column + 1 == b.column
}

/// The pairs of a one-character punctuation run and a next character that
/// would merge into a different operator if written without a separator.
pub open spec fn amb1(a: char, c: char) -> bool {
    ||| a == '!' && c == '='
    ||| a == '%' && c == '='
    ||| a == '&' && (c == '&' || c == '=')
    ||| a == '*' && c == '='
    ||| a == '+' && c == '='
    ||| a == '-' && (c == '=' || c == '>')
    ||| a == '.' && c == '.'
    ||| a == '/' && c == '='
    ||| a == ':' && c == ':'
    ||| a == '<' && (c == '-' || c == '<' || c == '=')
    ||| a == '=' && (c == '=' || c == '>')
    ||| a == '>' && (c == '=' || c == '>')
    ||| a == '^' && c == '='
    ||| a == '|' && (c == '=' || c == '|')
}

/// The pairs of a two-character punctuation run and a next character that
/// would merge into a different operator if written without a separator.
pub open spec fn amb2(a: char, b: char, c: char) -> bool {
    ||| a == '.' && b == '.' && (c == '.' || c == '=')
    ||| a == '<' && b == '<' && c == '='
    ||| a == '>' && b == '>' && c == '='
}

/// The ambiguity table: whether flushing `run` directly against a following
/// character `c` could form a different legal operator.
pub open spec fn ambiguous(run: Seq<char>, c: char) -> bool {
    if run.len() == 1 {
        amb1(run[0], c)
    } else if run.len() == 2 {
        amb2(run[0], run[1], c)
    } else {
        false
    }
}

/// The opening character of a delimiter.
pub open spec fn open_char(d: Delim) -> char {
    match d {
        Delim::Paren => '(',
        Delim::Brace => '{',
        Delim::Bracket => '[',
        Delim::Invisible => ' ',
    }
}

/// The closing character of a delimiter.
pub open spec fn close_char(d: Delim) -> char {
    match d {
        Delim::Paren => ')',
        Delim::Brace => '}',
        Delim::Bracket => ']',
        Delim::Invisible => ' ',
    }
}

/// Whether a token is word-like: an identifier or a literal.
pub open spec fn is_word(t: Token) -> bool {
    t is Ident || t is Literal
}

/// The text of a word-like token.
pub open spec fn word_text(t: Token) -> Seq<char> {
    match t {
        Token::Ident(s) => s@,
        Token::Literal(s, _) => s@,
        _ => Seq::<char>::empty(),
    }
}

/// Whether a literal's text ends in a decimal point, in which case the
/// serializer splits the trailing dot off into a pending punctuation run.
pub open spec fn splits_dot(t: Token) -> bool {
    t matches Token::Literal(s, _) && s@.len() > 0 && s@.last() == '.'
}

/// The part of a word-like token's text that is written where the token
/// stands: all of it, except that a literal's trailing dot is held back as
/// a pending punctuation run.
pub open spec fn word_emit(t: Token) -> Seq<char> {
    if splits_dot(t) {
        word_text(t).drop_last()
    } else {
        word_text(t)
    }
}

/// The emission and state change for one non-group token.
pub open spec fn ser_step(st: MState, t: Token) -> (Seq<char>, MState) {
    match t {
        Token::Group(_, _) => (Seq::<char>::empty(), st),
        Token::Ident(s) => (lead(st) + s@, MState::Word),
        Token::Literal(s, end) => if s@.len() > 0 && s@.last() == '.' {
            (lead(st) + s@.drop_last(), MState::Run(seq!['.'], end, Spacing::Alone))
        } else {
            (lead(st) + s@, MState::Word)
        },
        Token::Punct(c, p, sp) => match st {
            MState::Run(text, rpos, last) => if last is Alone {
                let sepa: Seq<char> = if !adjacent(rpos, p) && ambiguous(text, c) {
                    seq![' ']
                } else {
                    Seq::<char>::empty()
                };
                (text + sepa, MState::Run(seq![c], p, sp))
            } else {
                (Seq::<char>::empty(), MState::Run(text + seq![c], rpos, sp))
            },
            _ => (Seq::<char>::empty(), MState::Run(seq![c], p, sp)),
        },
    }
}

/// The serialization of a token sequence from a given state: the emitted
/// text and the state after the last token, before any final flush.
pub open spec fn ser_seq(ts: Seq<Token>, st: MState) -> (Seq<char>, MState)
    decreases ts, 0int,
{
    if ts.len() == 0 {
        (Seq::<char>::empty(), st)
    } else {
        let rest = ts.subrange(1, ts.len() as int);
        match ts[0] {
            Token::Group(d, inner) => {
                proof {
                    assert(decreases_to!(ts => ts[0]));
                    assert(decreases_to!(ts[0] => ts[0]->Group_1));
                    assert(decreases_to!(ts[0]->Group_1 => ts[0]->Group_1@));
                }
                let o1 = flushed(st) + seq![open_char(d)] + ser_output(inner@)
                    + seq![close_char(d)];
                let r2 = ser_seq(rest, MState::Start);
                (o1 + r2.0, r2.1)
            },
            _ => {
                let s1 = ser_step(st, ts[0]);
                let r2 = ser_seq(rest, s1.1);
                (s1.0 + r2.0, r2.1)
            },
        }
    }
}

/// The full serialization of a token sequence: start in the empty state and
/// flush whatever run is pending at the end.
pub open spec fn ser_output(ts: Seq<Token>) -> Seq<char>
    decreases ts, 1int,
{
    let r = ser_seq(ts, MState::Start);
    r.0 + flushed(r.1)
}

/// Serialization distributes over concatenation of token sequences: the
/// second part starts in the state the first part ends in.
pub proof fn lemma_ser_seq_app(a: Seq<Token>, b: Seq<Token>, st: MState)
    ensures
        ser_seq(a + b, st).0 == ser_seq(a, st).0 + ser_seq(b, ser_seq(a, st).1).0,
        ser_seq(a + b, st).1 == ser_seq(b, ser_seq(a, st).1).1,
    decreases a,
{
    if a.len() == 0 {
        assert(a + b =~= b);
        assert(ser_seq(a, st).0 + ser_seq(b, st).0 =~= ser_seq(b, st).0);
    } else {
        let rest = a.subrange(1, a.len() as int);
        assert((a + b)[0] == a[0]);
        assert((a + b).subrange(1, (a + b).len() as int) =~= rest + b);
        match a[0] {
            Token::Group(d, inner) => {
                lemma_ser_seq_app(rest, b, MState::Start);
                let o1 = flushed(st) + seq![open_char(d)] + ser_output(inner@)
                    + seq![close_char(d)];
                assert(o1 + (ser_seq(rest, MState::Start).0
                    + ser_seq(b, ser_seq(rest, MState::Start).1).0)
                    =~= (o1 + ser_seq(rest, MState::Start).0)
                        + ser_seq(b, ser_seq(rest, MState::Start).1).0);
            },
            _ => {
                let s1 = ser_step(st, a[0]);
                lemma_ser_seq_app(rest, b, s1.1);
                assert(s1.0 + (ser_seq(rest, s1.1).0 + ser_seq(b, ser_seq(rest, s1.1).1).0)
                    =~= (s1.0 + ser_seq(rest, s1.1).0) + ser_seq(b, ser_seq(rest, s1.1).1).0);
            },
        }
    }
}

/// Unfolds the serialization of a one-token sequence.
pub proof fn lemma_ser_seq_one(t: Token, st: MState)
    ensures
        !(t is Group) ==> ser_seq(seq![t], st).0 == ser_step(st, t).0
            && ser_seq(seq![t], st).1 == ser_step(st, t).1,
        t matches Token::Group(d, inner) ==> ser_seq(seq![t], st).0 == flushed(st)
            + seq![open_char(d)] + ser_output(inner@) + seq![close_char(d)]
            && ser_seq(seq![t], st).1 == MState::Start,
{
    reveal_with_fuel(ser_seq, 2);
    let s = seq![t];
    assert(s[0] == t);
    assert(s.subrange(1, 1) =~= Seq::<Token>::empty());
    match t {
        Token::Group(d, inner) => {
            let o1 = flushed(st) + seq![open_char(d)] + ser_output(inner@)
                + seq![close_char(d)];
            assert(o1 + Seq::<char>::empty() =~= o1);
        },
        _ => {
            assert(ser_step(st, t).0 + Seq::<char>::empty() =~= ser_step(st, t).0);
        },
    }
}

/// Word-boundary exactness: a word-like token whose text is not split at a
/// trailing dot always leaves the serializer in the `Word` state, and from
/// the `Word` state a word-like token is emitted as exactly one space
/// followed by its text -- never zero spaces, never more than one.
pub proof fn lemma_word_boundary(st: MState, a: Token, b: Token)
    requires
        is_word(a),
        !splits_dot(a),
        is_word(b),
    ensures
        ser_step(st, a).1 == MState::Word,
        ser_step(MState::Word, b).0 == seq![' '] + word_emit(b),
{
}

/// Word-boundary exactness over a whole sequence: wherever two word-like
/// tokens stand next to each other (the first not split at a trailing dot),
/// the serialized text of the pair is the first text, one space, then the
/// second text, whatever came before them.
pub proof fn lemma_word_boundary_seq(ts: Seq<Token>, st: MState, i: int)
    requires
        0 <= i,
        i + 1 < ts.len(),
        is_word(ts[i]),
        !splits_dot(ts[i]),
        is_word(ts[i + 1]),
        !splits_dot(ts[i + 1]),
    ensures
        ser_seq(ts, st).0 == ser_seq(ts.subrange(0, i), st).0
            + lead(ser_seq(ts.subrange(0, i), st).1) + word_text(ts[i])
            + (seq![' '] + word_text(ts[i + 1]))
            + ser_seq(ts.subrange(i + 2, ts.len() as int), MState::Word).0,
{
    let pre = ts.subrange(0, i);
    let mid = ts.subrange(i, i + 2);
    let post = ts.subrange(i + 2, ts.len() as int);
    assert(ts =~= pre + (mid + post));
    lemma_ser_seq_app(pre, mid + post, st);
    let st1 = ser_seq(pre, st).1;
    lemma_ser_seq_app(mid, post, st1);
    assert(mid =~= seq![ts[i]] + seq![ts[i + 1]]);
    lemma_ser_seq_app(seq![ts[i]], seq![ts[i + 1]], st1);
    lemma_ser_seq_one(ts[i], st1);
    lemma_word_boundary(st1, ts[i], ts[i + 1]);
    lemma_ser_seq_one(ts[i + 1], MState::Word);
    assert(ser_seq(ts, st).0 == ser_seq(pre, st).0
        + (ser_step(st1, ts[i]).0 + (seq![' '] + word_text(ts[i + 1])) + ser_seq(post, MState::Word).0));
    assert(ser_step(st1, ts[i]).0 == lead(st1) + word_text(ts[i]));
    assert(ser_seq(pre, st).0
        + (ser_step(st1, ts[i]).0 + (seq![' '] + word_text(ts[i + 1])) + ser_seq(post, MState::Word).0)
        =~= ser_seq(pre, st).0 + lead(st1) + word_text(ts[i]) + (seq![' '] + word_text(ts[i + 1]))
            + ser_seq(post, MState::Word).0);
}

/// Appends every character of `v` to `acc`.
pub fn push_chars(acc: &mut Vec<char>, v: &Vec<char>)
    ensures
        final(acc)@ == old(acc)@ + v@,
{
    let mut i: usize = 0;
    while i < v.len()
        invariant
            0 <= i <= v.len(),
            acc@ == old(acc)@ + v@.subrange(0, i as int),
        decreases v.len() - i,
    {
        acc.push(v[i]);
        proof {
            assert(old(acc)@ + v@.subrange(0, i as int) + seq![v@[i as int]]
                =~= old(acc)@ + v@.subrange(0, i as int + 1));
        }
        i += 1;
    }
    proof {
        assert(v@.subrange(0, v.len() as int) =~= v@);
    }
}

/// Appends the first `n` characters of `v` to `acc`.
fn push_prefix(acc: &mut Vec<char>, v: &Vec<char>, n: usize)
    requires
        n <= v.len(),
    ensures
        final(acc)@ == old(acc)@ + v@.subrange(0, n as int),
{
    let mut i: usize = 0;
    while i < n
        invariant
            0 <= i <= n <= v.len(),
            acc@ == old(acc)@ + v@.subrange(0, i as int),
        decreases n - i,
    {
        acc.push(v[i]);
        proof {
            assert(old(acc)@ + v@.subrange(0, i as int) + seq![v@[i as int]]
                =~= old(acc)@ + v@.subrange(0, i as int + 1));
        }
        i += 1;
    }
}

/// Writes out a pending punctuation run, if any.
fn flush_state(st: SerState, acc: &mut Vec<char>)
    ensures
        final(acc)@ == old(acc)@ + flushed(st_view(st)),
{
    match st {
        SerState::Run(text, _, _) => push_chars(acc, &text),
        _ => {
            proof {
                assert(acc@ =~= acc@ + Seq::<char>::empty());
            }
        },
    }
}

/// Writes what a word-like token emits before its own text.
fn emit_lead(st: SerState, acc: &mut Vec<char>)
    ensures
        final(acc)@ == old(acc)@ + lead(st_view(st)),
{
    match st {
        SerState::Word => acc.push(' '),
        SerState::Run(text, _, _) => push_chars(acc, &text),
        SerState::Start => {
            proof {
                assert(acc@ =~= acc@ + Seq::<char>::empty());
            }
        },
    }
}

/// Decides adjacency of two source positions.
fn is_adjacent(a: &Pos, b: &Pos) -> (r: bool)
    ensures
        r == adjacent(*a, *b),
{
    a.line == b.line && b.column >= 1 && a.column == b.column - 1
}

/// Looks a punctuation run and a following character up in the ambiguity
/// table.
fn run_ambiguous(run: &Vec<char>, c: char) -> (r: bool)
    ensures
        r == ambiguous(run@, c),
{
    if run.len() == 1 {
        let a = run[0];
        (a == '!' && c == '=') || (a == '%' && c == '=')
            || (a == '&' && (c == '&' || c == '=')) || (a == '*' && c == '=')
            || (a == '+' && c == '=') || (a == '-' && (c == '=' || c == '>'))
            || (a == '.' && c == '.') || (a == '/' && c == '=')
            || (a == ':' && c == ':') || (a == '<' && (c == '-' || c == '<' || c == '='))
            || (a == '=' && (c == '=' || c == '>')) || (a == '>' && (c == '=' || c == '>'))
            || (a == '^' && c == '=') || (a == '|' && (c == '=' || c == '|'))
    } else if run.len() == 2 {
        let a = run[0];
        let b = run[1];
        (a == '.' && b == '.' && (c == '.' || c == '=')) || (a == '<' && b == '<' && c == '=')
            || (a == '>' && b == '>' && c == '=')
    } else {
        false
    }
}

/// The opening character of a delimiter.
pub fn open_of(d: &Delim) -> (r: char)
    ensures
        r == open_char(*d),
{
    match d {
        Delim::Paren => '(',
        Delim::Brace => '{',
        Delim::Bracket => '[',
        Delim::Invisible => ' ',
    }
}

/// The closing character of a delimiter.
pub fn close_of(d: &Delim) -> (r: char)
    ensures
        r == close_char(*d),
{
    match d {
        Delim::Paren => ')',
        Delim::Brace => '}',
        Delim::Bracket => ']',
        Delim::Invisible => ' ',
    }
}

/// A one-character vector.
fn one_char_vec(c: char) -> (r: Vec<char>)
    ensures
        r@ == seq![c],
{
    let mut v: Vec<char> = Vec::new();
    v.push(c);
    proof {
        assert(v@ =~= seq![c]);
    }
    v
}

/// Serializes a token sequence starting from `st`, appending to `acc`, and
/// returns the state after the last token, not yet flushed.
fn ser_run(ts: &Vec<Token>, st: SerState, acc: &mut Vec<char>) -> (out: SerState)
    ensures
        final(acc)@ == old(acc)@ + ser_seq(ts@, st_view(st)).0,
        st_view(out) == ser_seq(ts@, st_view(st)).1,
    decreases ts@,
{
    let ghost st0 = st_view(st);
    let mut cur = st;
    let mut i: usize = 0;
    proof {
        assert(ts@.subrange(0, 0) =~= Seq::<Token>::empty());
    }
    while i < ts.len()
        invariant
            0 <= i <= ts.len(),
            acc@ == old(acc)@ + ser_seq(ts@.subrange(0, i as int), st0).0,
            st_view(cur) == ser_seq(ts@.subrange(0, i as int), st0).1,
        decreases ts.len() - i,
    {
        proof {
            assert(ts@.subrange(0, i as int + 1)
                =~= ts@.subrange(0, i as int) + seq![ts@[i as int]]);
            lemma_ser_seq_app(ts@.subrange(0, i as int), seq![ts@[i as int]], st0);
            lemma_ser_seq_one(ts@[i as int], st_view(cur));
        }
        let ghost acc_in = acc@;
        let prev = cur;
        cur = SerState::Start;
        match &ts[i] {
            Token::Group(d, inner) => {
                flush_state(prev, acc);
                acc.push(open_of(d));
                proof {
                    assert(decreases_to!(ts@ => ts@[i as int]));
                    assert(decreases_to!(ts@[i as int] => ts@[i as int]->Group_1));
                    assert(decreases_to!(ts@[i as int]->Group_1 => ts@[i as int]->Group_1@));
                    assert(ts@[i as int]->Group_1@ == inner@);
                }
                let tail = ser_run(inner, SerState::Start, acc);
                flush_state(tail, acc);
                acc.push(close_of(d));
                proof {
                    assert(acc@ =~= acc_in + ser_seq(seq![ts@[i as int]], st_view(prev)).0);
                }
            },
            Token::Ident(s) => {
                emit_lead(prev, acc);
                push_chars(acc, s);
                cur = SerState::Word;
                proof {
                    assert(acc@ =~= acc_in + ser_seq(seq![ts@[i as int]], st_view(prev)).0);
                }
            },
            Token::Literal(s, end) => {
                emit_lead(prev, acc);
                if s.len() > 0 && s[s.len() - 1] == '.' {
                    push_prefix(acc, s, s.len() - 1);
                    cur = SerState::Run(one_char_vec('.'), *end, Spacing::Alone);
                    proof {
                        assert(s@.drop_last() =~= s@.subrange(0, s@.len() - 1));
                        assert(st_view(cur) == MState::Run(seq!['.'], *end, Spacing::Alone));
                    }
                } else {
                    push_chars(acc, s);
                    cur = SerState::Word;
                }
                proof {
                    assert(acc@ =~= acc_in + ser_seq(seq![ts@[i as int]], st_view(prev)).0);
                }
            },
            Token::Punct(c, p, sp) => {
                match prev {
                    SerState::Run(text, rpos, last) => {
                        if matches!(last, Spacing::Alone) {
                            push_chars(acc, &text);
                            if !is_adjacent(&rpos, p) && run_ambiguous(&text, *c) {
                                acc.push(' ');
                                proof {
                                    assert(text@ + seq![' ']
                                        =~= ser_seq(seq![ts@[i as int]],
                                            MState::Run(text@, rpos, last)).0);
                                }
                            } else {
                                proof {
                                    assert(text@ + Seq::<char>::empty() =~= text@);
                                }
                            }
                            cur = SerState::Run(one_char_vec(*c), *p, *sp);
                        } else {
                            let ghost tv = text@;
                            let mut t2 = text;
                            t2.push(*c);
                            proof {
                                assert(t2@ =~= tv + seq![*c]);
                            }
                            cur = SerState::Run(t2, rpos, *sp);
                        }
                    },
                    SerState::Word => {
                        cur = SerState::Run(one_char_vec(*c), *p, *sp);
                    },
                    SerState::Start => {
                        cur = SerState::Run(one_char_vec(*c), *p, *sp);
                    },
                }
                proof {
                    assert(acc@ =~= acc_in + ser_seq(seq![ts@[i as int]], st_view(prev)).0);
                }
            },
        }
        proof {
            assert(acc@ =~= old(acc)@ + ser_seq(ts@.subrange(0, i as int + 1), st0).0);
        }
        i += 1;
    }
    proof {
        assert(ts@.subrange(0, ts@.len() as int) =~= ts@);
    }
    cur
}

/// Serializes a whole token sequence with minimal whitespace: the
/// optimistic candidate rendering.
pub fn render_tokens(ts: &Vec<Token>) -> (r: Vec<char>)
    ensures
        r@ == ser_output(ts@),
{
    let mut acc: Vec<char> = Vec::new();
    let tail = ser_run(ts, SerState::Start, &mut acc);
    flush_state(tail, &mut acc);
    acc
}

} // verus!
