//! What the lexer produces, stated over the characters of the input.
//!
//! Lexing happens in two steps. The input is first cut into maximal runs,
//! each opened by one character and grown while the classifier lets it go on
//! (`raw_tokens`). Runs of markers that are too short to count are then plain
//! text, and adjacent plain text runs are joined (`coalesce`).
use std::ops::Range;
use vstd::prelude::*;
use crate::token::{continues, first_kind, is_special, Token, TokenContent};

verus! {

/// Whether a run of category `kind`, `n` characters long, takes `c` as its
/// next character. A line terminator never grows past its own width.
pub open spec fn extends(kind: TokenContent, n: nat, c: char) -> bool {
    &&& continues(kind, c) is Some
    &&& match kind {
        TokenContent::NewLine(style) => n < style.width(),
        _ => true,
    }
}

/// Category and end offset of the run that holds `n` characters of category
/// `kind` and looks next at offset `j`.
pub open spec fn scan(s: Seq<char>, j: int, kind: TokenContent, n: nat) -> (TokenContent, int)
    decreases s.len() - j,
{
    if 0 <= j < s.len() && extends(kind, n, s[j]) {
        scan(s, j + 1, continues(kind, s[j])->0, n + 1)
    } else {
        (kind, j)
    }
}

/// Whether a finished run of category `kind` and `n` characters is emitted
/// under that category (else it is plain text).
pub open spec fn qualifies(kind: TokenContent, n: nat) -> bool {
    match kind {
        TokenContent::Breaks => n >= 3,
        TokenContent::CodeFence(level) => level >= 3,
        TokenContent::NewLine(style) => n == style.width(),
        _ => true,
    }
}

/// End offset of the run that starts at offset `i`.
pub open spec fn run_end(s: Seq<char>, i: int) -> int
    recommends
        0 <= i < s.len(),
{
    scan(s, i + 1, first_kind(s[i]), 1).1
}

/// The token for the run that starts at offset `i`.
pub open spec fn run_token(s: Seq<char>, i: int) -> Token
    recommends
        0 <= i < s.len(),
{
    let (kind, end) = scan(s, i + 1, first_kind(s[i]), 1);
    Token {
        content: if qualifies(kind, (end - i) as nat) {
            kind
        } else {
            TokenContent::Text
        },
        range: Range { start: i as usize, end: end as usize },
    }
}

/// The tokens of the runs from offset `i` to the end of the input.
pub open spec fn raw_tokens(s: Seq<char>, i: int) -> Seq<Token>
    decreases s.len() - i,
    via raw_tokens_decreases
{
    if 0 <= i < s.len() {
        seq![run_token(s, i)] + raw_tokens(s, run_end(s, i))
    } else {
        Seq::empty()
    }
}

#[via_fn]
proof fn raw_tokens_decreases(s: Seq<char>, i: int) {
    if 0 <= i < s.len() {
        lemma_scan_bounds(s, i + 1, first_kind(s[i]), 1);
    }
}

/// Two tokens that are joined: plain text on both sides, touching.
pub open spec fn mergeable(a: Token, b: Token) -> bool {
    a.content == TokenContent::Text && b.content == TokenContent::Text && a.range.end
        == b.range.start
}

/// The plain text token that spans `a` and `b`.
pub open spec fn joined(a: Token, b: Token) -> Token {
    Token { content: TokenContent::Text, range: Range { start: a.range.start, end: b.range.end } }
}

/// `cur` followed by `ts`, with each token joined to the one before it
/// whenever the two are mergeable.
pub open spec fn merge_into(cur: Token, ts: Seq<Token>) -> Seq<Token>
    decreases ts.len(),
{
    if ts.len() == 0 {
        seq![cur]
    } else if mergeable(cur, ts[0]) {
        merge_into(joined(cur, ts[0]), ts.drop_first())
    } else {
        seq![cur] + merge_into(ts[0], ts.drop_first())
    }
}

/// `ts` with every stretch of touching plain text tokens joined into one.
pub open spec fn coalesce(ts: Seq<Token>) -> Seq<Token> {
    if ts.len() == 0 {
        Seq::empty()
    } else {
        merge_into(ts[0], ts.drop_first())
    }
}

/// The tokens of the input `s`, in order.
pub open spec fn lex(s: Seq<char>) -> Seq<Token> {
    coalesce(raw_tokens(s, 0))
}

/// A run ends no earlier than the offset it looks at next, and within the
/// input.
pub proof fn lemma_scan_bounds(s: Seq<char>, j: int, kind: TokenContent, n: nat)
    requires
        0 <= j <= s.len(),
    ensures
        j <= scan(s, j, kind, n).1 <= s.len(),
    decreases s.len() - j,
{
    if 0 <= j < s.len() && extends(kind, n, s[j]) {
        lemma_scan_bounds(s, j + 1, continues(kind, s[j])->0, n + 1);
    }
}

/// The tokens `ts` lie side by side from offset `a` to offset `b`: the first
/// starts at `a`, each is non-empty and starts where the one before it ends,
/// and the last ends at `b`.
pub open spec fn tiles(ts: Seq<Token>, a: int, b: int) -> bool
    decreases ts.len(),
{
    if ts.len() == 0 {
        a == b
    } else {
        &&& ts[0].range.start == a
        &&& ts[0].range.start < ts[0].range.end
        &&& tiles(ts.drop_first(), ts[0].range.end as int, b)
    }
}

/// The pieces of `s` that the ranges of `ts` denote, one after another.
pub open spec fn spell(s: Seq<char>, ts: Seq<Token>) -> Seq<char>
    decreases ts.len(),
{
    if ts.len() == 0 {
        Seq::empty()
    } else {
        s.subrange(ts[0].range.start as int, ts[0].range.end as int) + spell(s, ts.drop_first())
    }
}

proof fn lemma_raw_tokens_tile(s: Seq<char>, i: int)
    requires
        0 <= i <= s.len(),
        s.len() <= usize::MAX,
    ensures
        tiles(raw_tokens(s, i), i, s.len() as int),
    decreases s.len() - i,
{
    if i < s.len() {
        lemma_scan_bounds(s, i + 1, first_kind(s[i]), 1);
        lemma_raw_tokens_tile(s, run_end(s, i));
        assert(raw_tokens(s, i).drop_first() =~= raw_tokens(s, run_end(s, i)));
    }
}

proof fn lemma_merge_into_tiles(cur: Token, ts: Seq<Token>, a: int, b: int)
    requires
        tiles(seq![cur] + ts, a, b),
    ensures
        tiles(merge_into(cur, ts), a, b),
    decreases ts.len(),
{
    assert((seq![cur] + ts).drop_first() =~= ts);
    if ts.len() == 0 {
        assert(seq![cur].drop_first() =~= Seq::<Token>::empty());
    } else if mergeable(cur, ts[0]) {
        let j = joined(cur, ts[0]);
        assert(tiles(ts, cur.range.end as int, b));
        assert(tiles(ts.drop_first(), ts[0].range.end as int, b));
        assert((seq![j] + ts.drop_first()).drop_first() =~= ts.drop_first());
        assert((seq![j] + ts.drop_first())[0] == j);
        lemma_merge_into_tiles(j, ts.drop_first(), a, b);
    } else {
        assert(seq![ts[0]] + ts.drop_first() =~= ts);
        lemma_merge_into_tiles(ts[0], ts.drop_first(), cur.range.end as int, b);
        let m = merge_into(ts[0], ts.drop_first());
        assert((seq![cur] + m).drop_first() =~= m);
    }
}

proof fn lemma_spell_tiles(s: Seq<char>, ts: Seq<Token>, a: int, b: int)
    requires
        tiles(ts, a, b),
        0 <= a,
        b <= s.len(),
    ensures
        a <= b,
        spell(s, ts) == s.subrange(a, b),
    decreases ts.len(),
{
    if ts.len() > 0 {
        let e = ts[0].range.end as int;
        lemma_spell_tiles(s, ts.drop_first(), e, b);
        assert(s.subrange(a, e) + s.subrange(e, b) =~= s.subrange(a, b));
    } else {
        assert(s.subrange(a, b) =~= Seq::<char>::empty());
    }
}

/// Every character of the input lies in exactly one token. The ranges of the
/// tokens, in the order they come, start at offset 0, are never empty, each
/// begins where the one before it ends, and the last ends at the end of the
/// input; so the pieces they denote, put together, give back the input.
pub proof fn lemma_coverage(s: Seq<char>)
    requires
        s.len() <= usize::MAX,
    ensures
        tiles(lex(s), 0, s.len() as int),
        spell(s, lex(s)) == s,
{
    let raw = raw_tokens(s, 0);
    lemma_raw_tokens_tile(s, 0);
    if raw.len() > 0 {
        assert(seq![raw[0]] + raw.drop_first() =~= raw);
        lemma_merge_into_tiles(raw[0], raw.drop_first(), 0, s.len() as int);
    }
    lemma_spell_tiles(s, lex(s), 0, s.len() as int);
    assert(s.subrange(0, s.len() as int) =~= s);
}

proof fn lemma_scan_plain_text(s: Seq<char>, j: int, n: nat)
    requires
        0 <= j <= s.len(),
        forall|i: int| 0 <= i < s.len() ==> !is_special(#[trigger] s[i]),
    ensures
        scan(s, j, TokenContent::Text, n) == (TokenContent::Text, s.len() as int),
    decreases s.len() - j,
{
    if j < s.len() {
        lemma_scan_plain_text(s, j + 1, n + 1);
    }
}

/// Input made of ordinary characters alone comes out as one plain text token
/// that spans all of it, however the runs were cut inside.
pub proof fn lemma_plain_text_is_one_token(s: Seq<char>)
    requires
        0 < s.len() <= usize::MAX,
        forall|i: int| 0 <= i < s.len() ==> !is_special(#[trigger] s[i]),
    ensures
        lex(s) == seq![
            Token {
                content: TokenContent::Text,
                range: Range { start: 0, end: s.len() as usize },
            },
        ],
{
    assert(!is_special(s[0]));
    lemma_scan_plain_text(s, 1, 1);
    assert(raw_tokens(s, s.len() as int) =~= Seq::<Token>::empty());
    assert(raw_tokens(s, 0).drop_first() =~= Seq::<Token>::empty());
}

} // verus!
