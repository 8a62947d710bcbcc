use std::ops::Range;
use vstd::prelude::*;
use crate::model::{
    coalesce, extends, lemma_scan_bounds, lex, merge_into, qualifies, raw_tokens, run_end,
    run_token, scan,
};
use crate::token::{continues, first_kind, Token, TokenContent};

verus! {

/// The payload of a category agrees with the length of the run that holds it.
spec fn consistent(kind: TokenContent, n: nat) -> bool {
    &&& n >= 1
    &&& match kind {
        TokenContent::Heading(level) => level == n,
        TokenContent::CodeFence(level) => level == n,
        TokenContent::NewLine(style) => n <= style.width(),
        _ => true,
    }
}

/// The run being built: its category so far and how many characters it holds.
struct Buffer {
    kind: TokenContent,
    len: usize,
}

impl Buffer {
    fn start(c: char) -> (r: Buffer)
        ensures
            r.kind == first_kind(c),
            r.len == 1,
            consistent(r.kind, 1),
    {
        Buffer { kind: TokenContent::single_char_type(&c), len: 1 }
    }

    /// Takes `c` into the run if the run goes on with it.
    fn extend(&mut self, c: char) -> (r: bool)
        requires
            consistent(old(self).kind, old(self).len as nat),
            old(self).len < usize::MAX,
        ensures
            r == extends(old(self).kind, old(self).len as nat, c),
            r ==> {
                &&& final(self).kind == continues(old(self).kind, c)->0
                &&& final(self).len == old(self).len + 1
                &&& consistent(final(self).kind, final(self).len as nat)
            },
            !r ==> *final(self) == *old(self),
    {
        let width_left = match self.kind {
            TokenContent::NewLine(style) => self.len < style.len(),
            _ => true,
        };
        if !width_left {
            return false;
        }
        match self.kind.should_continue(&c) {
            Some(kind) => {
                self.kind = kind;
                self.len = self.len + 1;
                true
            },
            None => false,
        }
    }

    /// The token for the finished run that ends at offset `end`, or `None`
    /// when the run is too short for its category.
    fn terminate(&self, end: usize) -> (r: Option<Token>)
        requires
            consistent(self.kind, self.len as nat),
            self.len <= end,
        ensures
            qualifies(self.kind, self.len as nat) ==> r == Some(
                Token { content: self.kind, range: Range { start: (end - self.len) as usize, end } },
            ),
            !qualifies(self.kind, self.len as nat) ==> r is None,
    {
        match self.kind {
            TokenContent::Heading(level) => Some(
                Token { content: self.kind, range: Range { start: end - level, end } },
            ),
            TokenContent::Breaks => if self.len >= 3 {
                Some(Token { content: self.kind, range: Range { start: end - self.len, end } })
            } else {
                None
            },
            TokenContent::CodeFence(level) => if level >= 3 {
                Some(Token { content: self.kind, range: Range { start: end - level, end } })
            } else {
                None
            },
            TokenContent::NewLine(style) => if self.len == style.len() {
                Some(Token { content: self.kind, range: Range { start: end - style.len(), end } })
            } else {
                None
            },
            TokenContent::Text => Some(
                Token { content: self.kind, range: Range { start: end - self.len, end } },
            ),
        }
    }
}

/// An incremental lexer over one input text.
pub struct Lexer {
    chars: Vec<char>,
    /// Offset of the next character to read.
    pos: usize,
    /// A finished token held back until it is known not to join the one
    /// before it.
    pending: Option<Token>,
}

impl Lexer {
    /// The read offset stays within the input.
    pub closed spec fn wf(&self) -> bool {
        self.pos <= self.chars.len()
    }

    /// The characters of the input.
    pub closed spec fn input(&self) -> Seq<char> {
        self.chars@
    }

    /// The tokens that the lexer has yet to hand out.
    pub closed spec fn remaining(&self) -> Seq<Token> {
        match self.pending {
            Some(p) => merge_into(p, raw_tokens(self.chars@, self.pos as int)),
            None => coalesce(raw_tokens(self.chars@, self.pos as int)),
        }
    }

    /// A lexer at the start of `str`.
    pub fn new(str: &str) -> (r: Lexer)
        ensures
            r.wf(),
            r.input() == str@,
            r.remaining() == lex(str@),
    {
        let mut chars: Vec<char> = Vec::new();
        for c in it: str.chars()
            invariant
                chars@ == it.seq().take(it.index() as int),
        {
            chars.push(c);
        }
        assert(chars@ == str@);
        Lexer { chars, pos: 0, pending: None }
    }

    /// A lexer at the start of `str`.
    pub fn from_string(str: &String) -> (r: Lexer)
        ensures
            r.wf(),
            r.input() == str@,
            r.remaining() == lex(str@),
    {
        Lexer::new(str.as_str())
    }

    /// Reads the run that starts at the current offset and returns its token;
    /// a run too short for its category comes out as plain text.
    fn read_run(&mut self) -> (r: Option<Token>)
        requires
            old(self).wf(),
        ensures
            final(self).wf(),
            final(self).chars == old(self).chars,
            final(self).pending == old(self).pending,
            old(self).pos < old(self).chars.len() ==> r == Some(
                run_token(old(self).chars@, old(self).pos as int),
            ) && final(self).pos == run_end(old(self).chars@, old(self).pos as int),
            old(self).pos >= old(self).chars.len() ==> {
                &&& r is None
                &&& final(self).pos == old(self).pos
            },
    {
        if self.pos >= self.chars.len() {
            return None;
        }
        let ghost s = self.chars@;
        let start = self.pos;
        let mut buf = Buffer::start(self.chars[start]);
        let mut j = start + 1;
        loop
            invariant
                self.chars@ == s,
                start < j <= s.len(),
                buf.len == j - start,
                consistent(buf.kind, buf.len as nat),
                scan(s, j as int, buf.kind, buf.len as nat) == scan(
                    s,
                    start + 1,
                    first_kind(s[start as int]),
                    1,
                ),
            ensures
                start < j <= s.len(),
                buf.len == j - start,
                consistent(buf.kind, buf.len as nat),
                scan(s, start + 1, first_kind(s[start as int]), 1) == (buf.kind, j as int),
            decreases s.len() - j,
        {
            if j >= self.chars.len() {
                break;
            }
            if !buf.extend(self.chars[j]) {
                break;
            }
            j = j + 1;
        }
        self.pos = j;
        match buf.terminate(j) {
            Some(token) => Some(token),
            None => Some(Token { content: TokenContent::Text, range: Range { start, end: j } }),
        }
    }

    /// Hands out the next token, or `None` once the input is used up.
    ///
    /// Reads runs until the one after the token is known: plain text runs
    /// that touch are joined, and the first run that does not join is held
    /// back for the next call.
    pub fn next_token(&mut self) -> (r: Option<Token>)
        requires
            old(self).wf(),
        ensures
            final(self).wf(),
            final(self).input() == old(self).input(),
            old(self).remaining().len() == 0 ==> r is None && final(self).remaining().len() == 0,
            old(self).remaining().len() > 0 ==> {
                &&& r == Some(old(self).remaining()[0])
                &&& final(self).remaining() == old(self).remaining().drop_first()
            },
    {
        let ghost rest = self.remaining();
        let ghost s = self.chars@;
        let ghost at = self.pos as int;
        let first = match self.pending.take() {
            Some(token) => Some(token),
            None => {
                let first = self.read_run();
                proof {
                    if at < s.len() {
                        assert(raw_tokens(s, at).drop_first() =~= raw_tokens(s, run_end(s, at)));
                    }
                }
                first
            },
        };
        let mut cur = match first {
            Some(token) => token,
            None => return None,
        };
        loop
            invariant
                self.wf(),
                self.chars@ == s,
                s == old(self).chars@,
                rest == old(self).remaining(),
                self.pending is None,
                merge_into(cur, raw_tokens(self.chars@, self.pos as int)) == rest,
            decreases self.chars.len() - self.pos,
        {
            let ghost at = self.pos as int;
            match self.read_run() {
                None => {
                    assert(raw_tokens(s, self.pos as int) =~= Seq::<Token>::empty());
                    assert(rest =~= seq![cur]);
                    assert(self.remaining() =~= rest.drop_first());
                    return Some(cur);
                },
                Some(next) => {
                    proof {
                        lemma_scan_bounds(s, at + 1, first_kind(s[at]), 1);
                        assert(raw_tokens(s, at).drop_first() =~= raw_tokens(s, self.pos as int));
                    }
                    if next.content == TokenContent::Text && cur.content == TokenContent::Text
                        && cur.range.end == next.range.start {
                        cur = Token {
                            content: TokenContent::Text,
                            range: Range { start: cur.range.start, end: next.range.end },
                        };
                    } else {
                        self.pending = Some(next);
                        assert(rest.drop_first() =~= self.remaining());
                        return Some(cur);
                    }
                },
            }
        }
    }
    /// Turns the lexer into a source of its remaining tokens.
    pub fn into_iter(self) -> (r: LexerIntoIterator)
        requires
            self.wf(),
        ensures
            r.wf(),
            r.remaining() == self.remaining(),
    {
        LexerIntoIterator { lexer: self }
    }
}

/// A lexer seen as a source of tokens, handed out one at a time.
pub struct LexerIntoIterator {
    lexer: Lexer,
}

impl LexerIntoIterator {
    pub closed spec fn wf(&self) -> bool {
        self.lexer.wf()
    }

    /// The tokens yet to come.
    pub closed spec fn remaining(&self) -> Seq<Token> {
        self.lexer.remaining()
    }

    /// The next token, as `Lexer::next_token` gives it.
    pub fn next(&mut self) -> (r: Option<Token>)
        requires
            old(self).wf(),
        ensures
            final(self).wf(),
            old(self).remaining().len() == 0 ==> r is None && final(self).remaining().len() == 0,
            old(self).remaining().len() > 0 ==> {
                &&& r == Some(old(self).remaining()[0])
                &&& final(self).remaining() == old(self).remaining().drop_first()
            },
    {
        self.lexer.next_token()
    }
}

/// All the tokens of `str`, in order.
pub fn tokenize(str: &str) -> (r: Vec<Token>)
    ensures
        r@ == lex(str@),
{
    let mut tokens = Lexer::new(str).into_iter();
    let mut out: Vec<Token> = Vec::new();
    loop
        invariant
            tokens.wf(),
            out@ + tokens.remaining() == lex(str@),
        ensures
            out@ == lex(str@),
        decreases tokens.remaining().len(),
    {
        match tokens.next() {
            Some(token) => {
                out.push(token);
            },
            None => {
                assert(out@ + tokens.remaining() =~= out@);
                break;
            },
        }
    }
    out
}

/// Lexing depends on the input alone: two lexers made from equal inputs hand
/// out the same tokens in the same order.
pub proof fn lemma_same_input_same_tokens(a: &Lexer, b: &Lexer)
    requires
        a.input() == b.input(),
        a.remaining() == lex(a.input()),
        b.remaining() == lex(b.input()),
    ensures
        a.remaining() == b.remaining(),
{
}

} // verus!
