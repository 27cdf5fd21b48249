//! The key-value token grammar and tokenizer.
//!
//! A line holds a key, a separator (a colon optionally surrounded by
//! horizontal whitespace) and a value (the rest of the line, trimmed); a
//! blank line is a section break; the end of the input is an explicit
//! terminal token. Tokens never own text: each one carries the character
//! offsets of its text in the input, in strictly increasing order.

use vstd::prelude::*;

use crate::text::{
    find_char, find_char_range, is_blank, lemma_blank_trim, spec_lines, spec_trim, trim_end,
    trim_range, trim_start,
};

verus! {

/// The kinds of token the key-value grammar produces.
#[derive(Debug, Clone, Copy, PartialEq, Eq, Structural)]
pub enum TokenKind {
    /// The text before a separator (or a whole line without one), trimmed.
    Key,
    /// A colon between a key and a value.
    Separator,
    /// The text after a separator up to the end of the line, trimmed.
    Value,
    /// A blank line.
    SectionBreak,
    /// The end of the input.
    EndOfInput,
}

/// One token: a kind and the bounds of its text in the input. Tokens never
/// own data; they reference a span of the input they were scanned from.
#[derive(Debug, Clone, Copy)]
pub struct Token {
    pub kind: TokenKind,
    pub start: usize,
    pub end: usize,
}

/// The mathematical image of a token: its kind and its text.
pub ghost struct SpecToken {
    pub kind: TokenKind,
    pub text: Seq<char>,
}

/// The text a token denotes within `input`.
pub open spec fn spec_token_of(input: Seq<char>, t: Token) -> SpecToken {
    SpecToken { kind: t.kind, text: input.subrange(t.start as int, t.end as int) }
}

/// The token list interpreted against its input.
pub open spec fn token_texts(input: Seq<char>, toks: Seq<Token>) -> Seq<SpecToken> {
    toks.map(|i: int, t: Token| spec_token_of(input, t))
}

/// The tokens of one non-terminal line.
pub open spec fn spec_line_tokens(line: Seq<char>) -> Seq<SpecToken> {
    if is_blank(line) {
        seq![SpecToken { kind: TokenKind::SectionBreak, text: line }]
    } else {
        let c = find_char(line, ':');
        if c < 0 {
            seq![SpecToken { kind: TokenKind::Key, text: spec_trim(line) }]
        } else {
            let k = spec_trim(line.subrange(0, c));
            let v = spec_trim(line.subrange(c + 1, line.len() as int));
            if k.len() == 0 {
                seq![
                    SpecToken { kind: TokenKind::Separator, text: line.subrange(c, c + 1) },
                    SpecToken { kind: TokenKind::Value, text: v },
                ]
            } else {
                seq![
                    SpecToken { kind: TokenKind::Key, text: k },
                    SpecToken { kind: TokenKind::Separator, text: line.subrange(c, c + 1) },
                    SpecToken { kind: TokenKind::Value, text: v },
                ]
            }
        }
    }
}

/// The tokens of a list of lines.
pub open spec fn spec_tokens_of_lines(ls: Seq<Seq<char>>) -> Seq<SpecToken>
    decreases ls.len(),
{
    if ls.len() == 0 {
        Seq::empty()
    } else {
        spec_line_tokens(ls[0]) + spec_tokens_of_lines(ls.skip(1))
    }
}

/// What tokenizing an input yields: the tokens of its lines followed by the
/// terminal token.
pub open spec fn spec_tokenize(input: Seq<char>) -> Seq<SpecToken> {
    spec_tokens_of_lines(spec_lines(input)).push(
        SpecToken { kind: TokenKind::EndOfInput, text: Seq::empty() },
    )
}

/// Token spans lie within `[lo, hi]`, in increasing, non-overlapping order.
pub open spec fn tokens_in(toks: Seq<Token>, lo: int, hi: int) -> bool {
    &&& forall|i: int|
        0 <= i < toks.len() ==> lo <= #[trigger] toks[i].start && toks[i].start <= toks[i].end
            && toks[i].end <= hi
    &&& forall|i: int| 0 <= i < toks.len() - 1 ==> #[trigger] toks[i].end <= toks[i + 1].start
}

/// When an ordered token list is extended by ordered tokens that start no
/// earlier than `mid`, the whole stays ordered.
proof fn lemma_tokens_in_join(a: Seq<Token>, b: Seq<Token>, lo: int, mid: int, hi: int)
    requires
        tokens_in(a, lo, mid),
        tokens_in(b, mid, hi),
        lo <= mid <= hi,
    ensures
        tokens_in(a + b, lo, hi),
{
    let c = a + b;
    assert forall|i: int|
        0 <= i < c.len() implies lo <= #[trigger] c[i].start && c[i].start <= c[i].end && c[i].end
        <= hi by {
        if i < a.len() {
            assert(c[i] == a[i]);
            assert(lo <= a[i].start && a[i].start <= a[i].end && a[i].end <= mid);
        } else {
            assert(c[i] == b[i - a.len()]);
            assert(mid <= b[i - a.len()].start && b[i - a.len()].start <= b[i - a.len()].end && b[i
                - a.len()].end <= hi);
        }
    }
    assert forall|i: int| 0 <= i < c.len() - 1 implies #[trigger] c[i].end <= c[i + 1].start by {
        if i + 1 < a.len() {
            assert(c[i] == a[i]);
            assert(c[i + 1] == a[i + 1]);
        } else if i < a.len() {
            assert(c[i] == a[i]);
            assert(lo <= a[i].start && a[i].start <= a[i].end && a[i].end <= mid);
            assert(c[i + 1] == b[0]);
            assert(mid <= b[0].start);
        } else {
            assert(c[i] == b[i - a.len()]);
            assert(c[i + 1] == b[i + 1 - a.len()]);
        }
    }
}

/// Interpreting a concatenation of token lists is concatenating their
/// interpretations.
proof fn lemma_texts_join(input: Seq<char>, a: Seq<Token>, b: Seq<Token>)
    ensures
        token_texts(input, a + b) =~= token_texts(input, a) + token_texts(input, b),
{
    assert forall|i: int| 0 <= i < a.len() + b.len() implies token_texts(input, a + b)[i]
        == (token_texts(input, a) + token_texts(input, b))[i] by {
        if i < a.len() {
            assert((a + b)[i] == a[i]);
        } else {
            assert((a + b)[i] == b[i - a.len()]);
        }
    }
}

/// Append the tokens of the line `input[lo..hi]`.
fn push_line_tokens(input: &str, lo: usize, hi: usize, toks: &mut Vec<Token>)
    requires
        lo <= hi <= input@.len(),
        tokens_in(old(toks)@, 0, lo as int),
    ensures
        token_texts(input@, final(toks)@) =~= token_texts(input@, old(toks)@) + spec_line_tokens(
            input@.subrange(lo as int, hi as int),
        ),
        tokens_in(final(toks)@, 0, hi as int),
{
    let ghost toks00 = toks@;
    let ghost line = input@.subrange(lo as int, hi as int);
    let mut fresh: Vec<Token> = Vec::new();
    let (a, b) = trim_range(input, lo, hi);
    proof {
        lemma_blank_trim(line);
    }
    if b == lo {
        fresh.push(Token { kind: TokenKind::SectionBreak, start: lo, end: hi });
        proof {
            assert(is_blank(line));
            assert(token_texts(input@, fresh@) =~= spec_line_tokens(line));
        }
    } else {
        assert(!is_blank(line));
        match find_char_range(input, lo, hi, ':') {
            None => {
                proof {
                    assert(find_char(line, ':') < 0);
                    assert(input@.subrange(a as int, b as int) =~= line.subrange(
                        trim_start(line),
                        trim_end(line),
                    ));
                }
                fresh.push(Token { kind: TokenKind::Key, start: a, end: b });
                proof {
                    assert(token_texts(input@, fresh@) =~= spec_line_tokens(line));
                }
            },
            Some(c) => {
                let ghost cr = c - lo;
                proof {
                    assert(find_char(line, ':') == cr);
                    assert(line.subrange(0, cr) =~= input@.subrange(lo as int, c as int));
                    assert(line.subrange(cr + 1, line.len() as int) =~= input@.subrange(
                        c + 1,
                        hi as int,
                    ));
                }
                let (ka, kb) = trim_range(input, lo, c);
                let (va, vb) = trim_range(input, c + 1, hi);
                let ghost kpart = input@.subrange(lo as int, c as int);
                let ghost vpart = input@.subrange(c + 1, hi as int);
                proof {
                    if trim_end(kpart) > trim_start(kpart) {
                        assert(input@.subrange(ka as int, kb as int) =~= kpart.subrange(
                            trim_start(kpart),
                            trim_end(kpart),
                        ));
                    }
                    if trim_end(vpart) > trim_start(vpart) {
                        assert(input@.subrange(va as int, vb as int) =~= vpart.subrange(
                            trim_start(vpart),
                            trim_end(vpart),
                        ));
                    }
                    assert(input@.subrange(c as int, c + 1) =~= line.subrange(cr, cr + 1));
                    assert(input@.subrange(hi as int, hi as int) =~= Seq::<char>::empty());
                    lemma_blank_trim(kpart);
                    lemma_blank_trim(vpart);
                }
                if kb > ka {
                    fresh.push(Token { kind: TokenKind::Key, start: ka, end: kb });
                }
                fresh.push(Token { kind: TokenKind::Separator, start: c, end: c + 1 });
                if vb > va {
                    fresh.push(Token { kind: TokenKind::Value, start: va, end: vb });
                } else {
                    // The value is blank: its token is empty, placed at the
                    // line's end.
                    fresh.push(Token { kind: TokenKind::Value, start: hi, end: hi });
                }
                proof {
                    assert(token_texts(input@, fresh@) =~= spec_line_tokens(line));
                }
            },
        }
    }
    let ghost fresh0 = fresh@;
    proof {
        assert(tokens_in(fresh0, lo as int, hi as int));
        lemma_tokens_in_join(toks00, fresh0, 0, lo as int, hi as int);
        lemma_texts_join(input@, toks00, fresh0);
    }
    toks.append(&mut fresh);
    proof {
        assert(toks@ == toks00 + fresh0);
    }
}

/// Tokenize `input` under the key-value grammar. The grammar is total:
/// every input yields a token list ending in the terminal token, whose
/// spans sit in increasing, non-overlapping order.
pub fn tokenize(input: &str) -> (r: Vec<Token>)
    ensures
        token_texts(input@, r@) == spec_tokenize(input@),
        tokens_in(r@, 0, input@.len() as int),
        r@.len() >= 1,
        r@[r@.len() - 1].kind == TokenKind::EndOfInput,
{
    let len = input.unicode_len();
    let mut toks: Vec<Token> = Vec::new();
    let mut p: usize = 0;
    proof {
        assert(input@.skip(0) =~= input@);
        assert(token_texts(input@, toks@) =~= Seq::<SpecToken>::empty());
    }
    while p < len
        invariant
            p <= len,
            len == input@.len(),
            spec_tokens_of_lines(spec_lines(input@)) =~= token_texts(input@, toks@)
                + spec_tokens_of_lines(spec_lines(input@.skip(p as int))),
            tokens_in(toks@, 0, p as int),
        decreases len - p,
    {
        let ghost rem = input@.skip(p as int);
        let ghost toks0 = toks@;
        proof {
            assert(input@.subrange(p as int, len as int) =~= rem);
        }
        let nl_opt = find_char_range(input, p, len, '\n');
        let (line_end, next_p) = match nl_opt {
            Some(nl) => (nl, nl + 1),
            None => (len, len),
        };
        proof {
            let rel = find_char(rem, '\n');
            assert(rem.len() > 0);
            if nl_opt is Some {
                let nl = line_end as int;
                assert(rel == nl - p);
                assert(rem.subrange(0, rel) =~= input@.subrange(p as int, nl));
                assert(rem.subrange(rel + 1, rem.len() as int) =~= input@.skip(nl + 1));
                assert(spec_lines(rem) == seq![input@.subrange(p as int, nl)] + spec_lines(
                    input@.skip(nl + 1),
                ));
            } else {
                assert(rel < 0);
                assert(spec_lines(rem) =~= seq![rem]);
                assert(input@.skip(len as int) =~= Seq::<char>::empty());
            }
        }
        push_line_tokens(input, p, line_end, &mut toks);
        proof {
            let line = input@.subrange(p as int, line_end as int);
            let ls = spec_lines(rem);
            assert(ls[0] == line);
            assert(ls.skip(1) =~= spec_lines(input@.skip(next_p as int)));
            assert(spec_tokens_of_lines(ls) == spec_line_tokens(line) + spec_tokens_of_lines(
                spec_lines(input@.skip(next_p as int)),
            ));
        }
        p = next_p;
    }
    proof {
        assert(input@.skip(len as int) =~= Seq::<char>::empty());
        assert(spec_tokens_of_lines(spec_lines(input@)) =~= token_texts(input@, toks@));
    }
    let ghost toks0 = toks@;
    let eoi = Token { kind: TokenKind::EndOfInput, start: len, end: len };
    toks.push(eoi);
    proof {
        assert(input@.subrange(len as int, len as int) =~= Seq::<char>::empty());
        assert(toks@ =~= toks0 + seq![eoi]);
        lemma_texts_join(input@, toks0, seq![eoi]);
        assert(token_texts(input@, seq![eoi]) =~= seq![
            SpecToken { kind: TokenKind::EndOfInput, text: Seq::empty() },
        ]);
        assert(token_texts(input@, toks@) =~= spec_tokenize(input@));
        assert(tokens_in(seq![eoi], len as int, len as int));
        lemma_tokens_in_join(toks0, seq![eoi], 0, len as int, len as int);
    }
    toks
}

/// An ordered, forward-only cursor over the tokens of one input. Once
/// consumed a token cannot be re-read; a single-token lookahead is
/// available through [`TokenStream::peek`].
pub struct TokenStream<'a> {
    pub input: &'a str,
    pub toks: Vec<Token>,
    pub pos: usize,
}

impl<'a> TokenStream<'a> {
    /// Stream structure: the token list is the tokenization of the input,
    /// it ends in the terminal token, and the cursor sits within it.
    pub open spec fn wf(self) -> bool {
        &&& token_texts(self.input@, self.toks@) == spec_tokenize(self.input@)
        &&& tokens_in(self.toks@, 0, self.input@.len() as int)
        &&& self.toks@.len() >= 1
        &&& self.toks@[self.toks@.len() - 1].kind == TokenKind::EndOfInput
        &&& self.pos <= self.toks@.len()
    }

    /// Tokenize `input` and place the cursor on its first token.
    pub fn new(input: &'a str) -> (r: TokenStream<'a>)
        ensures
            r.wf(),
            r.input@ == input@,
            r.pos == 0,
    {
        let toks = tokenize(input);
        TokenStream { input, toks, pos: 0 }
    }

    /// Look at the next token without consuming it.
    pub fn peek(&self) -> (r: Option<Token>)
        requires
            self.wf(),
        ensures
            match r {
                Some(t) => self.pos < self.toks@.len() && t == self.toks@[self.pos as int],
                None => self.pos == self.toks@.len(),
            },
    {
        if self.pos < self.toks.len() {
            Some(self.toks[self.pos])
        } else {
            None
        }
    }

    /// Consume and return the next token.
    pub fn next(&mut self) -> (r: Option<Token>)
        requires
            old(self).wf(),
        ensures
            final(self).wf(),
            final(self).toks@ == old(self).toks@,
            final(self).input == old(self).input,
            match r {
                Some(t) => old(self).pos < old(self).toks@.len() && t == old(self).toks@[old(
                    self,
                ).pos as int] && final(self).pos == old(self).pos + 1,
                None => old(self).pos == old(self).toks@.len() && final(self).pos == old(
                    self,
                ).pos,
            },
    {
        if self.pos < self.toks.len() {
            let t = self.toks[self.pos];
            self.pos = self.pos + 1;
            Some(t)
        } else {
            None
        }
    }
}

} // verus!
