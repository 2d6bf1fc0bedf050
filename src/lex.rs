//! The lexer: template text to a flat stream of tokens.
//!
//! Outside a block the lexer looks for the openers `{{` and `{%`, each
//! optionally followed by `-`. Inside a block it looks for the closers `}}`,
//! `-}}`, `%}` and `-%}`. Everything else is literal text; literal text found
//! inside a block is trimmed of surrounding whitespace.
use crate::lookahead::{starts_with, Lookahead};
use crate::text::{chars_of, skip_leading_ws, skip_trailing_ws, string_from, trim_spec};
use vstd::prelude::*;

verus! {

/// One lexical unit.
#[derive(Debug, Clone, PartialEq, Eq)]
pub enum Tok {
    Literal(String),
    ORenderBlock { clear_whitespace: bool },
    CRenderBlock { clear_whitespace: bool },
    OControlBlock { clear_whitespace: bool },
    CControlBlock { clear_whitespace: bool },
}

/// The mathematical value of a token: its text as a sequence of characters.
pub enum TokModel {
    Literal(Seq<char>),
    ORenderBlock { clear_whitespace: bool },
    CRenderBlock { clear_whitespace: bool },
    OControlBlock { clear_whitespace: bool },
    CControlBlock { clear_whitespace: bool },
}

impl View for Tok {
    type V = TokModel;

    open spec fn view(&self) -> TokModel {
        match self {
            Tok::Literal(s) => TokModel::Literal(s@),
            Tok::ORenderBlock { clear_whitespace } => TokModel::ORenderBlock {
                clear_whitespace: *clear_whitespace,
            },
            Tok::CRenderBlock { clear_whitespace } => TokModel::CRenderBlock {
                clear_whitespace: *clear_whitespace,
            },
            Tok::OControlBlock { clear_whitespace } => TokModel::OControlBlock {
                clear_whitespace: *clear_whitespace,
            },
            Tok::CControlBlock { clear_whitespace } => TokModel::CControlBlock {
                clear_whitespace: *clear_whitespace,
            },
        }
    }
}

/// The views of a sequence of tokens.
pub open spec fn toks_view(ts: Seq<Tok>) -> Seq<TokModel> {
    ts.map_values(|t: Tok| t@)
}

/// `s` begins with a block opener.
pub open spec fn opener_ahead(s: Seq<char>) -> bool {
    starts_with(s, seq!['{', '%']) || starts_with(s, seq!['{', '{'])
}

/// `s` begins with a block closer, plain or trimming.
pub open spec fn closer_ahead(s: Seq<char>) -> bool {
    starts_with(s, seq!['%', '}']) || starts_with(s, seq!['}', '}'])
        || starts_with(s, seq!['-', '}', '}']) || starts_with(s, seq!['-', '%', '}'])
}

/// `s` begins with the delimiter that ends a literal run in the given mode.
pub open spec fn boundary_ahead(s: Seq<char>, in_block: bool) -> bool {
    if in_block {
        closer_ahead(s)
    } else {
        opener_ahead(s)
    }
}

/// How many characters of `s` come before the first delimiter of the mode,
/// or before the end.
pub open spec fn run_len(s: Seq<char>, in_block: bool) -> nat
    decreases s.len(),
{
    if s.len() == 0 || boundary_ahead(s, in_block) {
        0
    } else {
        1 + run_len(s.drop_first(), in_block)
    }
}

/// One step of the lexer on a non-empty remainder `s`: the token, how many
/// characters it takes, and the mode after it.
pub open spec fn lex_step(s: Seq<char>, in_block: bool) -> (TokModel, int, bool) {
    if !in_block && starts_with(s, seq!['{', '{']) {
        let trim = starts_with(s, seq!['{', '{', '-']);
        (TokModel::ORenderBlock { clear_whitespace: trim }, if trim { 3 } else { 2 }, true)
    } else if !in_block && starts_with(s, seq!['{', '%']) {
        let trim = starts_with(s, seq!['{', '%', '-']);
        (TokModel::OControlBlock { clear_whitespace: trim }, if trim { 3 } else { 2 }, true)
    } else if in_block && starts_with(s, seq!['}', '}']) {
        (TokModel::CRenderBlock { clear_whitespace: false }, 2, false)
    } else if in_block && starts_with(s, seq!['-', '}', '}']) {
        (TokModel::CRenderBlock { clear_whitespace: true }, 3, false)
    } else if in_block && starts_with(s, seq!['%', '}']) {
        (TokModel::CControlBlock { clear_whitespace: false }, 2, false)
    } else if in_block && starts_with(s, seq!['-', '%', '}']) {
        (TokModel::CControlBlock { clear_whitespace: true }, 3, false)
    } else {
        let n = 1 + run_len(s.drop_first(), in_block) as int;
        let text = s.take(n);
        (TokModel::Literal(if in_block { trim_spec(text) } else { text }), n, in_block)
    }
}

/// The whole token stream of `s`, lexed from the given mode.
pub open spec fn lex_seq(s: Seq<char>, in_block: bool) -> Seq<TokModel>
    decreases s.len(),
{
    if s.len() == 0 {
        seq![]
    } else {
        let (t, n, next_mode) = lex_step(s, in_block);
        if 0 < n <= s.len() {
            seq![t] + lex_seq(s.skip(n), next_mode)
        } else {
            seq![]
        }
    }
}

/// The token stream of a template: lexing starts outside any block.
pub open spec fn lex_template(s: Seq<char>) -> Seq<TokModel> {
    lex_seq(s, false)
}

pub proof fn lemma_run_len_bound(s: Seq<char>, in_block: bool)
    ensures
        run_len(s, in_block) <= s.len(),
    decreases s.len(),
{
    if s.len() > 0 && !boundary_ahead(s, in_block) {
        lemma_run_len_bound(s.drop_first(), in_block);
    }
}

/// Every step consumes at least one character and no more than there are.
pub proof fn lemma_lex_step_len(s: Seq<char>, in_block: bool)
    requires
        s.len() > 0,
    ensures
        0 < lex_step(s, in_block).1 <= s.len(),
{
    lemma_run_len_bound(s.drop_first(), in_block);
}

/// The lexer: a lookahead window of depth three over the source, and whether
/// it is inside a block.
pub struct Lexer {
    chars: Lookahead<char, 3>,
    in_block: bool,
}

impl Lexer {
    /// The source characters not consumed yet.
    pub closed spec fn rest(&self) -> Seq<char> {
        self.chars@
    }

    /// Whether the lexer is between an opener and its closer.
    pub closed spec fn inside(&self) -> bool {
        self.in_block
    }

    /// The tokens that the lexer has still to produce.
    pub open spec fn pending_tokens(&self) -> Seq<TokModel> {
        lex_seq(self.rest(), self.inside())
    }

    /// A lexer at the start of `src`, outside any block.
    pub fn new(src: &str) -> (r: Self)
        ensures
            r.rest() == src@,
            !r.inside(),
    {
        Lexer { chars: Lookahead::new(chars_of(src)), in_block: false }
    }

    /// Consumes and returns the next source character.
    pub fn next_char(&mut self) -> (r: Option<char>)
        ensures
            final(self).inside() == old(self).inside(),
            old(self).rest().len() == 0 ==> r is None && final(self).rest() == old(self).rest(),
            old(self).rest().len() > 0 ==> r == Some(old(self).rest()[0]) && final(self).rest()
                == old(self).rest().drop_first(),
    {
        self.chars.next()
    }

    /// Whether the next source character is `c`.
    pub fn has_next_char(&self, c: char) -> (r: bool)
        ensures
            r == starts_with(self.rest(), seq![c]),
    {
        self.chars.has_next(&[c])
    }

    /// Whether the next two source characters are `c1`, `c2`.
    pub fn has_next_char2(&self, c1: char, c2: char) -> (r: bool)
        ensures
            r == starts_with(self.rest(), seq![c1, c2]),
    {
        self.chars.has_next(&[c1, c2])
    }

    /// Whether the next three source characters are `c1`, `c2`, `c3`.
    pub fn has_next_char3(&self, c1: char, c2: char, c3: char) -> (r: bool)
        ensures
            r == starts_with(self.rest(), seq![c1, c2, c3]),
    {
        self.chars.has_next(&[c1, c2, c3])
    }

    /// Consumes the next source character if it is `c`.
    pub fn with_next_char(&mut self, c: char) -> (r: bool)
        ensures
            final(self).inside() == old(self).inside(),
            r == starts_with(old(self).rest(), seq![c]),
            r ==> final(self).rest() == old(self).rest().skip(1),
            !r ==> final(self).rest() == old(self).rest(),
    {
        self.chars.with_next(&[c])
    }

    /// Consumes the next two source characters if they are `c1`, `c2`.
    pub fn with_next_chars(&mut self, c1: char, c2: char) -> (r: bool)
        ensures
            final(self).inside() == old(self).inside(),
            r == starts_with(old(self).rest(), seq![c1, c2]),
            r ==> final(self).rest() == old(self).rest().skip(2),
            !r ==> final(self).rest() == old(self).rest(),
    {
        self.chars.with_next(&[c1, c2])
    }

    /// Produces the next token, or `None` once the source is used up.
    pub fn next(&mut self) -> (r: Option<Tok>)
        ensures
            old(self).rest().len() == 0 ==> r is None && final(self).rest() == old(self).rest()
                && final(self).inside() == old(self).inside(),
            old(self).rest().len() > 0 ==> r is Some && ({
                let (t, n, mode) = lex_step(old(self).rest(), old(self).inside());
                &&& r->0@ == t
                &&& 0 < n <= old(self).rest().len()
                &&& final(self).rest() == old(self).rest().skip(n)
                &&& final(self).inside() == mode
            }),
            old(self).pending_tokens() == match r {
                Some(t) => seq![t@] + final(self).pending_tokens(),
                None => seq![],
            },
    {
        let ghost s = self.rest();
        let ghost mode = self.inside();
        let c = match self.next_char() {
            Some(c) => c,
            None => {
                return None;
            },
        };
        proof {
            assert(s.drop_first() =~= s.skip(1));
            lemma_lex_step_len(s, mode);
            if s.len() >= 2 {
                assert(s[1] == s.skip(1)[0]);
            }
            if s.len() >= 3 {
                assert(s[2] == s.skip(1)[1]);
                assert(s[2] == s.skip(2)[0]);
            }
        }
        if c == '{' && !self.in_block && self.with_next_char('{') {
            self.in_block = true;
            let clear_whitespace = self.with_next_char('-');
            assert(s.skip(1).skip(1) =~= s.skip(2));
            if clear_whitespace {
                assert(s.skip(2).skip(1) =~= s.skip(3));
            }
            return Some(Tok::ORenderBlock { clear_whitespace });
        }
        if c == '{' && !self.in_block && self.with_next_char('%') {
            self.in_block = true;
            let clear_whitespace = self.with_next_char('-');
            assert(s.skip(1).skip(1) =~= s.skip(2));
            if clear_whitespace {
                assert(s.skip(2).skip(1) =~= s.skip(3));
            }
            return Some(Tok::OControlBlock { clear_whitespace });
        }
        if c == '}' && self.in_block && self.with_next_char('}') {
            self.in_block = false;
            assert(s.skip(1).skip(1) =~= s.skip(2));
            return Some(Tok::CRenderBlock { clear_whitespace: false });
        }
        if c == '-' && self.in_block && self.with_next_chars('}', '}') {
            self.in_block = false;
            assert(s.skip(1).skip(2) =~= s.skip(3));
            return Some(Tok::CRenderBlock { clear_whitespace: true });
        }
        if c == '%' && self.in_block && self.with_next_char('}') {
            self.in_block = false;
            assert(s.skip(1).skip(1) =~= s.skip(2));
            return Some(Tok::CControlBlock { clear_whitespace: false });
        }
        if c == '-' && self.in_block && self.with_next_chars('%', '}') {
            self.in_block = false;
            assert(s.skip(1).skip(2) =~= s.skip(3));
            return Some(Tok::CControlBlock { clear_whitespace: true });
        }
        let mut literal: Vec<char> = Vec::new();
        literal.push(c);
        assert(literal@ =~= s.take(1));
        loop
            invariant
                self.inside() == mode,
                1 <= literal@.len() <= s.len(),
                literal@ == s.take(literal@.len() as int),
                self.rest() == s.skip(literal@.len() as int),
                run_len(s.drop_first(), mode) == (literal@.len() - 1) + run_len(self.rest(), mode),
            ensures
                run_len(self.rest(), mode) == 0,
            decreases self.rest().len(),
        {
            if self.in_block && (self.has_next_char2('%', '}') || self.has_next_char2('}', '}')
                || self.has_next_char3('-', '}', '}') || self.has_next_char3('-', '%', '}')) {
                break;
            }
            if !self.in_block && (self.has_next_char2('{', '%') || self.has_next_char2('{', '{')) {
                break;
            }
            match self.next_char() {
                Some(c) => {
                    literal.push(c);
                    assert(literal@ =~= s.take(literal@.len() as int));
                    assert(self.rest() =~= s.skip(literal@.len() as int));
                },
                None => {
                    break;
                },
            }
        }
        let len = literal.len();
        let text = if self.in_block {
            let lo = skip_leading_ws(&literal, 0, len);
            let hi = skip_trailing_ws(&literal, lo, len);
            assert(literal@.subrange(0, len as int) =~= literal@);
            string_from(&literal, lo, hi)
        } else {
            assert(literal@.subrange(0, len as int) =~= literal@);
            string_from(&literal, 0, len)
        };
        Some(Tok::Literal(text))
    }

    /// Produces all the remaining tokens.
    pub fn collect_tokens(&mut self) -> (r: Vec<Tok>)
        ensures
            toks_view(r@) == old(self).pending_tokens(),
            final(self).rest().len() == 0,
    {
        let mut r: Vec<Tok> = Vec::new();
        loop
            invariant
                toks_view(r@) + self.pending_tokens() == old(self).pending_tokens(),
            ensures
                toks_view(r@) == old(self).pending_tokens(),
                self.rest().len() == 0,
            decreases self.rest().len(),
        {
            let ghost before = toks_view(r@);
            match self.next() {
                Some(t) => {
                    r.push(t);
                    assert(toks_view(r@) =~= before.push(t@));
                    assert(toks_view(r@) + self.pending_tokens() =~= before + (seq![t@]
                        + self.pending_tokens()));
                },
                None => {
                    assert(toks_view(r@) =~= toks_view(r@) + self.pending_tokens());
                    break;
                },
            }
        }
        r
    }
}

} // verus!
