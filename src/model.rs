//! The scanner as mathematics: what each rule reads at a position, and the
//! whole scan of an input as a function `lex` of its characters.
use vstd::prelude::*;
use crate::tokens::{LexErrorKind, SpecLexError, SpecToken};

verus! {

/// A class of characters that a run of equal-kind characters is made of.
#[derive(Debug, Clone, Copy, PartialEq, Eq, Structural)]
pub enum CharClass {
    Alphabetic,
    HexDigit,
    Whitespace,
}

pub open spec fn is_ascii_alphabetic(c: char) -> bool {
    ('a' <= c && c <= 'z') || ('A' <= c && c <= 'Z')
}

pub open spec fn is_ascii_hexdigit(c: char) -> bool {
    ('0' <= c && c <= '9') || ('a' <= c && c <= 'f') || ('A' <= c && c <= 'F')
}

/// Space, horizontal tab, line feed, form feed and carriage return.
pub open spec fn is_ascii_whitespace(c: char) -> bool {
    c == ' ' || c == '\t' || c == '\n' || c == '\u{c}' || c == '\r'
}

impl CharClass {
    pub open spec fn admits(self, c: char) -> bool {
        match self {
            CharClass::Alphabetic => is_ascii_alphabetic(c),
            CharClass::HexDigit => is_ascii_hexdigit(c),
            CharClass::Whitespace => is_ascii_whitespace(c),
        }
    }
}

/// The length of the longest run of characters of `class` starting at `pos`.
pub open spec fn run_len(s: Seq<char>, class: CharClass, pos: int) -> nat
    decreases s.len() - pos,
{
    if 0 <= pos < s.len() && class.admits(s[pos]) {
        1 + run_len(s, class, pos + 1)
    } else {
        0
    }
}

/// The first position at or after `pos` that holds `c`, or the length of `s`
/// if there is none.
pub open spec fn find_char(s: Seq<char>, c: char, pos: int) -> int
    decreases s.len() - pos,
{
    if pos >= s.len() {
        s.len() as int
    } else if pos >= 0 && s[pos] == c {
        pos
    } else {
        find_char(s, c, pos + 1)
    }
}

/// What one rule makes of the input at a position: a token and the number of
/// characters it spans, no match, or a failure of the whole scan.
pub enum Probe {
    Token(SpecToken, nat),
    NoMatch,
    Fatal(LexErrorKind),
}

/// `"`, the characters up to the next `"`, and that `"`.
pub open spec fn string_probe(s: Seq<char>, pos: int) -> Probe {
    if 0 <= pos < s.len() && s[pos] == '"' {
        let q = find_char(s, '"', pos + 1);
        if q < s.len() {
            Probe::Token(SpecToken::StringLiteral(s.subrange(pos + 1, q)), (q + 1 - pos) as nat)
        } else {
            Probe::Fatal(LexErrorKind::UnterminatedStringLiteral)
        }
    } else {
        Probe::NoMatch
    }
}

/// `0x` and the longest run of hexadecimal digits after it, which must not be
/// empty once the prefix is there.
pub open spec fn hex_probe(s: Seq<char>, pos: int) -> Probe {
    if 0 <= pos && pos + 2 <= s.len() && s[pos] == '0' && s[pos + 1] == 'x' {
        let n = run_len(s, CharClass::HexDigit, pos + 2);
        if n > 0 {
            Probe::Token(SpecToken::HexLiteral(s.subrange(pos + 2, pos + 2 + n)), n + 2)
        } else {
            Probe::Fatal(LexErrorKind::MalformedHexLiteral)
        }
    } else {
        Probe::NoMatch
    }
}

/// The longest non-empty run of letters.
pub open spec fn name_probe(s: Seq<char>, pos: int) -> Probe {
    let n = run_len(s, CharClass::Alphabetic, pos);
    if n > 0 {
        Probe::Token(SpecToken::Name(s.subrange(pos, pos + n)), n)
    } else {
        Probe::NoMatch
    }
}

/// `(` or `)`.
pub open spec fn bracket_probe(s: Seq<char>, pos: int) -> Probe {
    if 0 <= pos < s.len() && s[pos] == '(' {
        Probe::Token(SpecToken::LeftBracket, 1)
    } else if 0 <= pos < s.len() && s[pos] == ')' {
        Probe::Token(SpecToken::RightBracket, 1)
    } else {
        Probe::NoMatch
    }
}

/// The end of the input, spanning nothing.
pub open spec fn end_of_file_probe(s: Seq<char>, pos: int) -> Probe {
    if pos == s.len() {
        Probe::Token(SpecToken::EndOfFile, 0)
    } else {
        Probe::NoMatch
    }
}

/// The longest non-empty run of whitespace, as one token.
pub open spec fn white_space_probe(s: Seq<char>, pos: int) -> Probe {
    let n = run_len(s, CharClass::Whitespace, pos);
    if n > 0 {
        Probe::Token(SpecToken::Whitespace, n)
    } else {
        Probe::NoMatch
    }
}

/// `first` unless it is no match, else `second`.
pub open spec fn or_else(first: Probe, second: Probe) -> Probe {
    if first is NoMatch {
        second
    } else {
        first
    }
}

/// The rules tried in their fixed order: string literal, hexadecimal literal,
/// name, bracket, end of input, whitespace. The first that does not answer
/// "no match" decides.
pub open spec fn dispatch(s: Seq<char>, pos: int) -> Probe {
    or_else(
        string_probe(s, pos),
        or_else(
            hex_probe(s, pos),
            or_else(
                name_probe(s, pos),
                or_else(
                    bracket_probe(s, pos),
                    or_else(end_of_file_probe(s, pos), white_space_probe(s, pos)),
                ),
            ),
        ),
    )
}

/// A run never reaches past the end of the input.
pub proof fn lemma_run_len_bound(s: Seq<char>, class: CharClass, pos: int)
    requires
        0 <= pos <= s.len(),
    ensures
        pos + run_len(s, class, pos) <= s.len(),
    decreases s.len() - pos,
{
    if pos < s.len() && class.admits(s[pos]) {
        lemma_run_len_bound(s, class, pos + 1);
    }
}

/// The position found lies between `pos` and the end of the input.
pub proof fn lemma_find_char_bound(s: Seq<char>, c: char, pos: int)
    requires
        0 <= pos <= s.len(),
    ensures
        pos <= find_char(s, c, pos) <= s.len(),
    decreases s.len() - pos,
{
    if pos < s.len() && s[pos] != c {
        lemma_find_char_bound(s, c, pos + 1);
    }
}

/// Every token but `EndOfFile` spans at least one character, and none runs
/// past the end of the input.
pub proof fn lemma_dispatch_advances(s: Seq<char>, pos: int)
    requires
        0 <= pos <= s.len(),
    ensures
        dispatch(s, pos) matches Probe::Token(t, n) ==> pos + n <= s.len() && (t is EndOfFile
            || n > 0),
{
    lemma_run_len_bound(s, CharClass::Alphabetic, pos);
    lemma_run_len_bound(s, CharClass::Whitespace, pos);
    if pos + 2 <= s.len() {
        lemma_run_len_bound(s, CharClass::HexDigit, pos + 2);
    }
    if pos < s.len() {
        lemma_find_char_bound(s, '"', pos + 1);
    }
}

/// The scan from `pos` on, after the tokens `acc` have been read. It stops at
/// the end of the input with `EndOfFile` appended, or at the first position
/// where a rule fails or no rule matches.
pub open spec fn lex_from(s: Seq<char>, pos: int, acc: Seq<SpecToken>) -> Result<
    Seq<SpecToken>,
    SpecLexError,
>
    decreases s.len() - pos,
    when 0 <= pos <= s.len()
{
    match dispatch(s, pos) {
        Probe::Token(t, n) => {
            if t is EndOfFile {
                Ok(acc.push(t))
            } else {
                proof {
                    lemma_dispatch_advances(s, pos);
                }
                lex_from(s, pos + n, acc.push(t))
            }
        },
        Probe::NoMatch => Err(
            SpecLexError { kind: LexErrorKind::UnrecognizedInput, position: pos, tokens: acc },
        ),
        Probe::Fatal(kind) => Err(SpecLexError { kind, position: pos, tokens: acc }),
    }
}

/// The scan of a whole input.
pub open spec fn lex(s: Seq<char>) -> Result<Seq<SpecToken>, SpecLexError> {
    lex_from(s, 0, Seq::empty())
}

} // verus!
