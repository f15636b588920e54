//! The executable scanner: a cursor over the characters of the input, one
//! probe per kind of token, and `tokenize`, which runs them to the end.
use vstd::prelude::*;
use crate::model::{
    bracket_probe, dispatch, end_of_file_probe, find_char, hex_probe, lemma_dispatch_advances,
    lemma_find_char_bound, lex, lex_from, name_probe, run_len, string_probe, white_space_probe,
    CharClass, Probe,
};
use crate::tokens::{tokens_view, LexError, LexErrorKind, SpecLexError, SpecToken, Token};

verus! {

/// Relies on `String`'s `FromIterator<&char>`: the string holds the given
/// characters in order.
#[verifier::external_body]
fn collect_chars(buffer: &Vec<char>, start: usize, end: usize) -> (r: String)
    requires
        start <= end <= buffer.len(),
    ensures
        r@ == buffer@.subrange(start as int, end as int),
{
    String::from_iter(&buffer[start..end])
}

impl CharClass {
    /// Whether `c` belongs to the class.
    pub fn accepts(&self, c: char) -> (r: bool)
        ensures
            r == self.admits(c),
    {
        match self {
            CharClass::Alphabetic => ('a' <= c && c <= 'z') || ('A' <= c && c <= 'Z'),
            CharClass::HexDigit => ('0' <= c && c <= '9') || ('a' <= c && c <= 'f') || ('A' <= c
                && c <= 'F'),
            CharClass::Whitespace => c == ' ' || c == '\t' || c == '\n' || c == '\u{c}' || c
                == '\r',
        }
    }
}

/// What a look at one position found.
enum PeekCheck {
    Matches,
    Differs,
    EndOfInput,
}

/// What a probe made of the input at the cursor.
enum ReadResult {
    Matched(Token),
    NoMatch,
    Failed(LexErrorKind),
}

/// `r` is what a probe returned for the rule outcome `p`, with the cursor
/// moved from `start` to `end`: past the token, not at all for no match, and
/// anywhere on a failure.
spec fn reports(p: Probe, start: int, r: ReadResult, end: int) -> bool {
    match p {
        Probe::Token(t, n) => r matches ReadResult::Matched(tok) && tok@ == t && end == start + n,
        Probe::NoMatch => r is NoMatch && end == start,
        Probe::Fatal(kind) => r matches ReadResult::Failed(k) && k == kind,
    }
}

/// The input and a cursor into it.
struct TokenReader {
    buffer: Vec<char>,
    index: usize,
    size: usize,
}

impl TokenReader {
    spec fn wf(&self) -> bool {
        &&& self.size == self.buffer.len()
        &&& self.index <= self.size
    }

    /// The cursor moved, the input did not.
    spec fn same_input(&self, other: &TokenReader) -> bool {
        &&& self.buffer@ == other.buffer@
        &&& self.size == other.size
    }

    fn from(text: String) -> (r: TokenReader)
        ensures
            r.wf(),
            r.buffer@ == text@,
            r.index == 0,
    {
        broadcast use vstd::string::group_string_axioms;

        let mut buffer: Vec<char> = Vec::new();
        for c in it: text.as_str().chars()
            invariant
                buffer@ == it.seq().take(it.index() as int),
        {
            buffer.push(c);
        }
        let size = buffer.len();
        TokenReader { buffer, index: 0, size }
    }

    /// The character at `index`, if the input reaches that far.
    fn peek_at(&self, index: usize) -> (r: Option<char>)
        requires
            self.wf(),
        ensures
            r == (if index < self.buffer@.len() {
                Some(self.buffer@[index as int])
            } else {
                None::<char>
            }),
    {
        if index < self.size {
            Some(self.buffer[index])
        } else {
            None
        }
    }

    /// The character at the cursor, if any.
    fn peek(&self) -> (r: Option<char>)
        requires
            self.wf(),
        ensures
            r == (if self.index < self.buffer@.len() {
                Some(self.buffer@[self.index as int])
            } else {
                None::<char>
            }),
    {
        self.peek_at(self.index)
    }

    /// Whether the character at `index` is `c`.
    fn check_peek_at(&self, index: usize, c: char) -> (r: PeekCheck)
        requires
            self.wf(),
        ensures
            index >= self.buffer@.len() ==> r is EndOfInput,
            index < self.buffer@.len() && self.buffer@[index as int] == c ==> r is Matches,
            index < self.buffer@.len() && self.buffer@[index as int] != c ==> r is Differs,
    {
        match self.peek_at(index) {
            Some(read) => {
                if read == c {
                    PeekCheck::Matches
                } else {
                    PeekCheck::Differs
                }
            },
            None => PeekCheck::EndOfInput,
        }
    }

    /// Whether the character at the cursor is `c`.
    fn check_peek(&self, c: char) -> (r: PeekCheck)
        requires
            self.wf(),
        ensures
            self.index >= self.buffer@.len() ==> r is EndOfInput,
            self.index < self.buffer@.len() && self.buffer@[self.index as int] == c
                ==> r is Matches,
            self.index < self.buffer@.len() && self.buffer@[self.index as int] != c
                ==> r is Differs,
    {
        self.check_peek_at(self.index, c)
    }

    /// Moves the cursor one character on.
    fn step(&mut self)
        requires
            old(self).wf(),
            old(self).index < old(self).size,
        ensures
            final(self).wf(),
            final(self).same_input(old(self)),
            final(self).index == old(self).index + 1,
    {
        self.index = self.index + 1;
    }

    /// Whether the input at the cursor spells `text`.
    fn next_chars_equal(&self, text: &[char]) -> (r: bool)
        requires
            self.wf(),
        ensures
            r == (self.index + text@.len() <= self.buffer@.len() && self.buffer@.subrange(
                self.index as int,
                self.index + text@.len(),
            ) == text@),
    {
        if self.size - self.index < text.len() {
            return false;
        }
        let mut i: usize = 0;
        while i < text.len()
            invariant
                self.wf(),
                self.index + text@.len() <= self.buffer@.len(),
                i <= text@.len(),
                forall|j: int| 0 <= j < i ==> self.buffer@[self.index + j] == text@[j],
            decreases text@.len() - i,
        {
            if self.buffer[self.index + i] != text[i] {
                assert(self.buffer@.subrange(self.index as int, self.index + text@.len())[i as int]
                    != text@[i as int]);
                return false;
            }
            i = i + 1;
        }
        assert(self.buffer@.subrange(self.index as int, self.index + text@.len()) =~= text@);
        true
    }

    /// Consumes `text` and returns `on_success` if the input at the cursor
    /// spells it; otherwise leaves the cursor where it is.
    fn read_text<T>(&mut self, text: &[char], on_success: T) -> (r: Option<T>)
        requires
            old(self).wf(),
        ensures
            final(self).wf(),
            final(self).same_input(old(self)),
            ({
                let s = old(self).buffer@;
                let p = old(self).index as int;
                if p + text@.len() <= s.len() && s.subrange(p, p + text@.len()) == text@ {
                    r == Some(on_success) && final(self).index == p + text@.len()
                } else {
                    r is None && final(self).index == p
                }
            }),
    {
        if self.next_chars_equal(text) {
            self.index = self.index + text.len();
            Some(on_success)
        } else {
            None
        }
    }

    /// Consumes the characters up to and including the next `delimiter` and
    /// returns the delimiter's position; `None` if the input ends first.
    fn read_until_and_eat(&mut self, delimiter: char) -> (r: Option<usize>)
        requires
            old(self).wf(),
        ensures
            final(self).wf(),
            final(self).same_input(old(self)),
            ({
                let q = find_char(old(self).buffer@, delimiter, old(self).index as int);
                if q < old(self).buffer@.len() {
                    r matches Some(d) && d == q && final(self).index == q + 1
                } else {
                    r is None
                }
            }),
    {
        let ghost s = self.buffer@;
        let mut local_index = self.index;
        loop
            invariant
                self.wf(),
                self.same_input(old(self)),
                self.index == old(self).index,
                self.buffer@ == s,
                self.index <= local_index <= self.size,
                find_char(s, delimiter, self.index as int) == find_char(
                    s,
                    delimiter,
                    local_index as int,
                ),
            decreases self.size - local_index,
        {
            match self.check_peek_at(local_index, delimiter) {
                PeekCheck::Matches => {
                    self.index = local_index + 1;
                    return Some(local_index);
                },
                PeekCheck::Differs => {
                    local_index = local_index + 1;
                },
                PeekCheck::EndOfInput => {
                    return None;
                },
            }
        }
    }

    /// Consumes the longest run of characters of `class` at the cursor and
    /// returns its length; `None`, with the cursor unmoved, if the run is
    /// empty.
    fn read_while_true(&mut self, class: CharClass) -> (r: Option<usize>)
        requires
            old(self).wf(),
        ensures
            final(self).wf(),
            final(self).same_input(old(self)),
            ({
                let n = run_len(old(self).buffer@, class, old(self).index as int);
                if n == 0 {
                    r is None && final(self).index == old(self).index
                } else {
                    r matches Some(m) && m == n && final(self).index == old(self).index + n
                }
            }),
    {
        let ghost s = self.buffer@;
        let mut local_index = self.index;
        loop
            invariant
                self.wf(),
                self.buffer@ == s,
                self.index <= local_index <= self.size,
                run_len(s, class, self.index as int) == (local_index - self.index) + run_len(
                    s,
                    class,
                    local_index as int,
                ),
            ensures
                self.wf(),
                self.buffer@ == s,
                self.index <= local_index <= self.size,
                run_len(s, class, self.index as int) == local_index - self.index,
            decreases self.size - local_index,
        {
            match self.peek_at(local_index) {
                None => {
                    break;
                },
                Some(c) => {
                    if class.accepts(c) {
                        local_index = local_index + 1;
                    } else {
                        break;
                    }
                },
            }
        }
        let consumed = local_index - self.index;
        if consumed == 0 {
            None
        } else {
            self.index = local_index;
            Some(consumed)
        }
    }

    /// A string literal: `"`, then everything up to the next `"`, which is
    /// consumed but not part of the payload. Fails if no `"` closes it.
    fn read_string_literal(&mut self) -> (r: ReadResult)
        requires
            old(self).wf(),
        ensures
            final(self).wf(),
            final(self).same_input(old(self)),
            reports(
                string_probe(old(self).buffer@, old(self).index as int),
                old(self).index as int,
                r,
                final(self).index as int,
            ),
    {
        match self.check_peek('"') {
            PeekCheck::Matches => {
                self.step();
                let start = self.index;
                proof {
                    lemma_find_char_bound(self.buffer@, '"', start as int);
                }
                match self.read_until_and_eat('"') {
                    None => ReadResult::Failed(LexErrorKind::UnterminatedStringLiteral),
                    Some(end) => ReadResult::Matched(
                        Token::StringLiteral(collect_chars(&self.buffer, start, end)),
                    ),
                }
            },
            _ => ReadResult::NoMatch,
        }
    }

    /// A hexadecimal literal: `0x` and the digits after it, which become the
    /// payload. Once the prefix is read, a missing digit fails the scan.
    fn read_hex_literal(&mut self) -> (r: ReadResult)
        requires
            old(self).wf(),
        ensures
            final(self).wf(),
            final(self).same_input(old(self)),
            reports(
                hex_probe(old(self).buffer@, old(self).index as int),
                old(self).index as int,
                r,
                final(self).index as int,
            ),
    {
        let prefix: &[char] = &['0', 'x'];
        assert(prefix@ == seq!['0', 'x']);
        let matched = self.read_text(prefix, ());
        proof {
            let s = old(self).buffer@;
            let p = old(self).index as int;
            if p + 2 <= s.len() {
                if s[p] == '0' && s[p + 1] == 'x' {
                    assert(s.subrange(p, p + 2) =~= prefix@);
                } else if s[p] != '0' {
                    assert(s.subrange(p, p + 2)[0] != prefix@[0]);
                } else {
                    assert(s.subrange(p, p + 2)[1] != prefix@[1]);
                }
            }
        }
        match matched {
            None => ReadResult::NoMatch,
            Some(_) => {
                let start = self.index;
                match self.read_while_true(CharClass::HexDigit) {
                    None => ReadResult::Failed(LexErrorKind::MalformedHexLiteral),
                    Some(_) => ReadResult::Matched(
                        Token::HexLiteral(collect_chars(&self.buffer, start, self.index)),
                    ),
                }
            },
        }
    }

    /// A name: the longest run of letters.
    fn read_name(&mut self) -> (r: ReadResult)
        requires
            old(self).wf(),
        ensures
            final(self).wf(),
            final(self).same_input(old(self)),
            reports(
                name_probe(old(self).buffer@, old(self).index as int),
                old(self).index as int,
                r,
                final(self).index as int,
            ),
    {
        let start = self.index;
        match self.read_while_true(CharClass::Alphabetic) {
            None => ReadResult::NoMatch,
            Some(_) => ReadResult::Matched(
                Token::Name(collect_chars(&self.buffer, start, self.index)),
            ),
        }
    }

    /// `(`.
    fn read_left_bracket(&mut self) -> (r: Option<Token>)
        requires
            old(self).wf(),
        ensures
            final(self).wf(),
            final(self).same_input(old(self)),
            ({
                let s = old(self).buffer@;
                let p = old(self).index as int;
                if p < s.len() && s[p] == '(' {
                    r matches Some(token) && token is LeftBracket && final(self).index == p + 1
                } else {
                    r is None && final(self).index == p
                }
            }),
    {
        let text: &[char] = &['('];
        assert(text@ == seq!['(']);
        let r = self.read_text(text, Token::LeftBracket);
        proof {
            let s = old(self).buffer@;
            let p = old(self).index as int;
            if p < s.len() {
                if s[p] == '(' {
                    assert(s.subrange(p, p + 1) =~= text@);
                } else {
                    assert(s.subrange(p, p + 1)[0] != text@[0]);
                }
            }
        }
        r
    }
    /// `)`.
    fn read_right_bracket(&mut self) -> (r: Option<Token>)
        requires
            old(self).wf(),
        ensures
            final(self).wf(),
            final(self).same_input(old(self)),
            ({
                let s = old(self).buffer@;
                let p = old(self).index as int;
                if p < s.len() && s[p] == ')' {
                    r matches Some(token) && token is RightBracket && final(self).index == p + 1
                } else {
                    r is None && final(self).index == p
                }
            }),
    {
        let text: &[char] = &[')'];
        assert(text@ == seq![')']);
        let r = self.read_text(text, Token::RightBracket);
        proof {
            let s = old(self).buffer@;
            let p = old(self).index as int;
            if p < s.len() {
                if s[p] == ')' {
                    assert(s.subrange(p, p + 1) =~= text@);
                } else {
                    assert(s.subrange(p, p + 1)[0] != text@[0]);
                }
            }
        }
        r
    }

    /// `(` or `)`.
    fn read_bracket(&mut self) -> (r: ReadResult)
        requires
            old(self).wf(),
        ensures
            final(self).wf(),
            final(self).same_input(old(self)),
            reports(
                bracket_probe(old(self).buffer@, old(self).index as int),
                old(self).index as int,
                r,
                final(self).index as int,
            ),
    {
        match self.read_left_bracket() {
            Some(token) => ReadResult::Matched(token),
            None => match self.read_right_bracket() {
                Some(token) => ReadResult::Matched(token),
                None => ReadResult::NoMatch,
            },
        }
    }

    /// `EndOfFile` when the cursor is at the end of the input; it consumes
    /// nothing.
    fn read_end_of_file(&mut self) -> (r: ReadResult)
        requires
            old(self).wf(),
        ensures
            final(self).wf(),
            final(self).same_input(old(self)),
            reports(
                end_of_file_probe(old(self).buffer@, old(self).index as int),
                old(self).index as int,
                r,
                final(self).index as int,
            ),
    {
        match self.peek() {
            None => ReadResult::Matched(Token::EndOfFile),
            Some(_) => ReadResult::NoMatch,
        }
    }

    /// A run of whitespace, as one `Whitespace` token.
    fn read_white_space(&mut self) -> (r: ReadResult)
        requires
            old(self).wf(),
        ensures
            final(self).wf(),
            final(self).same_input(old(self)),
            reports(
                white_space_probe(old(self).buffer@, old(self).index as int),
                old(self).index as int,
                r,
                final(self).index as int,
            ),
    {
        match self.read_while_true(CharClass::Whitespace) {
            None => ReadResult::NoMatch,
            Some(_) => ReadResult::Matched(Token::Whitespace),
        }
    }

    /// Tries the rules in their fixed order and returns what the first that
    /// does not answer "no match" made of the input.
    fn read_token(&mut self) -> (r: ReadResult)
        requires
            old(self).wf(),
        ensures
            final(self).wf(),
            final(self).same_input(old(self)),
            reports(
                dispatch(old(self).buffer@, old(self).index as int),
                old(self).index as int,
                r,
                final(self).index as int,
            ),
    {
        let r = self.read_string_literal();
        if !matches!(r, ReadResult::NoMatch) {
            return r;
        }
        let r = self.read_hex_literal();
        if !matches!(r, ReadResult::NoMatch) {
            return r;
        }
        let r = self.read_name();
        if !matches!(r, ReadResult::NoMatch) {
            return r;
        }
        let r = self.read_bracket();
        if !matches!(r, ReadResult::NoMatch) {
            return r;
        }
        let r = self.read_end_of_file();
        if !matches!(r, ReadResult::NoMatch) {
            return r;
        }
        self.read_white_space()
    }
}

/// The mathematical value of what `tokenize` returns.
pub open spec fn result_view(r: Result<Vec<Token>, LexError>) -> Result<
    Seq<SpecToken>,
    SpecLexError,
> {
    match r {
        Ok(tokens) => Ok(tokens_view(tokens@)),
        Err(e) => Err(e@),
    }
}

/// Splits `text` into tokens.
///
/// On success the tokens are those of `lex`, ending with the one
/// `EndOfFile`. On failure the error gives the kind, the character position of
/// the token that could not be read, and the tokens read before it, as `lex`
/// does.
pub fn tokenize(text: String) -> (r: Result<Vec<Token>, LexError>)
    ensures
        result_view(r) == lex(text@),
{
    let ghost s = text@;
    let mut reader = TokenReader::from(text);
    let mut tokens: Vec<Token> = Vec::new();
    assert(tokens_view(tokens@) =~= Seq::<SpecToken>::empty());
    loop
        invariant
            reader.wf(),
            reader.buffer@ == s,
            s == text@,
            lex(s) == lex_from(s, reader.index as int, tokens_view(tokens@)),
        decreases reader.size - reader.index,
    {
        let start = reader.index;
        proof {
            lemma_dispatch_advances(s, start as int);
        }
        match reader.read_token() {
            ReadResult::Matched(token) => {
                let at_end = matches!(token, Token::EndOfFile);
                let ghost before = tokens@;
                tokens.push(token);
                assert(tokens_view(tokens@) =~= tokens_view(before).push(token@));
                if at_end {
                    return Ok(tokens);
                }
            },
            ReadResult::NoMatch => {
                let kind = LexErrorKind::UnrecognizedInput;
                return Err(LexError { kind, position: start, tokens });
            },
            ReadResult::Failed(kind) => {
                return Err(LexError { kind, position: start, tokens });
            },
        }
    }
}

} // verus!
