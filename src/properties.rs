//! General facts about the scanner, proved over `lex`, which `tokenize`
//! computes exactly.
use vstd::prelude::*;
use crate::model::{
    dispatch, find_char, is_ascii_hexdigit, is_ascii_whitespace, lemma_dispatch_advances,
    lemma_find_char_bound, lemma_run_len_bound, lex, lex_from, run_len, CharClass, Probe,
};
use crate::tokens::{LexErrorKind, SpecLexError, SpecToken};

verus! {

/// `run` is the text that token `t` was read from: a name, `"` literal `"`,
/// `0x` digits, a bracket, a non-empty run of whitespace, or nothing for the
/// end of input. The reserved tokens are read from no text.
pub open spec fn spelled_by(t: SpecToken, run: Seq<char>) -> bool {
    match t {
        SpecToken::Name(n) => run == n,
        SpecToken::StringLiteral(x) => run == seq!['"'] + x + seq!['"'],
        SpecToken::HexLiteral(h) => run == seq!['0', 'x'] + h,
        SpecToken::LeftBracket => run == seq!['('],
        SpecToken::RightBracket => run == seq![')'],
        SpecToken::Whitespace => run.len() > 0 && forall|i: int|
            0 <= i < run.len() ==> is_ascii_whitespace(#[trigger] run[i]),
        SpecToken::EndOfFile => run.len() == 0,
        SpecToken::IntegerLiteral(_) => false,
        SpecToken::Comma => false,
    }
}

/// Every character of a run belongs to its class.
proof fn lemma_run_admits(s: Seq<char>, class: CharClass, pos: int)
    requires
        0 <= pos <= s.len(),
    ensures
        forall|i: int| pos <= i < pos + run_len(s, class, pos) ==> class.admits(#[trigger] s[i]),
    decreases s.len() - pos,
{
    if pos < s.len() && class.admits(s[pos]) {
        lemma_run_admits(s, class, pos + 1);
    }
}

/// The position found holds the character looked for, unless it is the end.
proof fn lemma_find_char_found(s: Seq<char>, c: char, pos: int)
    requires
        0 <= pos <= s.len(),
    ensures
        find_char(s, c, pos) < s.len() ==> s[find_char(s, c, pos)] == c,
    decreases s.len() - pos,
{
    if pos < s.len() && s[pos] != c {
        lemma_find_char_found(s, c, pos + 1);
    }
}

/// A token read at `pos` is spelled by the text it spans.
proof fn lemma_dispatch_spelling(s: Seq<char>, pos: int)
    requires
        0 <= pos <= s.len(),
    ensures
        dispatch(s, pos) matches Probe::Token(t, n) ==> spelled_by(t, s.subrange(pos, pos + n)),
{
    lemma_dispatch_advances(s, pos);
    lemma_run_admits(s, CharClass::Whitespace, pos);
    if let Probe::Token(t, n) = dispatch(s, pos) {
        let run = s.subrange(pos, pos + n);
        match t {
            SpecToken::StringLiteral(x) => {
                lemma_find_char_bound(s, '"', pos + 1);
                lemma_find_char_found(s, '"', pos + 1);
                assert(run =~= seq!['"'] + x + seq!['"']);
            },
            SpecToken::HexLiteral(h) => {
                assert(run =~= seq!['0', 'x'] + h);
            },
            SpecToken::Name(m) => {
                assert(run =~= m);
            },
            SpecToken::LeftBracket => {
                assert(run =~= seq!['(']);
            },
            SpecToken::RightBracket => {
                assert(run =~= seq![')']);
            },
            SpecToken::Whitespace => {
                assert forall|i: int| 0 <= i < run.len() implies is_ascii_whitespace(
                    #[trigger] run[i],
                ) by {
                    assert(CharClass::Whitespace.admits(s[pos + i]));
                }
            },
            _ => {},
        }
    }
}

/// The scan from `pos` reads the rest of the input as consecutive runs, one
/// per token, each spelling its token; the tokens already read are kept.
proof fn lemma_runs_from(s: Seq<char>, pos: int, acc: Seq<SpecToken>) -> (runs: Seq<Seq<char>>)
    requires
        0 <= pos <= s.len(),
        lex_from(s, pos, acc) is Ok,
    ensures
        ({
            let ts = lex_from(s, pos, acc)->Ok_0;
            &&& ts.len() == acc.len() + runs.len()
            &&& ts.subrange(0, acc.len() as int) == acc
            &&& runs.flatten() == s.subrange(pos, s.len() as int)
            &&& forall|i: int|
                0 <= i < runs.len() ==> spelled_by(#[trigger] ts[acc.len() + i], runs[i])
        }),
    decreases s.len() - pos,
{
    lemma_dispatch_advances(s, pos);
    lemma_dispatch_spelling(s, pos);
    let ts = lex_from(s, pos, acc)->Ok_0;
    match dispatch(s, pos) {
        Probe::Token(t, n) => {
            let run = s.subrange(pos, pos + n);
            if t is EndOfFile {
                let runs = seq![run];
                assert(ts == acc.push(t));
                assert(ts.subrange(0, acc.len() as int) =~= acc);
                assert(runs.drop_first() =~= Seq::<Seq<char>>::empty());
                assert(runs.drop_first().flatten() =~= Seq::<char>::empty());
                assert(pos == s.len() && n == 0);
                assert(runs.flatten() =~= s.subrange(pos, s.len() as int));
                runs
            } else {
                let rest = lemma_runs_from(s, pos + n, acc.push(t));
                let runs = seq![run] + rest;
                assert(ts.subrange(0, acc.len() + 1int) == acc.push(t));
                let head = ts.subrange(0, acc.len() + 1int);
                assert(ts.subrange(0, acc.len() as int) =~= head.subrange(0, acc.len() as int));
                assert(ts.subrange(0, acc.len() as int) =~= acc);
                assert(ts[acc.len() as int] == ts.subrange(0, acc.len() + 1int)[acc.len() as int]);
                assert(runs.drop_first() =~= rest);
                assert(runs.flatten() =~= s.subrange(pos, s.len() as int));
                assert forall|i: int| 0 <= i < runs.len() implies spelled_by(
                    #[trigger] ts[acc.len() + i],
                    runs[i],
                ) by {
                    if i > 0 {
                        assert(ts[acc.len() + 1 + (i - 1)] == ts[acc.len() + i]);
                    }
                }
                runs
            }
        },
        _ => {
            seq![]
        },
    }
}

/// A successful scan ends with `EndOfFile`, and `EndOfFile` appears nowhere
/// before the end.
pub proof fn lemma_end_of_file_last(s: Seq<char>)
    ensures
        lex(s) matches Ok(ts) ==> {
            &&& ts.len() > 0
            &&& ts.last() == SpecToken::EndOfFile
            &&& forall|i: int| 0 <= i < ts.len() - 1 ==> !(#[trigger] ts[i] is EndOfFile)
        },
{
    lemma_end_of_file_last_from(s, 0, Seq::empty());
}

proof fn lemma_end_of_file_last_from(s: Seq<char>, pos: int, acc: Seq<SpecToken>)
    requires
        0 <= pos <= s.len(),
        forall|i: int| 0 <= i < acc.len() ==> !(#[trigger] acc[i] is EndOfFile),
    ensures
        lex_from(s, pos, acc) matches Ok(ts) ==> ts.len() > 0 && ts.last() == SpecToken::EndOfFile
            && forall|i: int| 0 <= i < ts.len() - 1 ==> !(#[trigger] ts[i] is EndOfFile),
    decreases s.len() - pos,
{
    lemma_dispatch_advances(s, pos);
    if let Probe::Token(t, n) = dispatch(s, pos) {
        if !(t is EndOfFile) {
            let next = acc.push(t);
            assert forall|i: int| 0 <= i < next.len() implies !(
            #[trigger] next[i] is EndOfFile) by {
                if i < acc.len() {
                    assert(next[i] == acc[i]);
                }
            }
            lemma_end_of_file_last_from(s, pos + n, next);
        } else {
            let ts = acc.push(t);
            assert forall|i: int| 0 <= i < ts.len() - 1 implies !(
            #[trigger] ts[i] is EndOfFile) by {
                assert(ts[i] == acc[i]);
            }
        }
    }
}

/// The texts that the tokens of a successful scan were read from, laid end to
/// end, give back the input: no character is skipped or read twice.
pub proof fn lemma_spans_rebuild_input(s: Seq<char>)
    ensures
        lex(s) matches Ok(ts) ==> exists|runs: Seq<Seq<char>>|
            #![trigger runs.flatten()]
            runs.len() == ts.len() && runs.flatten() == s && forall|i: int|
                0 <= i < ts.len() ==> spelled_by(#[trigger] ts[i], runs[i]),
{
    if lex(s) is Ok {
        let ts = lex(s)->Ok_0;
        let runs = lemma_runs_from(s, 0, Seq::empty());
        assert(s.subrange(0, s.len() as int) =~= s);
        assert forall|i: int| 0 <= i < ts.len() implies spelled_by(#[trigger] ts[i], runs[i]) by {
            assert(ts[0 + i] == ts[i]);
        }
    }
}

/// Scanning the same input twice gives the same result.
pub proof fn lemma_lex_deterministic(s: Seq<char>, t: Seq<char>)
    requires
        s == t,
    ensures
        lex(s) == lex(t),
{
}

/// An input that starts with `0x` and no hexadecimal digit after it is read
/// as a hexadecimal literal, whatever follows (`0x"a"` too), and so the scan
/// fails at once with a malformed hexadecimal literal.
pub proof fn lemma_hex_prefix_first(s: Seq<char>)
    requires
        s.len() >= 2,
        s[0] == '0',
        s[1] == 'x',
        s.len() == 2 || !is_ascii_hexdigit(s[2]),
    ensures
        lex(s) == Err::<Seq<SpecToken>, SpecLexError>(
            SpecLexError {
                kind: LexErrorKind::MalformedHexLiteral,
                position: 0,
                tokens: Seq::empty(),
            },
        ),
{
    assert(run_len(s, CharClass::HexDigit, 2) == 0);
}

} // verus!
