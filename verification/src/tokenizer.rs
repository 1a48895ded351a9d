//! Lexical scanner: turns the input text into a flat sequence of tokens.
//!
//! The scanner makes a single forward pass over the character source.  Its
//! behaviour is specified by the spec functions [`scan_main`], [`scan_str`],
//! [`scan_num`] and [`scan_lit`], which together form a character-level state
//! machine over the raw byte sequence: `scan_main` is the state between
//! tokens, and the other three are the states inside a string, a number and a
//! `true`/`false` literal.  [`Tokenizer::tokenize`] is proved to produce
//! exactly the tokens and the final line/column position of that machine.

use vstd::prelude::*;
use vstd::string::*;

pub mod input_stream;
pub mod token;

use input_stream::InputStream;
use token::{Token, TokenModel};

verus! {

/// What remains of a scan: the tokens still to be emitted and the line and
/// column counters as they stand when the input is exhausted.
pub struct ScanOut {
    pub toks: Seq<TokenModel>,
    pub line: int,
    pub col: int,
}

/// Prepends one token to the output of the rest of a scan.
pub open spec fn emit(t: TokenModel, rest: ScanOut) -> ScanOut {
    ScanOut { toks: seq![t] + rest.toks, line: rest.line, col: rest.col }
}

/// An increment that sticks at the largest `usize`.  The line and column
/// counters saturate there rather than wrap; no input that fits in memory can
/// make them reach that limit.
pub open spec fn sat_inc(n: int) -> int {
    if n >= usize::MAX {
        n
    } else {
        n + 1
    }
}

/// The decimal digits.
pub open spec fn is_digit_char(c: char) -> bool {
    48 <= c as u32 <= 57
}

/// The recognized whitespace code points (the Unicode space/separator set),
/// except the newline, which the scanner handles separately so that it can
/// advance the line counter.
pub open spec fn is_space_char(c: char) -> bool {
    ||| c == '\u{0009}'
    ||| c == '\u{000b}'
    ||| c == '\u{000c}'
    ||| c == '\u{000d}'
    ||| c == '\u{0020}'
    ||| c == '\u{0085}'
    ||| c == '\u{00a0}'
    ||| c == '\u{1680}'
    ||| c == '\u{180e}'
    ||| c == '\u{2000}'
    ||| c == '\u{2001}'
    ||| c == '\u{2002}'
    ||| c == '\u{2003}'
    ||| c == '\u{2004}'
    ||| c == '\u{2005}'
    ||| c == '\u{2006}'
    ||| c == '\u{2007}'
    ||| c == '\u{2008}'
    ||| c == '\u{2009}'
    ||| c == '\u{200a}'
    ||| c == '\u{200b}'
    ||| c == '\u{200c}'
    ||| c == '\u{200d}'
    ||| c == '\u{2028}'
    ||| c == '\u{2029}'
    ||| c == '\u{202f}'
    ||| c == '\u{205f}'
    ||| c == '\u{2060}'
    ||| c == '\u{3000}'
    ||| c == '\u{feff}'
}

/// The main scanning state, between tokens, looking at position `i` with the
/// given 1-based line number and per-line column counter.
pub open spec fn scan_main(s: Seq<u8>, i: int, line: int, col: int) -> ScanOut
    decreases s.len() - i, 1int,
{
    if i < 0 || i >= s.len() {
        ScanOut { toks: Seq::empty(), line, col }
    } else {
        let c = s[i] as char;
        let col2 = sat_inc(col);
        if c == '"' {
            scan_str(s, i + 1, line, col2, Seq::empty())
        } else if c == ',' {
            emit(TokenModel::Comma, scan_main(s, i + 1, line, col2))
        } else if c == '{' {
            emit(TokenModel::OpenBrace, scan_main(s, i + 1, line, col2))
        } else if c == '}' {
            emit(TokenModel::CloseBrace, scan_main(s, i + 1, line, col2))
        } else if c == '[' {
            emit(TokenModel::OpenBracket, scan_main(s, i + 1, line, col2))
        } else if c == ']' {
            emit(TokenModel::CloseBracket, scan_main(s, i + 1, line, col2))
        } else if c == ':' {
            emit(TokenModel::Colon, scan_main(s, i + 1, line, col2))
        } else if c == 't' {
            scan_lit(s, i + 1, line, col2, seq!['r', 'u', 'e'], TokenModel::True)
        } else if c == 'f' {
            scan_lit(s, i + 1, line, col2, seq!['a', 'l', 's', 'e'], TokenModel::False)
        } else if is_digit_char(c) {
            // The digit is pushed back and re-read by the number scan.
            scan_num(s, i, line, col2, Seq::empty(), false)
        } else if c == '\n' {
            scan_main(s, i + 1, sat_inc(line), 0)
        } else if is_space_char(c) {
            scan_main(s, i + 1, line, col2)
        } else {
            emit(TokenModel::Bad { line, col: col2 }, scan_main(s, i + 1, line, col2))
        }
    }
}

/// Inside a string: everything up to the next quote is accumulated verbatim
/// in `acc`.  Exhaustion before a closing quote is the unterminated-string
/// error, reported at the opening quote's position.
pub open spec fn scan_str(s: Seq<u8>, i: int, line: int, col: int, acc: Seq<char>) -> ScanOut
    decreases s.len() - i, 0int,
{
    if i < 0 || i >= s.len() {
        ScanOut { toks: seq![TokenModel::Bad { line, col }], line, col }
    } else {
        let c = s[i] as char;
        if c == '"' {
            emit(TokenModel::Str { text: acc }, scan_main(s, i + 1, line, col))
        } else {
            scan_str(s, i + 1, line, col, acc.push(c))
        }
    }
}

/// Inside a number: digits and at most one decimal point are accumulated in
/// `acc`.  A recognized delimiter ends the number and is handed back to the
/// main scan (which counts it and processes it as usual); any other character
/// is a malformed-number error at the number's starting position.
pub open spec fn scan_num(s: Seq<u8>, i: int, line: int, col: int, acc: Seq<char>, dot: bool) -> ScanOut
    decreases s.len() - i, 0int,
{
    if i < 0 || i >= s.len() {
        ScanOut { toks: seq![TokenModel::Num { text: acc }], line, col }
    } else {
        let c = s[i] as char;
        if is_digit_char(c) {
            scan_num(s, i + 1, line, col, acc.push(c), dot)
        } else if c == '.' && !dot {
            scan_num(s, i + 1, line, col, acc.push('.'), true)
        } else if c == ' ' {
            // The delimiter goes back to the main scan, which skips it.
            emit(TokenModel::Num { text: acc }, scan_main(s, i + 1, line, sat_inc(col)))
        } else if c == ',' {
            ScanOut {
                toks: seq![TokenModel::Num { text: acc }, TokenModel::Comma]
                    + scan_main(s, i + 1, line, sat_inc(col)).toks,
                line: scan_main(s, i + 1, line, sat_inc(col)).line,
                col: scan_main(s, i + 1, line, sat_inc(col)).col,
            }
        } else if c == '}' {
            ScanOut {
                toks: seq![TokenModel::Num { text: acc }, TokenModel::CloseBrace]
                    + scan_main(s, i + 1, line, sat_inc(col)).toks,
                line: scan_main(s, i + 1, line, sat_inc(col)).line,
                col: scan_main(s, i + 1, line, sat_inc(col)).col,
            }
        } else if c == ']' {
            ScanOut {
                toks: seq![TokenModel::Num { text: acc }, TokenModel::CloseBracket]
                    + scan_main(s, i + 1, line, sat_inc(col)).toks,
                line: scan_main(s, i + 1, line, sat_inc(col)).line,
                col: scan_main(s, i + 1, line, sat_inc(col)).col,
            }
        } else {
            emit(TokenModel::Bad { line, col }, scan_main(s, i + 1, line, col))
        }
    }
}

/// Inside a `true`/`false` literal: the characters of `expect` are matched
/// one at a time; when all have matched, `t` is emitted.  A mismatch or
/// premature exhaustion is an error at the literal's starting position, and
/// the mismatching character is consumed.
pub open spec fn scan_lit(s: Seq<u8>, i: int, line: int, col: int, expect: Seq<char>, t: TokenModel) -> ScanOut
    decreases s.len() - i, 2int,
{
    if expect.len() == 0 {
        emit(t, scan_main(s, i, line, col))
    } else if i < 0 || i >= s.len() {
        ScanOut { toks: seq![TokenModel::Bad { line, col }], line, col }
    } else {
        let c = s[i] as char;
        if c == expect[0] {
            scan_lit(s, i + 1, line, col, expect.drop_first(), t)
        } else {
            emit(TokenModel::Bad { line, col }, scan_main(s, i + 1, line, col))
        }
    }
}

/// The models of a sequence of tokens.
pub open spec fn toks_of(ts: Seq<Token>) -> Seq<TokenModel> {
    ts.map_values(|t: Token| t@)
}

/// `entry` (the scan from some earlier position) emits `emitted` and then
/// continues as the main scan from position `i` with the given counters.
pub open spec fn continues(
    entry: ScanOut,
    emitted: Seq<TokenModel>,
    s: Seq<u8>,
    i: int,
    line: int,
    col: int,
) -> bool {
    let rest = scan_main(s, i, line, col);
    &&& entry.toks == emitted + rest.toks
    &&& entry.line == rest.line
    &&& entry.col == rest.col
}

/// Relies on `String::push`: appends the one character to the end of the
/// string.
#[verifier::external_body]
fn push_char(s: &mut String, c: char)
    ensures
        final(s)@ == old(s)@.push(c),
{
    s.push(c);
}

/// The decimal digits, executably.
fn is_digit(c: char) -> (r: bool)
    ensures
        r == is_digit_char(c),
{
    let d = c as u32;
    48 <= d && d <= 57
}

/// The recognized whitespace code points other than the newline, executably.
fn is_space(c: char) -> (r: bool)
    ensures
        r == is_space_char(c),
{
    c == '\u{0009}' || c == '\u{000b}' || c == '\u{000c}' || c == '\u{000d}' || c == '\u{0020}'
        || c == '\u{0085}' || c == '\u{00a0}' || c == '\u{1680}' || c == '\u{180e}'
        || c == '\u{2000}' || c == '\u{2001}' || c == '\u{2002}' || c == '\u{2003}'
        || c == '\u{2004}' || c == '\u{2005}' || c == '\u{2006}' || c == '\u{2007}'
        || c == '\u{2008}' || c == '\u{2009}' || c == '\u{200a}' || c == '\u{200b}'
        || c == '\u{200c}' || c == '\u{200d}' || c == '\u{2028}' || c == '\u{2029}'
        || c == '\u{202f}' || c == '\u{205f}' || c == '\u{2060}' || c == '\u{3000}'
        || c == '\u{feff}'
}

/// The scanner: a character source and the line/column counters used for
/// diagnostics.  The counters saturate at the largest `usize` (see
/// [`sat_inc`]); a newline resets the column counter and advances the line
/// counter.
pub struct Tokenizer {
    pub stream: InputStream,
    pub line_number: usize,
    pub char_number: usize,
}

impl Tokenizer {
    /// A scanner over the UTF-8 bytes of `input`, at line 1, column 0.
    pub fn new(input: &str) -> (t: Tokenizer)
        ensures
            t.stream.buffer@ == input.spec_bytes(),
            t.stream.index == 0,
            t.line_number == 1,
            t.char_number == 0,
    {
        Tokenizer { stream: InputStream::new(input), line_number: 1, char_number: 0 }
    }

    /// One forward pass over the whole character source, classifying runs of
    /// characters into tokens: exactly the tokens of [`scan_main`] from the
    /// current position, in the order they were recognized, with the line and
    /// column counters left as the model says.
    pub fn tokenize(&mut self) -> (res: Vec<Token>)
        ensures
            ({
                let target = scan_main(
                    old(self).stream.buffer@,
                    old(self).stream.index as int,
                    old(self).line_number as int,
                    old(self).char_number as int,
                );
                &&& toks_of(res@) == target.toks
                &&& final(self).line_number as int == target.line
                &&& final(self).char_number as int == target.col
            }),
            final(self).stream.buffer@ == old(self).stream.buffer@,
            old(self).stream.index <= old(self).stream.buffer@.len()
                ==> final(self).stream.index == old(self).stream.buffer@.len(),
            old(self).stream.index > old(self).stream.buffer@.len()
                ==> final(self).stream.index == old(self).stream.index,
    {
        let ghost s = old(self).stream.buffer@;
        let ghost target = scan_main(
            s,
            old(self).stream.index as int,
            old(self).line_number as int,
            old(self).char_number as int,
        );
        let mut res: Vec<Token> = Vec::new();
        proof {
            assert(target.toks =~= toks_of(res@) + target.toks);
        }
        while self.stream.index < self.stream.buffer.len()
            invariant
                s == old(self).stream.buffer@,
                target == scan_main(
                    s,
                    old(self).stream.index as int,
                    old(self).line_number as int,
                    old(self).char_number as int,
                ),
                self.stream.buffer@ == s,
                old(self).stream.index <= self.stream.index,
                old(self).stream.index <= s.len() ==> self.stream.index <= s.len(),
                old(self).stream.index > s.len() ==> self.stream.index == old(self).stream.index,
                continues(
                    target,
                    toks_of(res@),
                    s,
                    self.stream.index as int,
                    self.line_number as int,
                    self.char_number as int,
                ),
            decreases s.len() - self.stream.index,
        {
            let ghost res0 = res@;
            let ghost i = self.stream.index as int;
            let ghost line0 = self.line_number as int;
            let ghost col0 = self.char_number as int;
            let copt = self.stream.get_char();
            let c = copt.unwrap();
            // The column counter saturates at the largest `usize` (see `sat_inc`).
            if self.char_number < usize::MAX {
                self.char_number = self.char_number + 1;
            }
            proof {
                assert(self.char_number as int == sat_inc(col0));
            }
            if c == '"' {
                self.handle_string(&mut res);
                proof {
                    assert(res@ =~= res0.push(res@.last()));
                    assert(toks_of(res@) =~= toks_of(res0).push(res@.last()@));
                    assert(target.toks =~= toks_of(res@) + scan_main(
                        s,
                        self.stream.index as int,
                        self.line_number as int,
                        self.char_number as int,
                    ).toks);
                }
            } else if c == ',' {
                res.push(Token::Comma);
                proof {
                    assert(toks_of(res@) =~= toks_of(res0).push(TokenModel::Comma));
                    assert(target.toks =~= toks_of(res@) + scan_main(
                        s,
                        self.stream.index as int,
                        self.line_number as int,
                        self.char_number as int,
                    ).toks);
                }
            } else if c == '{' {
                res.push(Token::OpenCurlyBrace);
                proof {
                    assert(toks_of(res@) =~= toks_of(res0).push(TokenModel::OpenBrace));
                    assert(target.toks =~= toks_of(res@) + scan_main(
                        s,
                        self.stream.index as int,
                        self.line_number as int,
                        self.char_number as int,
                    ).toks);
                }
            } else if c == '}' {
                res.push(Token::ClosedCurlyBrace);
                proof {
                    assert(toks_of(res@) =~= toks_of(res0).push(TokenModel::CloseBrace));
                    assert(target.toks =~= toks_of(res@) + scan_main(
                        s,
                        self.stream.index as int,
                        self.line_number as int,
                        self.char_number as int,
                    ).toks);
                }
            } else if c == '[' {
                res.push(Token::OpenSquareBrace);
                proof {
                    assert(toks_of(res@) =~= toks_of(res0).push(TokenModel::OpenBracket));
                    assert(target.toks =~= toks_of(res@) + scan_main(
                        s,
                        self.stream.index as int,
                        self.line_number as int,
                        self.char_number as int,
                    ).toks);
                }
            } else if c == ']' {
                res.push(Token::ClosedSquareBrace);
                proof {
                    assert(toks_of(res@) =~= toks_of(res0).push(TokenModel::CloseBracket));
                    assert(target.toks =~= toks_of(res@) + scan_main(
                        s,
                        self.stream.index as int,
                        self.line_number as int,
                        self.char_number as int,
                    ).toks);
                }
            } else if c == ':' {
                res.push(Token::Colon);
                proof {
                    assert(toks_of(res@) =~= toks_of(res0).push(TokenModel::Colon));
                    assert(target.toks =~= toks_of(res@) + scan_main(
                        s,
                        self.stream.index as int,
                        self.line_number as int,
                        self.char_number as int,
                    ).toks);
                }
            } else if c == 't' {
                self.handle_true(&mut res);
                proof {
                    assert(res@ =~= res0.push(res@.last()));
                    assert(toks_of(res@) =~= toks_of(res0).push(res@.last()@));
                    assert(target.toks =~= toks_of(res@) + scan_main(
                        s,
                        self.stream.index as int,
                        self.line_number as int,
                        self.char_number as int,
                    ).toks);
                }
            } else if c == 'f' {
                self.handle_false(&mut res);
                proof {
                    assert(res@ =~= res0.push(res@.last()));
                    assert(toks_of(res@) =~= toks_of(res0).push(res@.last()@));
                    assert(target.toks =~= toks_of(res@) + scan_main(
                        s,
                        self.stream.index as int,
                        self.line_number as int,
                        self.char_number as int,
                    ).toks);
                }
            } else if is_digit(c) {
                self.stream.unseek();
                self.handle_number(&mut res);
                proof {
                    assert(res@ =~= res0.push(res@.last()));
                    assert(toks_of(res@) =~= toks_of(res0).push(res@.last()@));
                    assert(target.toks =~= toks_of(res@) + scan_main(
                        s,
                        self.stream.index as int,
                        self.line_number as int,
                        self.char_number as int,
                    ).toks);
                }
            } else if c == '\n' {
                self.char_number = 0;
                // The line counter saturates at the largest `usize` too.
                if self.line_number < usize::MAX {
                    self.line_number = self.line_number + 1;
                }
                proof {
                    assert(self.line_number as int == sat_inc(line0));
                }
            } else if is_space(c) {
                // Whitespace is skipped with no token emitted.
            } else {
                res.push(Token::BadToken { line_number: self.line_number, char_number: self.char_number });
                proof {
                    assert(toks_of(res@) =~= toks_of(res0).push(
                        TokenModel::Bad { line: line0, col: sat_inc(col0) },
                    ));
                    assert(target.toks =~= toks_of(res@) + scan_main(
                        s,
                        self.stream.index as int,
                        self.line_number as int,
                        self.char_number as int,
                    ).toks);
                }
            }
        }
        proof {
            assert(target.toks =~= toks_of(res@));
        }
        res
    }

    /// String recognition, entered after the opening quote was consumed:
    /// characters are taken verbatim until the next quote; exhaustion first
    /// yields a `BadToken` at the opening quote's position.
    fn handle_string(&mut self, tokens: &mut Vec<Token>)
        ensures
            final(self).stream.buffer@ == old(self).stream.buffer@,
            final(self).line_number == old(self).line_number,
            final(self).char_number == old(self).char_number,
            old(self).stream.index <= final(self).stream.index,
            old(self).stream.index <= old(self).stream.buffer@.len()
                ==> final(self).stream.index <= old(self).stream.buffer@.len(),
            final(tokens)@.len() == old(tokens)@.len() + 1,
            final(tokens)@.subrange(0, old(tokens)@.len() as int) == old(tokens)@,
            continues(
                scan_str(
                    old(self).stream.buffer@,
                    old(self).stream.index as int,
                    old(self).line_number as int,
                    old(self).char_number as int,
                    Seq::empty(),
                ),
                seq![final(tokens)@.last()@],
                old(self).stream.buffer@,
                final(self).stream.index as int,
                old(self).line_number as int,
                old(self).char_number as int,
            ),
    {
        let ghost s = old(self).stream.buffer@;
        let ghost line = old(self).line_number as int;
        let ghost col = old(self).char_number as int;
        let ghost entry = scan_str(s, old(self).stream.index as int, line, col, Seq::empty());
        let mut string_val = String::new();
        while self.stream.index < self.stream.buffer.len()
            invariant
                s == old(self).stream.buffer@,
                line == old(self).line_number as int,
                col == old(self).char_number as int,
                entry == scan_str(s, old(self).stream.index as int, line, col, Seq::empty()),
                self.stream.buffer@ == s,
                self.line_number == old(self).line_number,
                self.char_number == old(self).char_number,
                old(self).stream.index <= self.stream.index,
                old(self).stream.index <= s.len() ==> self.stream.index <= s.len(),
                tokens@ == old(tokens)@,
                entry == scan_str(s, self.stream.index as int, line, col, string_val@),
            decreases s.len() - self.stream.index,
        {
            let copt = self.stream.get_char();
            let c = copt.unwrap();
            if c == '"' {
                tokens.push(Token::String { value: string_val });
                proof {
                    assert(tokens@.subrange(0, old(tokens)@.len() as int) =~= old(tokens)@);
                }
                return;
            }
            push_char(&mut string_val, c);
        }
        tokens.push(Token::BadToken { line_number: self.line_number, char_number: self.char_number });
        proof {
            assert(tokens@.subrange(0, old(tokens)@.len() as int) =~= old(tokens)@);
            assert(entry.toks =~= seq![tokens@.last()@] + scan_main(s, self.stream.index as int, line, col).toks);
        }
    }

    /// Number recognition, entered at the first digit (which the main loop
    /// pushed back): digits and at most one decimal point are accumulated; a
    /// recognized delimiter is pushed back for the main loop; any other
    /// character yields a `BadToken` at the number's starting position.
    fn handle_number(&mut self, tokens: &mut Vec<Token>)
        ensures
            final(self).stream.buffer@ == old(self).stream.buffer@,
            final(self).line_number == old(self).line_number,
            final(self).char_number == old(self).char_number,
            old(self).stream.index <= final(self).stream.index,
            old(self).stream.index < old(self).stream.buffer@.len() && is_digit_char(
                old(self).stream.buffer@[old(self).stream.index as int] as char,
            ) ==> old(self).stream.index < final(self).stream.index,
            old(self).stream.index <= old(self).stream.buffer@.len()
                ==> final(self).stream.index <= old(self).stream.buffer@.len(),
            final(tokens)@.len() == old(tokens)@.len() + 1,
            final(tokens)@.subrange(0, old(tokens)@.len() as int) == old(tokens)@,
            continues(
                scan_num(
                    old(self).stream.buffer@,
                    old(self).stream.index as int,
                    old(self).line_number as int,
                    old(self).char_number as int,
                    Seq::empty(),
                    false,
                ),
                seq![final(tokens)@.last()@],
                old(self).stream.buffer@,
                final(self).stream.index as int,
                old(self).line_number as int,
                old(self).char_number as int,
            ),
    {
        let ghost s = old(self).stream.buffer@;
        let ghost line = old(self).line_number as int;
        let ghost col = old(self).char_number as int;
        let ghost entry = scan_num(s, old(self).stream.index as int, line, col, Seq::empty(), false);
        let mut number = String::new();
        let mut dot = false;
        while self.stream.index < self.stream.buffer.len()
            invariant
                s == old(self).stream.buffer@,
                line == old(self).line_number as int,
                col == old(self).char_number as int,
                entry == scan_num(s, old(self).stream.index as int, line, col, Seq::empty(), false),
                self.stream.buffer@ == s,
                self.line_number == old(self).line_number,
                self.char_number == old(self).char_number,
                old(self).stream.index <= self.stream.index,
                old(self).stream.index <= s.len() ==> self.stream.index <= s.len(),
                tokens@ == old(tokens)@,
                entry == scan_num(s, self.stream.index as int, line, col, number@, dot),
            decreases s.len() - self.stream.index,
        {
            let copt = self.stream.get_char();
            let c = copt.unwrap();
            if is_digit(c) {
                push_char(&mut number, c);
            } else if c == '.' && !dot {
                push_char(&mut number, '.');
                dot = true;
            } else if c == ' ' || c == ',' || c == '}' || c == ']' {
                self.stream.unseek();
                tokens.push(Token::Number { value: number });
                proof {
                    assert(tokens@.subrange(0, old(tokens)@.len() as int) =~= old(tokens)@);
                    let rest = scan_main(s, self.stream.index as int, line, col);
                    assert(entry.toks =~= seq![tokens@.last()@] + rest.toks);
                }
                return;
            } else {
                tokens.push(Token::BadToken { line_number: self.line_number, char_number: self.char_number });
                proof {
                    assert(tokens@.subrange(0, old(tokens)@.len() as int) =~= old(tokens)@);
                }
                return;
            }
        }
        tokens.push(Token::Number { value: number });
        proof {
            assert(tokens@.subrange(0, old(tokens)@.len() as int) =~= old(tokens)@);
            assert(entry.toks =~= seq![tokens@.last()@] + scan_main(s, self.stream.index as int, line, col).toks);
        }
    }

    /// Literal matching for `true`, entered after the `t` was consumed: the
    /// remaining expected characters are checked one at a time; a mismatch or
    /// exhaustion yields a `BadToken` at the literal's starting position.
    fn handle_true(&mut self, tokens: &mut Vec<Token>)
        ensures
            final(self).stream.buffer@ == old(self).stream.buffer@,
            final(self).line_number == old(self).line_number,
            final(self).char_number == old(self).char_number,
            old(self).stream.index <= final(self).stream.index,
            old(self).stream.index <= old(self).stream.buffer@.len()
                ==> final(self).stream.index <= old(self).stream.buffer@.len(),
            final(tokens)@.len() == old(tokens)@.len() + 1,
            final(tokens)@.subrange(0, old(tokens)@.len() as int) == old(tokens)@,
            continues(
                scan_lit(
                    old(self).stream.buffer@,
                    old(self).stream.index as int,
                    old(self).line_number as int,
                    old(self).char_number as int,
                    seq!['r', 'u', 'e'],
                    TokenModel::True,
                ),
                seq![final(tokens)@.last()@],
                old(self).stream.buffer@,
                final(self).stream.index as int,
                old(self).line_number as int,
                old(self).char_number as int,
            ),
    {
        let ghost s = old(self).stream.buffer@;
        let ghost line = old(self).line_number as int;
        let ghost col = old(self).char_number as int;
        let ghost entry = scan_lit(s, old(self).stream.index as int, line, col, seq!['r', 'u', 'e'], TokenModel::True);
        let mut next: char;
        next = if let Some(character) = self.stream.get_char() {
            character
        } else {
            tokens.push(Token::BadToken { line_number: self.line_number, char_number: self.char_number });
            proof {
                assert(tokens@.subrange(0, old(tokens)@.len() as int) =~= old(tokens)@);
                assert(entry.toks =~= seq![tokens@.last()@] + scan_main(s, self.stream.index as int, line, col).toks);
            }
            return;
        };
        if next != 'r' {
            tokens.push(Token::BadToken { line_number: self.line_number, char_number: self.char_number });
            proof {
                assert(tokens@.subrange(0, old(tokens)@.len() as int) =~= old(tokens)@);
            }
            return;
        }
        proof {
            assert(seq!['r', 'u', 'e'].drop_first() =~= seq!['u', 'e']);
            assert(entry == scan_lit(s, self.stream.index as int, line, col, seq!['u', 'e'], TokenModel::True));
        }
        next = if let Some(character) = self.stream.get_char() {
            character
        } else {
            tokens.push(Token::BadToken { line_number: self.line_number, char_number: self.char_number });
            proof {
                assert(tokens@.subrange(0, old(tokens)@.len() as int) =~= old(tokens)@);
                assert(entry.toks =~= seq![tokens@.last()@] + scan_main(s, self.stream.index as int, line, col).toks);
            }
            return;
        };
        if next != 'u' {
            tokens.push(Token::BadToken { line_number: self.line_number, char_number: self.char_number });
            proof {
                assert(tokens@.subrange(0, old(tokens)@.len() as int) =~= old(tokens)@);
            }
            return;
        }
        proof {
            assert(seq!['u', 'e'].drop_first() =~= seq!['e']);
            assert(entry == scan_lit(s, self.stream.index as int, line, col, seq!['e'], TokenModel::True));
        }
        next = if let Some(character) = self.stream.get_char() {
            character
        } else {
            tokens.push(Token::BadToken { line_number: self.line_number, char_number: self.char_number });
            proof {
                assert(tokens@.subrange(0, old(tokens)@.len() as int) =~= old(tokens)@);
                assert(entry.toks =~= seq![tokens@.last()@] + scan_main(s, self.stream.index as int, line, col).toks);
            }
            return;
        };
        if next != 'e' {
            tokens.push(Token::BadToken { line_number: self.line_number, char_number: self.char_number });
            proof {
                assert(tokens@.subrange(0, old(tokens)@.len() as int) =~= old(tokens)@);
            }
            return;
        }
        proof {
            assert(seq!['e'].drop_first() =~= Seq::<char>::empty());
            assert(entry == scan_lit(s, self.stream.index as int, line, col, Seq::<char>::empty(), TokenModel::True));
        }
        tokens.push(Token::True);
        proof {
            assert(tokens@.subrange(0, old(tokens)@.len() as int) =~= old(tokens)@);
        }
    }

    /// Literal matching for `false`, entered after the `f` was consumed; see
    /// [`Tokenizer::handle_true`].
    fn handle_false(&mut self, tokens: &mut Vec<Token>)
        ensures
            final(self).stream.buffer@ == old(self).stream.buffer@,
            final(self).line_number == old(self).line_number,
            final(self).char_number == old(self).char_number,
            old(self).stream.index <= final(self).stream.index,
            old(self).stream.index <= old(self).stream.buffer@.len()
                ==> final(self).stream.index <= old(self).stream.buffer@.len(),
            final(tokens)@.len() == old(tokens)@.len() + 1,
            final(tokens)@.subrange(0, old(tokens)@.len() as int) == old(tokens)@,
            continues(
                scan_lit(
                    old(self).stream.buffer@,
                    old(self).stream.index as int,
                    old(self).line_number as int,
                    old(self).char_number as int,
                    seq!['a', 'l', 's', 'e'],
                    TokenModel::False,
                ),
                seq![final(tokens)@.last()@],
                old(self).stream.buffer@,
                final(self).stream.index as int,
                old(self).line_number as int,
                old(self).char_number as int,
            ),
    {
        let ghost s = old(self).stream.buffer@;
        let ghost line = old(self).line_number as int;
        let ghost col = old(self).char_number as int;
        let ghost entry = scan_lit(s, old(self).stream.index as int, line, col, seq!['a', 'l', 's', 'e'], TokenModel::False);
        let mut next: char;
        next = if let Some(character) = self.stream.get_char() {
            character
        } else {
            tokens.push(Token::BadToken { line_number: self.line_number, char_number: self.char_number });
            proof {
                assert(tokens@.subrange(0, old(tokens)@.len() as int) =~= old(tokens)@);
                assert(entry.toks =~= seq![tokens@.last()@] + scan_main(s, self.stream.index as int, line, col).toks);
            }
            return;
        };
        if next != 'a' {
            tokens.push(Token::BadToken { line_number: self.line_number, char_number: self.char_number });
            proof {
                assert(tokens@.subrange(0, old(tokens)@.len() as int) =~= old(tokens)@);
            }
            return;
        }
        proof {
            assert(seq!['a', 'l', 's', 'e'].drop_first() =~= seq!['l', 's', 'e']);
            assert(entry == scan_lit(s, self.stream.index as int, line, col, seq!['l', 's', 'e'], TokenModel::False));
        }
        next = if let Some(character) = self.stream.get_char() {
            character
        } else {
            tokens.push(Token::BadToken { line_number: self.line_number, char_number: self.char_number });
            proof {
                assert(tokens@.subrange(0, old(tokens)@.len() as int) =~= old(tokens)@);
                assert(entry.toks =~= seq![tokens@.last()@] + scan_main(s, self.stream.index as int, line, col).toks);
            }
            return;
        };
        if next != 'l' {
            tokens.push(Token::BadToken { line_number: self.line_number, char_number: self.char_number });
            proof {
                assert(tokens@.subrange(0, old(tokens)@.len() as int) =~= old(tokens)@);
            }
            return;
        }
        proof {
            assert(seq!['l', 's', 'e'].drop_first() =~= seq!['s', 'e']);
            assert(entry == scan_lit(s, self.stream.index as int, line, col, seq!['s', 'e'], TokenModel::False));
        }
        next = if let Some(character) = self.stream.get_char() {
            character
        } else {
            tokens.push(Token::BadToken { line_number: self.line_number, char_number: self.char_number });
            proof {
                assert(tokens@.subrange(0, old(tokens)@.len() as int) =~= old(tokens)@);
                assert(entry.toks =~= seq![tokens@.last()@] + scan_main(s, self.stream.index as int, line, col).toks);
            }
            return;
        };
        if next != 's' {
            tokens.push(Token::BadToken { line_number: self.line_number, char_number: self.char_number });
            proof {
                assert(tokens@.subrange(0, old(tokens)@.len() as int) =~= old(tokens)@);
            }
            return;
        }
        proof {
            assert(seq!['s', 'e'].drop_first() =~= seq!['e']);
            assert(entry == scan_lit(s, self.stream.index as int, line, col, seq!['e'], TokenModel::False));
        }
        next = if let Some(character) = self.stream.get_char() {
            character
        } else {
            tokens.push(Token::BadToken { line_number: self.line_number, char_number: self.char_number });
            proof {
                assert(tokens@.subrange(0, old(tokens)@.len() as int) =~= old(tokens)@);
                assert(entry.toks =~= seq![tokens@.last()@] + scan_main(s, self.stream.index as int, line, col).toks);
            }
            return;
        };
        if next != 'e' {
            tokens.push(Token::BadToken { line_number: self.line_number, char_number: self.char_number });
            proof {
                assert(tokens@.subrange(0, old(tokens)@.len() as int) =~= old(tokens)@);
            }
            return;
        }
        proof {
            assert(seq!['e'].drop_first() =~= Seq::<char>::empty());
            assert(entry == scan_lit(s, self.stream.index as int, line, col, Seq::<char>::empty(), TokenModel::False));
        }
        tokens.push(Token::False);
        proof {
            assert(tokens@.subrange(0, old(tokens)@.len() as int) =~= old(tokens)@);
        }
    }
}

} // verus!
