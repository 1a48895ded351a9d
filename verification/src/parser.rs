//! Recursive-descent parser over the token sequence.
//!
//! The parser's behaviour is specified by the two mutually recursive spec
//! functions [`spec_obj`] and [`spec_arr`], which read the token sequence
//! from a position and say, for every state of the grammar machine, what
//! value is produced or which violation is reported, and where the read
//! cursor stands afterwards.  [`Parser::parse_obj`] is proved to return
//! exactly what the model says.

pub mod parser_state;

use vstd::prelude::*;
use vstd::string::*;

use crate::tokenizer::token::{kind_of, Token, TokenKind, TokenModel};
use crate::tokenizer::{scan_main, toks_of, Tokenizer};
use crate::value::{
    array_model, distinct_keys, lemma_array_model_push, object_model, value_model, value_wf,
    Value, ValueModel,
};
use parser_state::ParserState;

verus! {

/// A violation that aborts the parse: either a lexical error carried by a
/// `BadToken` (with its 1-based line and per-line character position), or a
/// grammar violation naming what was expected and the kind of token found.
#[derive(Debug, PartialEq)]
pub enum ParseError {
    /// Scanning failed at the given position.
    Lexical { line: usize, column: usize },
    /// The very first token of an object parse allowed a key or a bare
    /// value, and the token found was neither.
    ExpectedKeyOrValue { got: TokenKind },
    /// Mid-object, a key (or the closing brace) was expected.
    ExpectedKey { got: TokenKind },
    /// Something other than a colon followed a key.
    ExpectedColon { got: TokenKind },
    /// Something other than a value stood after a colon.
    ExpectedValue { got: TokenKind },
    /// Something other than a comma or a closing brace followed a value in
    /// an object.
    ExpectedCommaOrCloseBrace { got: TokenKind },
    /// Something other than an element or the closing bracket stood where an
    /// array element was expected.
    ExpectedElement { got: TokenKind },
    /// Something other than a comma or a closing bracket followed a value in
    /// an array.
    ExpectedCommaOrCloseBracket { got: TokenKind },
}

/// The mathematical model of a [`ParseError`].
pub enum ErrorModel {
    Lexical { line: int, col: int },
    ExpectedKeyOrValue { got: TokenKind },
    ExpectedKey { got: TokenKind },
    ExpectedColon { got: TokenKind },
    ExpectedValue { got: TokenKind },
    ExpectedCommaOrCloseBrace { got: TokenKind },
    ExpectedElement { got: TokenKind },
    ExpectedCommaOrCloseBracket { got: TokenKind },
}

impl View for ParseError {
    type V = ErrorModel;

    open spec fn view(&self) -> ErrorModel {
        match self {
            ParseError::Lexical { line, column } => ErrorModel::Lexical {
                line: *line as int,
                col: *column as int,
            },
            ParseError::ExpectedKeyOrValue { got } => ErrorModel::ExpectedKeyOrValue { got: *got },
            ParseError::ExpectedKey { got } => ErrorModel::ExpectedKey { got: *got },
            ParseError::ExpectedColon { got } => ErrorModel::ExpectedColon { got: *got },
            ParseError::ExpectedValue { got } => ErrorModel::ExpectedValue { got: *got },
            ParseError::ExpectedCommaOrCloseBrace { got } => ErrorModel::ExpectedCommaOrCloseBrace {
                got: *got,
            },
            ParseError::ExpectedElement { got } => ErrorModel::ExpectedElement { got: *got },
            ParseError::ExpectedCommaOrCloseBracket { got } => {
                ErrorModel::ExpectedCommaOrCloseBracket { got: *got }
            },
        }
    }
}

/// What one parsing invocation yields: the value or the first violation, and
/// the position of the read cursor afterwards.
pub struct ParseStep {
    pub out: Result<ValueModel, ErrorModel>,
    pub next: int,
}

/// The model of one object-body parse from position `i` in state `state`,
/// with the fields accumulated so far, the key most recently read, and
/// whether this invocation has yet to consume its first token.
///
/// Exhaustion of the tokens returns the accumulated object.  A `BadToken`
/// surfaces as a lexical error in every state.  In `Idle`, the very first
/// token of the invocation may be a bare value — a scalar, an array opener,
/// or the object's own opening brace (which is skipped and the body parsed);
/// after that, only a key or the closing brace is admitted, and any other
/// token is a grammar violation.  A nested parse hands back its cursor
/// position `sub.next`, which always lies in `i < sub.next <= toks.len()`;
/// the bounds check in the definition only keeps the recursion well-founded.
pub open spec fn spec_obj(
    toks: Seq<TokenModel>,
    i: int,
    state: ParserState,
    fields: Map<Seq<char>, ValueModel>,
    key: Seq<char>,
    first: bool,
) -> ParseStep
    decreases toks.len() - i,
{
    if i < 0 || i >= toks.len() {
        ParseStep { out: Ok(ValueModel::Object(fields)), next: i }
    } else {
        let t = toks[i];
        match state {
            ParserState::Idle => match t {
                TokenModel::Str { text } => spec_obj(
                    toks,
                    i + 1,
                    ParserState::GotName,
                    fields,
                    text,
                    false,
                ),
                TokenModel::Num { text } => if first {
                    ParseStep { out: Ok(ValueModel::Number(text)), next: i + 1 }
                } else {
                    ParseStep { out: Err(ErrorModel::ExpectedKey { got: TokenKind::Num }), next: i + 1 }
                },
                TokenModel::OpenBrace => if first {
                    spec_obj(toks, i + 1, ParserState::Idle, fields, key, false)
                } else {
                    ParseStep {
                        out: Err(ErrorModel::ExpectedKey { got: TokenKind::OpenBrace }),
                        next: i + 1,
                    }
                },
                TokenModel::CloseBrace => ParseStep { out: Ok(ValueModel::Object(fields)), next: i + 1 },
                TokenModel::OpenBracket => if first {
                    spec_arr(toks, i + 1, true, Seq::empty())
                } else {
                    ParseStep {
                        out: Err(ErrorModel::ExpectedKey { got: TokenKind::OpenBracket }),
                        next: i + 1,
                    }
                },
                TokenModel::CloseBracket => ParseStep {
                    out: Err(
                        if first {
                            ErrorModel::ExpectedKeyOrValue { got: TokenKind::CloseBracket }
                        } else {
                            ErrorModel::ExpectedKey { got: TokenKind::CloseBracket }
                        },
                    ),
                    next: i + 1,
                },
                TokenModel::Colon => ParseStep {
                    out: Err(
                        if first {
                            ErrorModel::ExpectedKeyOrValue { got: TokenKind::Colon }
                        } else {
                            ErrorModel::ExpectedKey { got: TokenKind::Colon }
                        },
                    ),
                    next: i + 1,
                },
                TokenModel::Comma => ParseStep {
                    out: Err(
                        if first {
                            ErrorModel::ExpectedKeyOrValue { got: TokenKind::Comma }
                        } else {
                            ErrorModel::ExpectedKey { got: TokenKind::Comma }
                        },
                    ),
                    next: i + 1,
                },
                TokenModel::True => if first {
                    ParseStep { out: Ok(ValueModel::Bool(true)), next: i + 1 }
                } else {
                    ParseStep { out: Err(ErrorModel::ExpectedKey { got: TokenKind::True }), next: i + 1 }
                },
                TokenModel::False => if first {
                    ParseStep { out: Ok(ValueModel::Bool(false)), next: i + 1 }
                } else {
                    ParseStep { out: Err(ErrorModel::ExpectedKey { got: TokenKind::False }), next: i + 1 }
                },
                TokenModel::Null => if first {
                    ParseStep { out: Ok(ValueModel::Null), next: i + 1 }
                } else {
                    ParseStep { out: Err(ErrorModel::ExpectedKey { got: TokenKind::Null }), next: i + 1 }
                },
                TokenModel::Bad { line, col } => ParseStep {
                    out: Err(ErrorModel::Lexical { line, col }),
                    next: i + 1,
                },
            },
            ParserState::GotName => match t {
                TokenModel::Colon => spec_obj(toks, i + 1, ParserState::GotColon, fields, key, false),
                TokenModel::Bad { line, col } => ParseStep {
                    out: Err(ErrorModel::Lexical { line, col }),
                    next: i + 1,
                },
                _ => ParseStep {
                    out: Err(ErrorModel::ExpectedColon { got: kind_of(t) }),
                    next: i + 1,
                },
            },
            ParserState::GotColon => match t {
                TokenModel::Str { text } => spec_obj(
                    toks,
                    i + 1,
                    ParserState::GotValue,
                    fields.insert(key, ValueModel::String(text)),
                    key,
                    false,
                ),
                TokenModel::Num { text } => spec_obj(
                    toks,
                    i + 1,
                    ParserState::GotValue,
                    fields.insert(key, ValueModel::Number(text)),
                    key,
                    false,
                ),
                TokenModel::True => spec_obj(
                    toks,
                    i + 1,
                    ParserState::GotValue,
                    fields.insert(key, ValueModel::Bool(true)),
                    key,
                    false,
                ),
                TokenModel::False => spec_obj(
                    toks,
                    i + 1,
                    ParserState::GotValue,
                    fields.insert(key, ValueModel::Bool(false)),
                    key,
                    false,
                ),
                TokenModel::Null => spec_obj(
                    toks,
                    i + 1,
                    ParserState::GotValue,
                    fields.insert(key, ValueModel::Null),
                    key,
                    false,
                ),
                TokenModel::OpenBrace => {
                    let sub = spec_obj(toks, i + 1, ParserState::Idle, Map::empty(), Seq::empty(), true);
                    match sub.out {
                        Ok(v) => if i < sub.next <= toks.len() {
                            spec_obj(
                                toks,
                                sub.next,
                                ParserState::GotValue,
                                fields.insert(key, v),
                                key,
                                false,
                            )
                        } else {
                            sub
                        },
                        Err(_) => sub,
                    }
                },
                TokenModel::OpenBracket => {
                    let sub = spec_arr(toks, i + 1, true, Seq::empty());
                    match sub.out {
                        Ok(v) => if i < sub.next <= toks.len() {
                            spec_obj(
                                toks,
                                sub.next,
                                ParserState::GotValue,
                                fields.insert(key, v),
                                key,
                                false,
                            )
                        } else {
                            sub
                        },
                        Err(_) => sub,
                    }
                },
                TokenModel::Bad { line, col } => ParseStep {
                    out: Err(ErrorModel::Lexical { line, col }),
                    next: i + 1,
                },
                _ => ParseStep {
                    out: Err(ErrorModel::ExpectedValue { got: kind_of(t) }),
                    next: i + 1,
                },
            },
            ParserState::GotValue => match t {
                TokenModel::Comma => spec_obj(toks, i + 1, ParserState::Idle, fields, key, false),
                TokenModel::CloseBrace => ParseStep { out: Ok(ValueModel::Object(fields)), next: i + 1 },
                TokenModel::Bad { line, col } => ParseStep {
                    out: Err(ErrorModel::Lexical { line, col }),
                    next: i + 1,
                },
                _ => ParseStep {
                    out: Err(ErrorModel::ExpectedCommaOrCloseBrace { got: kind_of(t) }),
                    next: i + 1,
                },
            },
        }
    }
}

/// The model of one array-body parse from position `i`, with the elements
/// accumulated so far.  `expect_value` alternates: an element is expected
/// first, then a comma or a closing bracket after each element.  A closing
/// bracket in either state closes the array; exhaustion returns the
/// accumulated array.
pub open spec fn spec_arr(
    toks: Seq<TokenModel>,
    i: int,
    expect_value: bool,
    items: Seq<ValueModel>,
) -> ParseStep
    decreases toks.len() - i,
{
    if i < 0 || i >= toks.len() {
        ParseStep { out: Ok(ValueModel::Array(items)), next: i }
    } else {
        let t = toks[i];
        if expect_value {
            match t {
                TokenModel::Str { text } => spec_arr(toks, i + 1, false, items.push(ValueModel::String(text))),
                TokenModel::Num { text } => spec_arr(toks, i + 1, false, items.push(ValueModel::Number(text))),
                TokenModel::True => spec_arr(toks, i + 1, false, items.push(ValueModel::Bool(true))),
                TokenModel::False => spec_arr(toks, i + 1, false, items.push(ValueModel::Bool(false))),
                TokenModel::Null => spec_arr(toks, i + 1, false, items.push(ValueModel::Null)),
                TokenModel::OpenBrace => {
                    let sub = spec_obj(toks, i + 1, ParserState::Idle, Map::empty(), Seq::empty(), true);
                    match sub.out {
                        Ok(v) => if i < sub.next <= toks.len() {
                            spec_arr(toks, sub.next, false, items.push(v))
                        } else {
                            sub
                        },
                        Err(_) => sub,
                    }
                },
                TokenModel::OpenBracket => {
                    let sub = spec_arr(toks, i + 1, true, Seq::empty());
                    match sub.out {
                        Ok(v) => if i < sub.next <= toks.len() {
                            spec_arr(toks, sub.next, false, items.push(v))
                        } else {
                            sub
                        },
                        Err(_) => sub,
                    }
                },
                TokenModel::CloseBracket => ParseStep { out: Ok(ValueModel::Array(items)), next: i + 1 },
                TokenModel::Bad { line, col } => ParseStep {
                    out: Err(ErrorModel::Lexical { line, col }),
                    next: i + 1,
                },
                _ => ParseStep {
                    out: Err(ErrorModel::ExpectedElement { got: kind_of(t) }),
                    next: i + 1,
                },
            }
        } else {
            match t {
                TokenModel::Comma => spec_arr(toks, i + 1, true, items),
                TokenModel::CloseBracket => ParseStep { out: Ok(ValueModel::Array(items)), next: i + 1 },
                TokenModel::Bad { line, col } => ParseStep {
                    out: Err(ErrorModel::Lexical { line, col }),
                    next: i + 1,
                },
                _ => ParseStep {
                    out: Err(ErrorModel::ExpectedCommaOrCloseBracket { got: kind_of(t) }),
                    next: i + 1,
                },
            }
        }
    }
}

/// Appending a field adds its key to the denoted map.
proof fn lemma_object_model_push(s: Seq<(String, Value)>, key: String, val: Value)
    ensures
        object_model(s.push((key, val))) == object_model(s).insert(key@, value_model(val)),
{
    assert(s.push((key, val)).drop_last() =~= s);
}

/// Overwriting the one field that carries `key` changes the denoted map as
/// an insertion for that key does.
proof fn lemma_object_model_update(s: Seq<(String, Value)>, k: int, key: String, val: Value)
    requires
        0 <= k < s.len(),
        s[k].0@ == key@,
        distinct_keys(s),
    ensures
        object_model(s.update(k, (key, val))) == object_model(s).insert(key@, value_model(val)),
    decreases s.len(),
{
    let s2 = s.update(k, (key, val));
    if k == s.len() - 1 {
        assert(s2.drop_last() =~= s.drop_last());
        assert(s2.last() == (key, val));
        assert(object_model(s.drop_last()).insert(s.last().0@, value_model(s.last().1)).insert(
            key@,
            value_model(val),
        ) =~= object_model(s.drop_last()).insert(key@, value_model(val)));
    } else {
        assert(distinct_keys(s.drop_last()));
        assert(s2.drop_last() =~= s.drop_last().update(k, (key, val)));
        lemma_object_model_update(s.drop_last(), k, key, val);
        assert(s2.last() == s.last());
        assert(key@ != s.last().0@);
        assert(object_model(s.drop_last()).insert(key@, value_model(val)).insert(
            s.last().0@,
            value_model(s.last().1),
        ) =~= object_model(s.drop_last()).insert(s.last().0@, value_model(s.last().1)).insert(
            key@,
            value_model(val),
        ));
    }
}

/// Inserts `(key, val)` into the field list: an existing field with the same
/// key has its value overwritten in place, otherwise the field is appended.
fn insert_field(fields: &mut Vec<(String, Value)>, key: String, val: Value)
    requires
        distinct_keys(old(fields)@),
        forall|j: int| 0 <= j < old(fields)@.len() ==> value_wf(#[trigger] old(fields)@[j].1),
        value_wf(val),
    ensures
        distinct_keys(final(fields)@),
        forall|j: int| 0 <= j < final(fields)@.len() ==> value_wf(#[trigger] final(fields)@[j].1),
        object_model(final(fields)@) == object_model(old(fields)@).insert(key@, value_model(val)),
{
    let mut k: usize = 0;
    while k < fields.len()
        invariant
            fields@ == old(fields)@,
            distinct_keys(fields@),
            forall|j: int| 0 <= j < fields@.len() ==> value_wf(#[trigger] fields@[j].1),
            value_wf(val),
            k <= fields@.len(),
            forall|j: int| 0 <= j < k ==> (#[trigger] fields@[j]).0@ != key@,
        decreases fields@.len() - k,
    {
        if fields[k].0 == key {
            let ghost s = fields@;
            fields.set(k, (key, val));
            proof {
                lemma_object_model_update(s, k as int, key, val);
                assert forall|i: int, j: int| 0 <= i < j < fields@.len() implies fields@[i].0@
                    != fields@[j].0@ by {
                    assert(s[i].0@ != s[j].0@);
                }
            }
            return;
        }
        k = k + 1;
    }
    let ghost s = fields@;
    fields.push((key, val));
    proof {
        lemma_object_model_push(s, key, val);
        assert forall|i: int, j: int| 0 <= i < j < fields@.len() implies fields@[i].0@
            != fields@[j].0@ by {
            if j < s.len() {
                assert(s[i].0@ != s[j].0@);
            }
        }
    }
}

/// The recursive-descent parser: the materialized token sequence of one scan
/// pass, and a single forward-only read cursor that all recursive
/// invocations share.
pub struct Parser {
    token_stream: Vec<Token>,
    index: usize,
}

impl Parser {
    /// The models of the tokens the parser holds.
    pub closed spec fn toks(&self) -> Seq<TokenModel> {
        toks_of(self.token_stream@)
    }

    /// The position of the read cursor.
    pub closed spec fn pos(&self) -> int {
        self.index as int
    }

    /// A parser with no tokens and the cursor at the start.
    pub fn new() -> (p: Parser)
        ensures
            p.toks() == Seq::<TokenModel>::empty(),
            p.pos() == 0,
    {
        let p = Parser { token_stream: Vec::new(), index: 0 };
        proof {
            assert(p.toks() =~= Seq::<TokenModel>::empty());
        }
        p
    }

    /// Scans `input` in one full pass and stores the token sequence.  The
    /// read cursor is left where it was — at the start, for a parser that
    /// was just made.
    pub fn read_into_stream(&mut self, input: &str)
        ensures
            final(self).toks() == scan_main(input.spec_bytes(), 0, 1, 0).toks,
            final(self).pos() == old(self).pos(),
    {
        let mut tokenizer = Tokenizer::new(input);
        self.token_stream = tokenizer.tokenize();
    }

    /// Hands out the token at the cursor and advances, or reports exhaustion.
    fn get_token(&mut self) -> (r: Option<Token>)
        ensures
            final(self).toks() == old(self).toks(),
            match r {
                Some(t) => {
                    &&& old(self).pos() < old(self).toks().len()
                    &&& t@ == old(self).toks()[old(self).pos()]
                    &&& final(self).pos() == old(self).pos() + 1
                },
                None => {
                    &&& old(self).pos() >= old(self).toks().len()
                    &&& final(self).pos() == old(self).pos()
                },
            },
    {
        if self.index >= self.token_stream.len() {
            return None;
        }
        let tok = self.token_stream[self.index].clone();
        self.index = self.index + 1;

        Some(tok)
    }

    /// One array-body parse, entered after the `[` was consumed: returns
    /// exactly the value or violation of [`spec_arr`] from the cursor's
    /// position, and leaves the cursor where the model says.
    fn parse_arr(&mut self) -> (r: Result<Value, ParseError>)
        ensures
            final(self).toks() == old(self).toks(),
            old(self).pos() <= final(self).pos(),
            old(self).pos() <= old(self).toks().len() ==> final(self).pos() <= old(
                self,
            ).toks().len(),
            old(self).pos() > old(self).toks().len() ==> final(self).pos() == old(self).pos(),
            ({
                let step = spec_arr(old(self).toks(), old(self).pos(), true, Seq::empty());
                &&& final(self).pos() == step.next
                &&& match r {
                    Ok(v) => step.out == Ok::<ValueModel, ErrorModel>(v@) && value_wf(v),
                    Err(e) => step.out == Err::<ValueModel, ErrorModel>(e@),
                }
            }),
        decreases old(self).toks().len() - old(self).pos(),
    {
        let ghost toks = old(self).toks();
        let ghost i0 = old(self).pos();
        let ghost step0 = spec_arr(toks, i0, true, Seq::empty());
        let mut arr: Vec<Value> = Vec::new();
        let mut state = ParserState::Idle;

        while self.index < self.token_stream.len()
            invariant
                toks == old(self).toks(),
                i0 == old(self).pos(),
                step0 == spec_arr(toks, i0, true, Seq::empty()),
                self.toks() == toks,
                i0 <= self.pos(),
                i0 <= toks.len() ==> self.pos() <= toks.len(),
                i0 > toks.len() ==> self.pos() == i0,
                state is Idle || state is GotValue,
                forall|j: int| 0 <= j < arr@.len() ==> value_wf(#[trigger] arr@[j]),
                step0 == spec_arr(toks, self.pos(), state is Idle, array_model(arr@)),
            decreases toks.len() - self.pos(),
        {
            let tok_opt = self.get_token();
            let tok = tok_opt.unwrap();
            match state {
                ParserState::Idle => {
                    match tok {
                        Token::String { value } => {
                            let ghost arr0 = arr@;
                            arr.push(Value::String(value));
                            state = ParserState::GotValue;
                            proof {
                                lemma_array_model_push(arr0, arr@.last());
                            }
                        },
                        Token::Number { value } => {
                            let ghost arr0 = arr@;
                            arr.push(Value::Number(value));
                            state = ParserState::GotValue;
                            proof {
                                lemma_array_model_push(arr0, arr@.last());
                            }
                        },
                        Token::OpenCurlyBrace => {
                            let sub_r = self.parse_obj();
                            match sub_r {
                                Ok(val) => {
                                    let ghost arr0 = arr@;
                                    arr.push(val);
                                    state = ParserState::GotValue;
                                    proof {
                                        lemma_array_model_push(arr0, arr@.last());
                                    }
                                },
                                Err(e) => {
                                    return Err(e);
                                },
                            }
                        },
                        Token::ClosedCurlyBrace => {
                            return Err(ParseError::ExpectedElement { got: TokenKind::CloseBrace });
                        },
                        Token::OpenSquareBrace => {
                            let sub_r = self.parse_arr();
                            match sub_r {
                                Ok(val) => {
                                    let ghost arr0 = arr@;
                                    arr.push(val);
                                    state = ParserState::GotValue;
                                    proof {
                                        lemma_array_model_push(arr0, arr@.last());
                                    }
                                },
                                Err(e) => {
                                    return Err(e);
                                },
                            }
                        },
                        Token::ClosedSquareBrace => {
                            return Ok(Value::Array(arr));
                        },
                        Token::Colon => {
                            return Err(ParseError::ExpectedElement { got: TokenKind::Colon });
                        },
                        Token::Comma => {
                            return Err(ParseError::ExpectedElement { got: TokenKind::Comma });
                        },
                        Token::True => {
                            let ghost arr0 = arr@;
                            arr.push(Value::Bool(true));
                            state = ParserState::GotValue;
                            proof {
                                lemma_array_model_push(arr0, arr@.last());
                            }
                        },
                        Token::False => {
                            let ghost arr0 = arr@;
                            arr.push(Value::Bool(false));
                            state = ParserState::GotValue;
                            proof {
                                lemma_array_model_push(arr0, arr@.last());
                            }
                        },
                        Token::Null => {
                            let ghost arr0 = arr@;
                            arr.push(Value::Null);
                            state = ParserState::GotValue;
                            proof {
                                lemma_array_model_push(arr0, arr@.last());
                            }
                        },
                        Token::BadToken { line_number, char_number } => {
                            return Err(ParseError::Lexical { line: line_number, column: char_number });
                        },
                    }
                },
                _ => {
                    // Only `Idle` and `GotValue` occur in an array body.
                    match tok {
                        Token::Comma => {
                            state = ParserState::Idle;
                        },
                        Token::ClosedSquareBrace => {
                            return Ok(Value::Array(arr));
                        },
                        Token::BadToken { line_number, char_number } => {
                            return Err(ParseError::Lexical { line: line_number, column: char_number });
                        },
                        _ => {
                            let got = tok.kind();
                            return Err(ParseError::ExpectedCommaOrCloseBracket { got });
                        },
                    }
                },
            }
        }

        Ok(Value::Array(arr))
    }

    /// One object-body parse, also the entry point for a whole document:
    /// returns exactly the value or violation of [`spec_obj`] from the
    /// cursor's position (starting in `Idle` with no fields, before the
    /// invocation's first token), and leaves the cursor where the model
    /// says.  The value returned is well-formed: no object in it holds two
    /// fields with the same key.
    pub fn parse_obj(&mut self) -> (r: Result<Value, ParseError>)
        ensures
            final(self).toks() == old(self).toks(),
            old(self).pos() <= final(self).pos(),
            old(self).pos() <= old(self).toks().len() ==> final(self).pos() <= old(
                self,
            ).toks().len(),
            old(self).pos() > old(self).toks().len() ==> final(self).pos() == old(self).pos(),
            ({
                let step = spec_obj(
                    old(self).toks(),
                    old(self).pos(),
                    ParserState::Idle,
                    Map::empty(),
                    Seq::empty(),
                    true,
                );
                &&& final(self).pos() == step.next
                &&& match r {
                    Ok(v) => step.out == Ok::<ValueModel, ErrorModel>(v@) && value_wf(v),
                    Err(e) => step.out == Err::<ValueModel, ErrorModel>(e@),
                }
            }),
        decreases old(self).toks().len() - old(self).pos(),
    {
        let ghost toks = old(self).toks();
        let ghost i0 = old(self).pos();
        let ghost step0 = spec_obj(toks, i0, ParserState::Idle, Map::empty(), Seq::empty(), true);
        let mut fields: Vec<(String, Value)> = Vec::new();
        let mut val_name = String::new();
        let mut state = ParserState::Idle;
        let mut first = true;

        while self.index < self.token_stream.len()
            invariant
                toks == old(self).toks(),
                i0 == old(self).pos(),
                step0 == spec_obj(toks, i0, ParserState::Idle, Map::empty(), Seq::empty(), true),
                self.toks() == toks,
                i0 <= self.pos(),
                i0 <= toks.len() ==> self.pos() <= toks.len(),
                i0 > toks.len() ==> self.pos() == i0,
                distinct_keys(fields@),
                forall|j: int| 0 <= j < fields@.len() ==> value_wf(#[trigger] fields@[j].1),
                step0 == spec_obj(toks, self.pos(), state, object_model(fields@), val_name@, first),
            decreases toks.len() - self.pos(),
        {
            let tok_opt = self.get_token();
            let tok = tok_opt.unwrap();
            match state {
                ParserState::Idle => {
                    match tok {
                        Token::String { value } => {
                            val_name = value;
                            state = ParserState::GotName;
                        },
                        Token::Number { value } => {
                            if first {
                                return Ok(Value::Number(value));
                            }
                            return Err(ParseError::ExpectedKey { got: TokenKind::Num });
                        },
                        Token::OpenCurlyBrace => {
                            // Admitted only as the invocation's first token:
                            // the object's own opener, consumed here.
                            if !first {
                                return Err(ParseError::ExpectedKey { got: TokenKind::OpenBrace });
                            }
                        },
                        Token::ClosedCurlyBrace => {
                            return Ok(Value::Object(fields));
                        },
                        Token::OpenSquareBrace => {
                            if first {
                                let sub_r = self.parse_arr();
                                return sub_r;
                            }
                            return Err(ParseError::ExpectedKey { got: TokenKind::OpenBracket });
                        },
                        Token::ClosedSquareBrace => {
                            if first {
                                return Err(
                                    ParseError::ExpectedKeyOrValue { got: TokenKind::CloseBracket },
                                );
                            }
                            return Err(ParseError::ExpectedKey { got: TokenKind::CloseBracket });
                        },
                        Token::Colon => {
                            if first {
                                return Err(ParseError::ExpectedKeyOrValue { got: TokenKind::Colon });
                            }
                            return Err(ParseError::ExpectedKey { got: TokenKind::Colon });
                        },
                        Token::Comma => {
                            if first {
                                return Err(ParseError::ExpectedKeyOrValue { got: TokenKind::Comma });
                            }
                            return Err(ParseError::ExpectedKey { got: TokenKind::Comma });
                        },
                        Token::True => {
                            if first {
                                return Ok(Value::Bool(true));
                            }
                            return Err(ParseError::ExpectedKey { got: TokenKind::True });
                        },
                        Token::False => {
                            if first {
                                return Ok(Value::Bool(false));
                            }
                            return Err(ParseError::ExpectedKey { got: TokenKind::False });
                        },
                        Token::Null => {
                            if first {
                                return Ok(Value::Null);
                            }
                            return Err(ParseError::ExpectedKey { got: TokenKind::Null });
                        },
                        Token::BadToken { line_number, char_number } => {
                            return Err(ParseError::Lexical { line: line_number, column: char_number });
                        },
                    }
                },
                ParserState::GotName => {
                    match tok {
                        Token::Colon => {
                            state = ParserState::GotColon;
                        },
                        Token::BadToken { line_number, char_number } => {
                            return Err(ParseError::Lexical { line: line_number, column: char_number });
                        },
                        _ => {
                            let got = tok.kind();
                            return Err(ParseError::ExpectedColon { got });
                        },
                    }
                },
                ParserState::GotColon => {
                    match tok {
                        Token::String { value } => {
                            insert_field(&mut fields, val_name.clone(), Value::String(value));
                        },
                        Token::Number { value } => {
                            insert_field(&mut fields, val_name.clone(), Value::Number(value));
                        },
                        Token::OpenCurlyBrace => {
                            let sub_r = self.parse_obj();
                            match sub_r {
                                Ok(val) => {
                                    insert_field(&mut fields, val_name.clone(), val);
                                },
                                Err(e) => {
                                    return Err(e);
                                },
                            }
                        },
                        Token::OpenSquareBrace => {
                            let sub_r = self.parse_arr();
                            match sub_r {
                                Ok(val) => {
                                    insert_field(&mut fields, val_name.clone(), val);
                                },
                                Err(e) => {
                                    return Err(e);
                                },
                            }
                        },
                        Token::True => {
                            insert_field(&mut fields, val_name.clone(), Value::Bool(true));
                        },
                        Token::False => {
                            insert_field(&mut fields, val_name.clone(), Value::Bool(false));
                        },
                        Token::Null => {
                            insert_field(&mut fields, val_name.clone(), Value::Null);
                        },
                        Token::BadToken { line_number, char_number } => {
                            return Err(ParseError::Lexical { line: line_number, column: char_number });
                        },
                        _ => {
                            let got = tok.kind();
                            return Err(ParseError::ExpectedValue { got });
                        },
                    }
                    state = ParserState::GotValue;
                },
                ParserState::GotValue => {
                    match tok {
                        Token::Comma => {
                            state = ParserState::Idle;
                        },
                        Token::ClosedCurlyBrace => {
                            return Ok(Value::Object(fields));
                        },
                        Token::BadToken { line_number, char_number } => {
                            return Err(ParseError::Lexical { line: line_number, column: char_number });
                        },
                        _ => {
                            let got = tok.kind();
                            return Err(ParseError::ExpectedCommaOrCloseBrace { got });
                        },
                    }
                },
            }
            first = false;
        }
        Ok(Value::Object(fields))
    }
}

} // verus!
