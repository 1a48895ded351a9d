//! Cross-function laws of the library, stated and proved once for all
//! inputs.
//!
//! The laws here connect the two stages end to end.  Every flat object of
//! key–scalar pairs round-trips: its rendered source text scans to the
//! expected token sequence and parses back to exactly the object that maps
//! each key to its scalar, a later duplicate key winning.  Nesting
//! round-trips at any depth: a chain of objects, each level wrapping the
//! next, parses back to the same nested shape.  The scanner recognizes no
//! `null` literal (`n` is an unrecognized character), so the round trips
//! cover strings, numbers and booleans.

use vstd::prelude::*;

use crate::parser::parser_state::ParserState;
use crate::parser::{spec_obj, ErrorModel, ParseStep};
use crate::spec_parse;
use crate::tokenizer::token::TokenModel;
use crate::tokenizer::{emit, is_digit_char, sat_inc, scan_lit, scan_main, scan_num, scan_str, ScanOut};
use crate::value::ValueModel;

verus! {

/// The characters that a byte sequence denotes, one character per byte.
pub open spec fn chars_of(b: Seq<u8>) -> Seq<char> {
    b.map_values(|x: u8| x as char)
}

/// A scalar of a flat object: a string (the bytes between its quotes), a
/// number (its digit run), or a boolean.
pub enum Scalar {
    Str(Seq<u8>),
    Num(Seq<u8>),
    Bool(bool),
}

/// The source text of one scalar.
pub open spec fn scalar_bytes(v: Scalar) -> Seq<u8> {
    match v {
        Scalar::Str(b) => seq![34u8] + b + seq![34u8],
        Scalar::Num(b) => b,
        Scalar::Bool(x) => if x {
            seq![116u8, 114u8, 117u8, 101u8]
        } else {
            seq![102u8, 97u8, 108u8, 115u8, 101u8]
        },
    }
}

/// A scalar that the scanner reads back exactly: a string must not contain a
/// quote; a number must start with a digit and consist of digits with at
/// most one decimal point.
pub open spec fn scalar_ok(v: Scalar) -> bool {
    match v {
        Scalar::Str(b) => forall|i: int| 0 <= i < b.len() ==> (#[trigger] b[i]) as char != '"',
        Scalar::Num(b) => {
            &&& b.len() > 0
            &&& is_digit_char(b[0] as char)
            &&& forall|i: int|
                0 <= i < b.len() ==> is_digit_char((#[trigger] b[i]) as char) || b[i] as char == '.'
            &&& forall|i: int, j: int|
                0 <= i < j < b.len() ==> !((#[trigger] b[i]) as char == '.' && (#[trigger] b[j]) as char
                    == '.')
        },
        Scalar::Bool(_) => true,
    }
}

/// The token that one scalar scans to.
pub open spec fn scalar_token(v: Scalar) -> TokenModel {
    match v {
        Scalar::Str(b) => TokenModel::Str { text: chars_of(b) },
        Scalar::Num(b) => TokenModel::Num { text: chars_of(b) },
        Scalar::Bool(x) => if x {
            TokenModel::True
        } else {
            TokenModel::False
        },
    }
}

/// The value that one scalar parses to.
pub open spec fn scalar_value(v: Scalar) -> ValueModel {
    match v {
        Scalar::Str(b) => ValueModel::String(chars_of(b)),
        Scalar::Num(b) => ValueModel::Number(chars_of(b)),
        Scalar::Bool(x) => ValueModel::Bool(x),
    }
}

/// A key that the scanner reads back exactly: no quote in it.
pub open spec fn key_ok(k: Seq<u8>) -> bool {
    forall|i: int| 0 <= i < k.len() ==> (#[trigger] k[i]) as char != '"'
}

/// The source text of the fields of a flat object, after the opening brace:
/// `"key":value` pairs separated by commas, then the closing brace.
pub open spec fn fields_text(pairs: Seq<(Seq<u8>, Scalar)>) -> Seq<u8>
    decreases pairs.len(),
{
    if pairs.len() == 0 {
        seq![125u8]
    } else {
        let head = seq![34u8] + pairs[0].0 + seq![34u8, 58u8] + scalar_bytes(pairs[0].1);
        if pairs.len() == 1 {
            head + seq![125u8]
        } else {
            head + seq![44u8] + fields_text(pairs.drop_first())
        }
    }
}

/// The source text of a whole flat object.
pub open spec fn flat_object_text(pairs: Seq<(Seq<u8>, Scalar)>) -> Seq<u8> {
    seq![123u8] + fields_text(pairs)
}

/// The tokens that the fields scan to, closing brace included.
pub open spec fn fields_tokens(pairs: Seq<(Seq<u8>, Scalar)>) -> Seq<TokenModel>
    decreases pairs.len(),
{
    if pairs.len() == 0 {
        seq![TokenModel::CloseBrace]
    } else {
        let head = seq![
            TokenModel::Str { text: chars_of(pairs[0].0) },
            TokenModel::Colon,
            scalar_token(pairs[0].1),
        ];
        if pairs.len() == 1 {
            head + seq![TokenModel::CloseBrace]
        } else {
            head + seq![TokenModel::Comma] + fields_tokens(pairs.drop_first())
        }
    }
}

/// The pairs inserted, in order, into `m`: a later pair with the same key
/// wins.
pub open spec fn flat_object_map_from(
    m: Map<Seq<char>, ValueModel>,
    pairs: Seq<(Seq<u8>, Scalar)>,
) -> Map<Seq<char>, ValueModel>
    decreases pairs.len(),
{
    if pairs.len() == 0 {
        m
    } else {
        flat_object_map_from(
            m.insert(chars_of(pairs[0].0), scalar_value(pairs[0].1)),
            pairs.drop_first(),
        )
    }
}

/// The map that a flat object of pairs denotes.
pub open spec fn flat_object_map(pairs: Seq<(Seq<u8>, Scalar)>) -> Map<Seq<char>, ValueModel> {
    flat_object_map_from(Map::empty(), pairs)
}

/// Splitting a known subrange at a concatenation boundary.
proof fn lemma_subrange_split<T>(s: Seq<T>, i: int, a: Seq<T>, b: Seq<T>)
    requires
        0 <= i,
        i + a.len() + b.len() <= s.len(),
        s.subrange(i, i + a.len() + b.len()) == a + b,
    ensures
        s.subrange(i, i + a.len() as int) == a,
        s.subrange(i + a.len() as int, i + a.len() + b.len()) == b,
{
    let ab = a + b;
    assert forall|j: int| 0 <= j < ab.len() implies s[i + j] == ab[j] by {
        assert(s.subrange(i, i + a.len() + b.len())[j] == s[i + j]);
    }
    assert forall|j: int| 0 <= j < a.len() implies s.subrange(i, i + a.len() as int)[j] == a[j] by {
        assert(s[i + j] == ab[j]);
    }
    assert(s.subrange(i, i + a.len() as int) =~= a);
    assert forall|j: int| 0 <= j < b.len() implies s.subrange(
        i + a.len() as int,
        i + a.len() + b.len(),
    )[j] == b[j] by {
        assert(s[i + (a.len() + j)] == ab[a.len() + j]);
    }
    assert(s.subrange(i + a.len() as int, i + a.len() + b.len()) =~= b);
}

/// Each element of a known subrange.
proof fn lemma_subrange_index<T>(s: Seq<T>, i: int, a: Seq<T>, j: int)
    requires
        0 <= i,
        i + a.len() <= s.len(),
        s.subrange(i, i + a.len() as int) == a,
        0 <= j < a.len(),
    ensures
        s[i + j] == a[j],
{
    assert(s.subrange(i, i + a.len() as int)[j] == s[i + j]);
}

/// The string scan consumes a quote-free run and its closing quote, emits
/// the accumulated text, and continues the main scan after the quote.
proof fn lemma_scan_string(s: Seq<u8>, i: int, line: int, col: int, acc: Seq<char>, b: Seq<u8>)
    requires
        0 <= i,
        i + b.len() + 1 <= s.len(),
        s.subrange(i, i + b.len() as int) == b,
        s[i + b.len()] as char == '"',
        forall|j: int| 0 <= j < b.len() ==> (#[trigger] b[j]) as char != '"',
    ensures
        scan_str(s, i, line, col, acc) == emit(
            TokenModel::Str { text: acc + chars_of(b) },
            scan_main(s, i + b.len() + 1, line, col),
        ),
    decreases b.len(),
{
    if b.len() == 0 {
        assert(acc + chars_of(b) =~= acc);
    } else {
        assert(b[0] == s.subrange(i, i + b.len() as int)[0]);
        assert(s.subrange(i + 1, i + b.len() as int) =~= b.drop_first());
        lemma_scan_string(s, i + 1, line, col, acc.push(b[0] as char), b.drop_first());
        assert(acc.push(b[0] as char) + chars_of(b.drop_first()) =~= acc + chars_of(b));
    }
}

/// The literal scan consumes exactly the expected characters, emits the
/// literal's token, and continues the main scan after it.
proof fn lemma_scan_literal(s: Seq<u8>, i: int, line: int, col: int, expect: Seq<char>, t: TokenModel)
    requires
        0 <= i,
        i + expect.len() <= s.len(),
        forall|j: int| 0 <= j < expect.len() ==> (#[trigger] s[i + j]) as char == expect[j],
    ensures
        scan_lit(s, i, line, col, expect, t) == emit(t, scan_main(s, i + expect.len(), line, col)),
    decreases expect.len(),
{
    if expect.len() > 0 {
        assert(s[i + 0] as char == expect[0]);
        assert forall|j: int| 0 <= j < expect.drop_first().len() implies (#[trigger] s[i + 1
            + j]) as char == expect.drop_first()[j] by {
            assert(s[i + (j + 1)] as char == expect[j + 1]);
        }
        lemma_scan_literal(s, i + 1, line, col, expect.drop_first(), t);
    }
}

/// The token of the delimiter that ends a number: a comma or a closing
/// brace.
pub open spec fn delim_token(c: char) -> TokenModel {
    if c == ',' {
        TokenModel::Comma
    } else {
        TokenModel::CloseBrace
    }
}

/// The number scan consumes a digit run (with at most one decimal point),
/// emits the accumulated text and the delimiter that follows, and continues
/// the main scan after the delimiter.
proof fn lemma_scan_number(
    s: Seq<u8>,
    i: int,
    line: int,
    col: int,
    acc: Seq<char>,
    dot: bool,
    b: Seq<u8>,
)
    requires
        0 <= i,
        i + b.len() + 1 <= s.len(),
        s.subrange(i, i + b.len() as int) == b,
        forall|j: int|
            0 <= j < b.len() ==> is_digit_char((#[trigger] b[j]) as char) || b[j] as char == '.',
        forall|j: int, l: int|
            0 <= j < l < b.len() ==> !((#[trigger] b[j]) as char == '.' && (#[trigger] b[l]) as char
                == '.'),
        dot ==> forall|j: int| 0 <= j < b.len() ==> (#[trigger] b[j]) as char != '.',
        s[i + b.len()] as char == ',' || s[i + b.len()] as char == '}',
    ensures
        scan_num(s, i, line, col, acc, dot) == (ScanOut {
            toks: seq![TokenModel::Num { text: acc + chars_of(b) }, delim_token(s[i + b.len()] as char)]
                + scan_main(s, i + b.len() + 1, line, sat_inc(col)).toks,
            line: scan_main(s, i + b.len() + 1, line, sat_inc(col)).line,
            col: scan_main(s, i + b.len() + 1, line, sat_inc(col)).col,
        }),
    decreases b.len(),
{
    if b.len() == 0 {
        assert(acc + chars_of(b) =~= acc);
        let c = s[i] as char;
        assert(!is_digit_char(c) && c != '.');
    } else {
        assert(b[0] == s.subrange(i, i + b.len() as int)[0]);
        assert(s.subrange(i + 1, i + b.len() as int) =~= b.drop_first());
        let c = b[0] as char;
        assert forall|j: int, l: int|
            0 <= j < l < b.drop_first().len() implies !((#[trigger] b.drop_first()[j]) as char == '.'
            && (#[trigger] b.drop_first()[l]) as char == '.') by {
            assert(b[j + 1] == b.drop_first()[j]);
            assert(b[l + 1] == b.drop_first()[l]);
        }
        if is_digit_char(c) {
            if dot {
                assert forall|j: int| 0 <= j < b.drop_first().len() implies (#[trigger] b.drop_first()[j]) as char
                    != '.' by {
                    assert(b[j + 1] == b.drop_first()[j]);
                }
            }
            lemma_scan_number(s, i + 1, line, col, acc.push(c), dot, b.drop_first());
            assert(acc.push(c) + chars_of(b.drop_first()) =~= acc + chars_of(b));
        } else {
            assert(c == '.');
            assert(!dot);
            assert forall|j: int| 0 <= j < b.drop_first().len() implies (#[trigger] b.drop_first()[j]) as char
                != '.' by {
                assert(b[j + 1] == b.drop_first()[j]);
                assert(!(b[0] as char == '.' && b[j + 1] as char == '.'));
            }
            lemma_scan_number(s, i + 1, line, col, acc.push('.'), true, b.drop_first());
            assert(acc.push('.') + chars_of(b.drop_first()) =~= acc + chars_of(b));
        }
    }
}

/// The main scan of the rendered fields of a flat object, starting right
/// after the opening brace, produces exactly the fields' tokens, whatever
/// the line and column counters hold.
proof fn lemma_scan_fields(s: Seq<u8>, i: int, pairs: Seq<(Seq<u8>, Scalar)>)
    requires
        0 <= i <= s.len(),
        s.subrange(i, s.len() as int) == fields_text(pairs),
        forall|j: int| 0 <= j < pairs.len() ==> key_ok((#[trigger] pairs[j]).0) && scalar_ok(
            pairs[j].1,
        ),
    ensures
        forall|l2: int, c2: int| (#[trigger] scan_main(s, i, l2, c2)).toks == fields_tokens(pairs),
    decreases pairs.len(),
{
    let t = fields_text(pairs);
    assert(s.len() == i + t.len());
    if pairs.len() == 0 {
        lemma_subrange_index(s, i, t, 0);
        assert(s[i] as char == '}');
        assert forall|l2: int, c2: int| (#[trigger] scan_main(s, i, l2, c2)).toks == fields_tokens(
            pairs,
        ) by {
            assert(scan_main(s, i + 1, l2, sat_inc(c2)).toks =~= Seq::<TokenModel>::empty());
            assert(scan_main(s, i, l2, c2).toks =~= seq![TokenModel::CloseBrace]);
        }
    } else {
        let k = pairs[0].0;
        let v = pairs[0].1;
        let sb = scalar_bytes(v);
        let rest = pairs.drop_first();
        let tail: Seq<u8> = if pairs.len() == 1 {
            seq![125u8]
        } else {
            seq![44u8] + fields_text(rest)
        };
        // Peel the rendered text apart: quote, key, quote and colon, scalar,
        // then the comma or closing brace.
        assert(t =~= seq![34u8] + (k + (seq![34u8, 58u8] + (sb + tail))));
        lemma_subrange_split(s, i, seq![34u8], k + (seq![34u8, 58u8] + (sb + tail)));
        lemma_subrange_index(s, i, seq![34u8], 0);
        assert(s[i] as char == '"');
        lemma_subrange_split(s, i + 1, k, seq![34u8, 58u8] + (sb + tail));
        let q = i + 1 + k.len() as int;
        lemma_subrange_split(s, q, seq![34u8, 58u8], sb + tail);
        lemma_subrange_index(s, q, seq![34u8, 58u8], 0);
        lemma_subrange_index(s, q, seq![34u8, 58u8], 1);
        assert(s[q] as char == '"');
        assert(s[q + 1] as char == ':');
        let p1 = q + 2;
        lemma_subrange_split(s, p1, sb, tail);
        let p2 = p1 + sb.len() as int;
        lemma_subrange_index(s, p2, tail, 0);
        if pairs.len() == 1 {
            assert(s[p2] as char == '}');
            assert(p2 + 1 == s.len());
        } else {
            assert(s[p2] as char == ',');
            lemma_subrange_split(s, p2, seq![44u8], fields_text(rest));
            assert forall|j: int| 0 <= j < rest.len() implies key_ok((#[trigger] rest[j]).0)
                && scalar_ok(rest[j].1) by {
                assert(rest[j] == pairs[j + 1]);
            }
            lemma_scan_fields(s, p2 + 1, rest);
        }
        assert forall|l2: int, c2: int| (#[trigger] scan_main(s, i, l2, c2)).toks == fields_tokens(
            pairs,
        ) by {
            // The key: `"k"` scans to one string token.
            assert(scan_main(s, i, l2, c2) == scan_str(s, i + 1, l2, sat_inc(c2), Seq::empty()));
            lemma_scan_string(s, i + 1, l2, sat_inc(c2), Seq::empty(), k);
            assert(Seq::<char>::empty() + chars_of(k) =~= chars_of(k));
            assert(scan_main(s, i, l2, c2).toks =~= seq![
                TokenModel::Str { text: chars_of(k) },
            ] + scan_main(s, q + 1, l2, sat_inc(c2)).toks);
            // The colon.
            let c3 = sat_inc(sat_inc(c2));
            assert(scan_main(s, q + 1, l2, sat_inc(c2)) == emit(
                TokenModel::Colon,
                scan_main(s, p1, l2, c3),
            ));
            // The scalar, and the delimiter after it.
            match v {
                Scalar::Str(b) => {
                    assert(sb =~= seq![34u8] + (b + seq![34u8]));
                    lemma_subrange_split(s, p1, seq![34u8], b + seq![34u8]);
                    lemma_subrange_index(s, p1, seq![34u8], 0);
                    assert(s[p1] as char == '"');
                    lemma_subrange_split(s, p1 + 1, b, seq![34u8]);
                    lemma_subrange_index(s, p1 + 1 + b.len() as int, seq![34u8], 0);
                    assert(s[p1 + 1 + b.len()] as char == '"');
                    assert(scan_main(s, p1, l2, c3) == scan_str(
                        s,
                        p1 + 1,
                        l2,
                        sat_inc(c3),
                        Seq::empty(),
                    ));
                    lemma_scan_string(s, p1 + 1, l2, sat_inc(c3), Seq::empty(), b);
                    assert(Seq::<char>::empty() + chars_of(b) =~= chars_of(b));
                    assert(scan_main(s, p1, l2, c3).toks =~= seq![
                        TokenModel::Str { text: chars_of(b) },
                    ] + scan_main(s, p2, l2, sat_inc(c3)).toks);
                    lemma_scan_tail(s, p2, pairs);
                    assert(scan_main(s, p1, l2, c3).toks =~= seq![scalar_token(v)] + (if pairs.len()
                        == 1 {
                        seq![TokenModel::CloseBrace]
                    } else {
                        seq![TokenModel::Comma] + fields_tokens(rest)
                    }));
                },
                Scalar::Num(b) => {
                    lemma_subrange_index(s, p1, sb, 0);
                    assert(is_digit_char(s[p1] as char));
                    assert(scan_main(s, p1, l2, c3) == scan_num(
                        s,
                        p1,
                        l2,
                        sat_inc(c3),
                        Seq::empty(),
                        false,
                    ));
                    lemma_scan_number(s, p1, l2, sat_inc(c3), Seq::empty(), false, b);
                    assert(Seq::<char>::empty() + chars_of(b) =~= chars_of(b));
                    if pairs.len() == 1 {
                        assert(delim_token(s[p2] as char) == TokenModel::CloseBrace);
                        assert(scan_main(s, p2 + 1, l2, sat_inc(sat_inc(c3))).toks
                            =~= Seq::<TokenModel>::empty());
                        assert(scan_main(s, p1, l2, c3).toks =~= seq![
                            scalar_token(v),
                            TokenModel::CloseBrace,
                        ]);
                    } else {
                        assert(delim_token(s[p2] as char) == TokenModel::Comma);
                        assert(scan_main(s, p1, l2, c3).toks =~= seq![
                            scalar_token(v),
                            TokenModel::Comma,
                        ] + fields_tokens(rest));
                    }
                },
                Scalar::Bool(x) => {
                    if x {
                        lemma_subrange_index(s, p1, sb, 0);
                        assert(s[p1] as char == 't');
                        assert forall|j: int| 0 <= j < 3 implies (#[trigger] s[p1 + 1 + j]) as char
                            == seq!['r', 'u', 'e'][j] by {
                            lemma_subrange_index(s, p1, sb, 1 + j);
                        }
                        assert(scan_main(s, p1, l2, c3) == scan_lit(
                            s,
                            p1 + 1,
                            l2,
                            sat_inc(c3),
                            seq!['r', 'u', 'e'],
                            TokenModel::True,
                        ));
                        lemma_scan_literal(
                            s,
                            p1 + 1,
                            l2,
                            sat_inc(c3),
                            seq!['r', 'u', 'e'],
                            TokenModel::True,
                        );
                    } else {
                        lemma_subrange_index(s, p1, sb, 0);
                        assert(s[p1] as char == 'f');
                        assert forall|j: int| 0 <= j < 4 implies (#[trigger] s[p1 + 1 + j]) as char
                            == seq!['a', 'l', 's', 'e'][j] by {
                            lemma_subrange_index(s, p1, sb, 1 + j);
                        }
                        assert(scan_main(s, p1, l2, c3) == scan_lit(
                            s,
                            p1 + 1,
                            l2,
                            sat_inc(c3),
                            seq!['a', 'l', 's', 'e'],
                            TokenModel::False,
                        ));
                        lemma_scan_literal(
                            s,
                            p1 + 1,
                            l2,
                            sat_inc(c3),
                            seq!['a', 'l', 's', 'e'],
                            TokenModel::False,
                        );
                    }
                    assert(scan_main(s, p1, l2, c3).toks =~= seq![scalar_token(v)] + scan_main(
                        s,
                        p2,
                        l2,
                        sat_inc(c3),
                    ).toks);
                    lemma_scan_tail(s, p2, pairs);
                    assert(scan_main(s, p1, l2, c3).toks =~= seq![scalar_token(v)] + (if pairs.len()
                        == 1 {
                        seq![TokenModel::CloseBrace]
                    } else {
                        seq![TokenModel::Comma] + fields_tokens(rest)
                    }));
                },
            }
            assert(scan_main(s, i, l2, c2).toks =~= fields_tokens(pairs));
        }
    }
}

/// After a scalar, the main scan sees the comma (and then the remaining
/// fields) or the closing brace (and then nothing).
proof fn lemma_scan_tail(s: Seq<u8>, p2: int, pairs: Seq<(Seq<u8>, Scalar)>)
    requires
        0 <= p2 < s.len(),
        pairs.len() >= 1,
        pairs.len() == 1 ==> s[p2] as char == '}' && p2 + 1 == s.len(),
        pairs.len() > 1 ==> s[p2] as char == ',' && (forall|l2: int, c2: int|
            (#[trigger] scan_main(s, p2 + 1, l2, c2)).toks == fields_tokens(pairs.drop_first())),
    ensures
        forall|l2: int, c2: int|
            (#[trigger] scan_main(s, p2, l2, c2)).toks == (if pairs.len() == 1 {
                seq![TokenModel::CloseBrace]
            } else {
                seq![TokenModel::Comma] + fields_tokens(pairs.drop_first())
            }),
{
    assert forall|l2: int, c2: int|
        (#[trigger] scan_main(s, p2, l2, c2)).toks == (if pairs.len() == 1 {
            seq![TokenModel::CloseBrace]
        } else {
            seq![TokenModel::Comma] + fields_tokens(pairs.drop_first())
        }) by {
        if pairs.len() == 1 {
            assert(scan_main(s, p2 + 1, l2, sat_inc(c2)).toks =~= Seq::<TokenModel>::empty());
            assert(scan_main(s, p2, l2, c2).toks =~= seq![TokenModel::CloseBrace]);
        } else {
            assert(scan_main(s, p2 + 1, l2, sat_inc(c2)).toks == fields_tokens(pairs.drop_first()));
            assert(scan_main(s, p2, l2, c2).toks =~= seq![TokenModel::Comma] + fields_tokens(
                pairs.drop_first(),
            ));
        }
    }
}

/// The object-body parse of the fields' tokens accumulates exactly the
/// pairs' map and consumes every token.
proof fn lemma_parse_fields(
    toks: Seq<TokenModel>,
    i: int,
    m: Map<Seq<char>, ValueModel>,
    key: Seq<char>,
    pairs: Seq<(Seq<u8>, Scalar)>,
)
    requires
        0 <= i <= toks.len(),
        toks.subrange(i, toks.len() as int) == fields_tokens(pairs),
    ensures
        spec_obj(toks, i, ParserState::Idle, m, key, false) == (ParseStep {
            out: Ok::<ValueModel, ErrorModel>(ValueModel::Object(flat_object_map_from(m, pairs))),
            next: toks.len() as int,
        }),
    decreases pairs.len(),
{
    let ft = fields_tokens(pairs);
    assert(toks.len() == i + ft.len());
    if pairs.len() == 0 {
        lemma_subrange_index(toks, i, ft, 0);
        assert(toks[i] == TokenModel::CloseBrace);
    } else {
        let k = chars_of(pairs[0].0);
        let v = pairs[0].1;
        lemma_subrange_index(toks, i, ft, 0);
        lemma_subrange_index(toks, i, ft, 1);
        lemma_subrange_index(toks, i, ft, 2);
        lemma_subrange_index(toks, i, ft, 3);
        let head = seq![
            TokenModel::Str { text: k },
            TokenModel::Colon,
            scalar_token(v),
        ];
        let tail: Seq<TokenModel> = if pairs.len() == 1 {
            seq![TokenModel::CloseBrace]
        } else {
            seq![TokenModel::Comma] + fields_tokens(pairs.drop_first())
        };
        assert(ft =~= (head + tail.take(1)) + tail.skip(1));
        assert(toks[i] == TokenModel::Str { text: k });
        assert(toks[i + 1] == TokenModel::Colon);
        assert(toks[i + 2] == scalar_token(v));
        let m2 = m.insert(k, scalar_value(v));
        assert(spec_obj(toks, i, ParserState::Idle, m, key, false) == spec_obj(
            toks,
            i + 1,
            ParserState::GotName,
            m,
            k,
            false,
        ));
        assert(spec_obj(toks, i + 1, ParserState::GotName, m, k, false) == spec_obj(
            toks,
            i + 2,
            ParserState::GotColon,
            m,
            k,
            false,
        ));
        assert(spec_obj(toks, i + 2, ParserState::GotColon, m, k, false) == spec_obj(
            toks,
            i + 3,
            ParserState::GotValue,
            m2,
            k,
            false,
        ));
        assert(pairs.drop_first().len() == pairs.len() - 1);
        assert(flat_object_map_from(m, pairs) == flat_object_map_from(m2, pairs.drop_first()));
        if pairs.len() == 1 {
            assert(toks[i + 3] == TokenModel::CloseBrace);
            assert(i + 4 == toks.len());
            assert(flat_object_map_from(m2, pairs.drop_first()) == m2);
        } else {
            assert(toks[i + 3] == TokenModel::Comma);
            assert(spec_obj(toks, i + 3, ParserState::GotValue, m2, k, false) == spec_obj(
                toks,
                i + 4,
                ParserState::Idle,
                m2,
                k,
                false,
            ));
            assert(ft =~= (head + seq![TokenModel::Comma]) + fields_tokens(pairs.drop_first()));
            lemma_subrange_split(
                toks,
                i,
                head + seq![TokenModel::Comma],
                fields_tokens(pairs.drop_first()),
            );
            lemma_parse_fields(toks, i + 4, m2, k, pairs.drop_first());
        }
    }
}

/// Law: a flat object of key–scalar pairs round-trips.  Rendering the pairs
/// as source text and parsing it yields exactly the object whose map sends
/// each key to its scalar, a later pair with the same key winning.
pub proof fn lemma_flat_object_round_trip(pairs: Seq<(Seq<u8>, Scalar)>)
    requires
        forall|j: int| 0 <= j < pairs.len() ==> key_ok((#[trigger] pairs[j]).0) && scalar_ok(
            pairs[j].1,
        ),
    ensures
        spec_parse(flat_object_text(pairs)) == Ok::<ValueModel, ErrorModel>(
            ValueModel::Object(flat_object_map(pairs)),
        ),
{
    let s = flat_object_text(pairs);
    assert(s =~= seq![123u8] + fields_text(pairs));
    assert(s.subrange(0, s.len() as int) =~= s);
    lemma_subrange_split(s, 0, seq![123u8], fields_text(pairs));
    lemma_subrange_index(s, 0, seq![123u8], 0);
    assert(s[0] as char == '{');
    lemma_scan_fields(s, 1, pairs);
    let toks = scan_main(s, 0, 1, 0).toks;
    assert(scan_main(s, 0, 1, 0) == emit(TokenModel::OpenBrace, scan_main(s, 1, 1, 1)));
    assert(toks =~= seq![TokenModel::OpenBrace] + fields_tokens(pairs));
    assert(toks[0] == TokenModel::OpenBrace);
    assert(spec_obj(toks, 0, ParserState::Idle, Map::empty(), Seq::empty(), true) == spec_obj(
        toks,
        1,
        ParserState::Idle,
        Map::empty(),
        Seq::empty(),
        false,
    ));
    assert(toks.subrange(1, toks.len() as int) =~= fields_tokens(pairs));
    lemma_parse_fields(toks, 1, Map::empty(), Seq::empty(), pairs);
}

/// Inserting pairs whose keys all differ from `k` does not touch what the
/// map holds at `k`.
proof fn lemma_map_from_other_keys(
    m: Map<Seq<char>, ValueModel>,
    pairs: Seq<(Seq<u8>, Scalar)>,
    k: Seq<char>,
)
    requires
        m.contains_key(k),
        forall|j: int| 0 <= j < pairs.len() ==> chars_of((#[trigger] pairs[j]).0) != k,
    ensures
        flat_object_map_from(m, pairs).contains_key(k),
        flat_object_map_from(m, pairs)[k] == m[k],
    decreases pairs.len(),
{
    if pairs.len() > 0 {
        assert(chars_of(pairs[0].0) != k);
        let m2 = m.insert(chars_of(pairs[0].0), scalar_value(pairs[0].1));
        assert forall|j: int| 0 <= j < pairs.drop_first().len() implies chars_of(
            (#[trigger] pairs.drop_first()[j]).0,
        ) != k by {
            assert(pairs.drop_first()[j] == pairs[j + 1]);
        }
        lemma_map_from_other_keys(m2, pairs.drop_first(), k);
    }
}

/// Law: under distinct keys, extracting any key of a flat object gives back
/// exactly the scalar that was written for it.
pub proof fn lemma_flat_object_lookup(pairs: Seq<(Seq<u8>, Scalar)>, n: int)
    requires
        0 <= n < pairs.len(),
        forall|i: int, j: int|
            0 <= i < j < pairs.len() ==> chars_of((#[trigger] pairs[i]).0) != chars_of(
                (#[trigger] pairs[j]).0,
            ),
    ensures
        flat_object_map(pairs).contains_key(chars_of(pairs[n].0)),
        flat_object_map(pairs)[chars_of(pairs[n].0)] == scalar_value(pairs[n].1),
{
    lemma_flat_object_lookup_from(Map::empty(), pairs, n);
}

/// The generalization of [`lemma_flat_object_lookup`] over the accumulated
/// map.
proof fn lemma_flat_object_lookup_from(
    m: Map<Seq<char>, ValueModel>,
    pairs: Seq<(Seq<u8>, Scalar)>,
    n: int,
)
    requires
        0 <= n < pairs.len(),
        forall|i: int, j: int|
            0 <= i < j < pairs.len() ==> chars_of((#[trigger] pairs[i]).0) != chars_of(
                (#[trigger] pairs[j]).0,
            ),
    ensures
        flat_object_map_from(m, pairs).contains_key(chars_of(pairs[n].0)),
        flat_object_map_from(m, pairs)[chars_of(pairs[n].0)] == scalar_value(pairs[n].1),
    decreases pairs.len(),
{
    let k0 = chars_of(pairs[0].0);
    let m2 = m.insert(k0, scalar_value(pairs[0].1));
    let rest = pairs.drop_first();
    assert forall|i: int, j: int| 0 <= i < j < rest.len() implies chars_of((#[trigger] rest[i]).0)
        != chars_of((#[trigger] rest[j]).0) by {
        assert(rest[i] == pairs[i + 1]);
        assert(rest[j] == pairs[j + 1]);
    }
    if n == 0 {
        assert forall|j: int| 0 <= j < rest.len() implies chars_of((#[trigger] rest[j]).0) != k0 by {
            assert(rest[j] == pairs[j + 1]);
        }
        lemma_map_from_other_keys(m2, rest, k0);
    } else {
        assert(rest[n - 1] == pairs[n]);
        lemma_flat_object_lookup_from(m2, rest, n - 1);
    }
}

/// A run of closing braces.
pub open spec fn closers(m: nat) -> Seq<u8> {
    Seq::new(m, |x: int| 125u8)
}

/// The tokens of a run of closing braces.
pub open spec fn closers_tokens(m: nat) -> Seq<TokenModel> {
    Seq::new(m, |x: int| TokenModel::CloseBrace)
}

/// The source text of a chain of objects nested one inside the other: each
/// key wraps the next level, and the innermost level holds one scalar.
pub open spec fn chain_text(keys: Seq<Seq<u8>>, v: Scalar) -> Seq<u8>
    decreases keys.len(),
{
    if keys.len() == 0 {
        scalar_bytes(v)
    } else {
        seq![123u8, 34u8] + keys[0] + seq![34u8, 58u8] + chain_text(keys.drop_first(), v)
            + seq![125u8]
    }
}

/// The tokens that a chain of nested objects scans to.
pub open spec fn chain_tokens(keys: Seq<Seq<u8>>, v: Scalar) -> Seq<TokenModel>
    decreases keys.len(),
{
    if keys.len() == 0 {
        seq![scalar_token(v)]
    } else {
        seq![
            TokenModel::OpenBrace,
            TokenModel::Str { text: chars_of(keys[0]) },
            TokenModel::Colon,
        ] + chain_tokens(keys.drop_first(), v) + seq![TokenModel::CloseBrace]
    }
}

/// The value that a chain of nested objects parses to: one single-key object
/// per level, the innermost holding the scalar.
pub open spec fn chain_value(keys: Seq<Seq<u8>>, v: Scalar) -> ValueModel
    decreases keys.len(),
{
    if keys.len() == 0 {
        scalar_value(v)
    } else {
        ValueModel::Object(
            Map::empty().insert(chars_of(keys[0]), chain_value(keys.drop_first(), v)),
        )
    }
}

/// A run of closing braces at the end of the input scans to that many
/// closing-brace tokens.
proof fn lemma_scan_closers(s: Seq<u8>, i: int, m: nat)
    requires
        0 <= i <= s.len(),
        s.subrange(i, s.len() as int) == closers(m),
    ensures
        forall|l2: int, c2: int| (#[trigger] scan_main(s, i, l2, c2)).toks == closers_tokens(m),
    decreases m,
{
    assert(closers(m).len() == m);
    assert(closers_tokens(m).len() == m);
    assert(s.len() == i + m);
    if m > 0 {
        lemma_subrange_index(s, i, closers(m), 0);
        assert(s[i] as char == '}');
        assert forall|j: int| 0 <= j < (m - 1) implies #[trigger] s.subrange(i + 1, s.len() as int)[j]
            == closers((m - 1) as nat)[j] by {
            lemma_subrange_index(s, i, closers(m), j + 1);
        }
        assert(s.subrange(i + 1, s.len() as int) =~= closers((m - 1) as nat));
        lemma_scan_closers(s, i + 1, (m - 1) as nat);
        assert forall|l2: int, c2: int| (#[trigger] scan_main(s, i, l2, c2)).toks == closers_tokens(
            m,
        ) by {
            assert(scan_main(s, i + 1, l2, sat_inc(c2)).toks == closers_tokens((m - 1) as nat));
            assert(scan_main(s, i, l2, c2).toks =~= closers_tokens(m));
        }
    } else {
        assert forall|l2: int, c2: int| (#[trigger] scan_main(s, i, l2, c2)).toks == closers_tokens(
            m,
        ) by {
            assert(scan_main(s, i, l2, c2).toks =~= closers_tokens(m));
        }
    }
}

/// The main scan of a chain of nested objects, followed by `m` further
/// closing braces at the end of the input, produces the chain's tokens and
/// then the closing braces'.
proof fn lemma_scan_chain(s: Seq<u8>, i: int, keys: Seq<Seq<u8>>, v: Scalar, m: nat)
    requires
        0 <= i <= s.len(),
        s.subrange(i, s.len() as int) == chain_text(keys, v) + closers(m),
        forall|j: int| 0 <= j < keys.len() ==> key_ok(#[trigger] keys[j]),
        scalar_ok(v),
        keys.len() == 0 ==> m >= 1,
    ensures
        forall|l2: int, c2: int|
            (#[trigger] scan_main(s, i, l2, c2)).toks == chain_tokens(keys, v) + closers_tokens(m),
    decreases keys.len(),
{
    assert(closers(m).len() == m);
    assert(closers_tokens(m).len() == m);
    assert((chain_text(keys, v) + closers(m)).len() == chain_text(keys, v).len() + m);
    assert(s.len() == i + chain_text(keys, v).len() + m);
    if keys.len() == 0 {
        let sb = scalar_bytes(v);
        let p2 = i + sb.len() as int;
        lemma_subrange_split(s, i, sb, closers(m));
        lemma_subrange_index(s, p2, closers(m), 0);
        assert(s[p2] as char == '}');
        assert forall|j: int| 0 <= j < (m - 1) implies #[trigger] s.subrange(p2 + 1, s.len() as int)[j]
            == closers((m - 1) as nat)[j] by {
            lemma_subrange_index(s, p2, closers(m), j + 1);
        }
        assert(s.subrange(p2 + 1, s.len() as int) =~= closers((m - 1) as nat));
        lemma_scan_closers(s, p2 + 1, (m - 1) as nat);
        assert forall|l2: int, c2: int| (#[trigger] scan_main(s, i, l2, c2)).toks == chain_tokens(
            keys,
            v,
        ) + closers_tokens(m) by {
            match v {
                Scalar::Str(b) => {
                    assert(sb =~= seq![34u8] + (b + seq![34u8]));
                    lemma_subrange_split(s, i, seq![34u8], b + seq![34u8]);
                    lemma_subrange_index(s, i, seq![34u8], 0);
                    assert(s[i] as char == '"');
                    lemma_subrange_split(s, i + 1, b, seq![34u8]);
                    lemma_subrange_index(s, i + 1 + b.len() as int, seq![34u8], 0);
                    assert(s[i + 1 + b.len()] as char == '"');
                    assert(scan_main(s, i, l2, c2) == scan_str(
                        s,
                        i + 1,
                        l2,
                        sat_inc(c2),
                        Seq::empty(),
                    ));
                    lemma_scan_string(s, i + 1, l2, sat_inc(c2), Seq::empty(), b);
                    assert(Seq::<char>::empty() + chars_of(b) =~= chars_of(b));
                    assert(scan_main(s, p2 + 1, l2, sat_inc(sat_inc(c2))).toks
                        == closers_tokens((m - 1) as nat));
                    assert(closers_tokens(m) =~= seq![TokenModel::CloseBrace] + closers_tokens(
                        (m - 1) as nat,
                    ));
                    assert(scan_main(s, p2, l2, sat_inc(c2)).toks =~= closers_tokens(m));
                    assert(scan_main(s, i, l2, c2).toks =~= chain_tokens(keys, v) + closers_tokens(
                        m,
                    ));
                },
                Scalar::Num(b) => {
                    lemma_subrange_index(s, i, sb, 0);
                    assert(is_digit_char(s[i] as char));
                    assert(scan_main(s, i, l2, c2) == scan_num(
                        s,
                        i,
                        l2,
                        sat_inc(c2),
                        Seq::empty(),
                        false,
                    ));
                    lemma_scan_number(s, i, l2, sat_inc(c2), Seq::empty(), false, b);
                    assert(Seq::<char>::empty() + chars_of(b) =~= chars_of(b));
                    assert(delim_token(s[p2] as char) == TokenModel::CloseBrace);
                    assert(scan_main(s, p2 + 1, l2, sat_inc(sat_inc(c2))).toks == closers_tokens(
                        (m - 1) as nat,
                    ));
                    assert(closers_tokens(m) =~= seq![TokenModel::CloseBrace] + closers_tokens(
                        (m - 1) as nat,
                    ));
                    assert(scan_main(s, i, l2, c2).toks =~= chain_tokens(keys, v) + closers_tokens(
                        m,
                    ));
                },
                Scalar::Bool(x) => {
                    if x {
                        lemma_subrange_index(s, i, sb, 0);
                        assert(s[i] as char == 't');
                        assert forall|j: int| 0 <= j < 3 implies (#[trigger] s[i + 1 + j]) as char
                            == seq!['r', 'u', 'e'][j] by {
                            lemma_subrange_index(s, i, sb, 1 + j);
                        }
                        assert(scan_main(s, i, l2, c2) == scan_lit(
                            s,
                            i + 1,
                            l2,
                            sat_inc(c2),
                            seq!['r', 'u', 'e'],
                            TokenModel::True,
                        ));
                        lemma_scan_literal(
                            s,
                            i + 1,
                            l2,
                            sat_inc(c2),
                            seq!['r', 'u', 'e'],
                            TokenModel::True,
                        );
                    } else {
                        lemma_subrange_index(s, i, sb, 0);
                        assert(s[i] as char == 'f');
                        assert forall|j: int| 0 <= j < 4 implies (#[trigger] s[i + 1 + j]) as char
                            == seq!['a', 'l', 's', 'e'][j] by {
                            lemma_subrange_index(s, i, sb, 1 + j);
                        }
                        assert(scan_main(s, i, l2, c2) == scan_lit(
                            s,
                            i + 1,
                            l2,
                            sat_inc(c2),
                            seq!['a', 'l', 's', 'e'],
                            TokenModel::False,
                        ));
                        lemma_scan_literal(
                            s,
                            i + 1,
                            l2,
                            sat_inc(c2),
                            seq!['a', 'l', 's', 'e'],
                            TokenModel::False,
                        );
                    }
                    assert(scan_main(s, p2 + 1, l2, sat_inc(sat_inc(c2))).toks
                        == closers_tokens((m - 1) as nat));
                    assert(closers_tokens(m) =~= seq![TokenModel::CloseBrace] + closers_tokens(
                        (m - 1) as nat,
                    ));
                    assert(scan_main(s, p2, l2, sat_inc(c2)).toks =~= closers_tokens(m));
                    assert(scan_main(s, i, l2, c2).toks =~= chain_tokens(keys, v) + closers_tokens(
                        m,
                    ));
                },
            }
        }
    } else {
        let k = keys[0];
        let rest = keys.drop_first();
        let inner = chain_text(rest, v);
        assert(chain_text(keys, v) + closers(m) =~= seq![123u8] + (seq![34u8] + (k + (seq![
            34u8,
            58u8,
        ] + (inner + closers((m + 1) as nat))))));
        assert(s.subrange(i, s.len() as int) == seq![123u8] + (seq![34u8] + (k + (seq![34u8, 58u8]
            + (inner + closers((m + 1) as nat))))));
        lemma_subrange_split(s, i, seq![123u8], seq![34u8] + (k + (seq![34u8, 58u8] + (inner
            + closers((m + 1) as nat)))));
        lemma_subrange_index(s, i, seq![123u8], 0);
        assert(s[i] as char == '{');
        lemma_subrange_split(s, i + 1, seq![34u8], k + (seq![34u8, 58u8] + (inner + closers(
            (m + 1) as nat,
        ))));
        lemma_subrange_index(s, i + 1, seq![34u8], 0);
        assert(s[i + 1] as char == '"');
        lemma_subrange_split(s, i + 2, k, seq![34u8, 58u8] + (inner + closers((m + 1) as nat)));
        let q = i + 2 + k.len() as int;
        lemma_subrange_split(s, q, seq![34u8, 58u8], inner + closers((m + 1) as nat));
        lemma_subrange_index(s, q, seq![34u8, 58u8], 0);
        lemma_subrange_index(s, q, seq![34u8, 58u8], 1);
        assert(s[q] as char == '"');
        assert(s[q + 1] as char == ':');
        let p1 = q + 2;
        assert forall|j: int| 0 <= j < rest.len() implies key_ok(#[trigger] rest[j]) by {
            assert(rest[j] == keys[j + 1]);
        }
        lemma_scan_chain(s, p1, rest, v, (m + 1) as nat);
        assert forall|l2: int, c2: int| (#[trigger] scan_main(s, i, l2, c2)).toks == chain_tokens(
            keys,
            v,
        ) + closers_tokens(m) by {
            assert(scan_main(s, i, l2, c2) == emit(
                TokenModel::OpenBrace,
                scan_main(s, i + 1, l2, sat_inc(c2)),
            ));
            assert(scan_main(s, i + 1, l2, sat_inc(c2)) == scan_str(
                s,
                i + 2,
                l2,
                sat_inc(sat_inc(c2)),
                Seq::empty(),
            ));
            lemma_scan_string(s, i + 2, l2, sat_inc(sat_inc(c2)), Seq::empty(), k);
            assert(Seq::<char>::empty() + chars_of(k) =~= chars_of(k));
            let c3 = sat_inc(sat_inc(sat_inc(c2)));
            assert(scan_main(s, q + 1, l2, sat_inc(sat_inc(c2))) == emit(
                TokenModel::Colon,
                scan_main(s, p1, l2, c3),
            ));
            assert(scan_main(s, p1, l2, c3).toks == chain_tokens(rest, v) + closers_tokens(
                (m + 1) as nat,
            ));
            assert(closers_tokens((m + 1) as nat) =~= seq![TokenModel::CloseBrace]
                + closers_tokens(m));
            assert(scan_main(s, i, l2, c2).toks =~= chain_tokens(keys, v) + closers_tokens(m));
        }
    }
}

/// The object-body parse of a chain of nested objects, entered right after
/// the chain's opening brace, yields the nested single-key objects and
/// consumes exactly the chain's tokens.  The first token seen is the key, so
/// the conclusion holds whether or not the invocation is at its first token.
proof fn lemma_parse_chain(toks: Seq<TokenModel>, i: int, keys: Seq<Seq<u8>>, v: Scalar)
    requires
        keys.len() >= 1,
        0 <= i,
        i + chain_tokens(keys, v).len() <= toks.len(),
        toks.subrange(i, i + chain_tokens(keys, v).len()) == chain_tokens(keys, v),
    ensures
        forall|f: bool|
            #[trigger] spec_obj(toks, i + 1, ParserState::Idle, Map::empty(), Seq::empty(), f)
                == (ParseStep {
                out: Ok::<ValueModel, ErrorModel>(chain_value(keys, v)),
                next: i + chain_tokens(keys, v).len(),
            }),
    decreases keys.len(),
{
    let ct = chain_tokens(keys, v);
    let k = chars_of(keys[0]);
    let rest = keys.drop_first();
    let inner = chain_tokens(rest, v);
    assert(ct =~= (seq![
        TokenModel::OpenBrace,
        TokenModel::Str { text: k },
        TokenModel::Colon,
    ] + inner) + seq![TokenModel::CloseBrace]);
    lemma_subrange_index(toks, i, ct, 0);
    lemma_subrange_index(toks, i, ct, 1);
    lemma_subrange_index(toks, i, ct, 2);
    assert(toks[i + 1] == TokenModel::Str { text: k });
    assert(toks[i + 2] == TokenModel::Colon);
    let p = i + 3;
    assert(ct =~= seq![
        TokenModel::OpenBrace,
        TokenModel::Str { text: k },
        TokenModel::Colon,
    ] + (inner + seq![TokenModel::CloseBrace]));
    lemma_subrange_split(
        toks,
        i,
        seq![TokenModel::OpenBrace, TokenModel::Str { text: k }, TokenModel::Colon],
        inner + seq![TokenModel::CloseBrace],
    );
    lemma_subrange_split(toks, p, inner, seq![TokenModel::CloseBrace]);
    let close_at = p + inner.len() as int;
    lemma_subrange_index(toks, close_at, seq![TokenModel::CloseBrace], 0);
    assert(toks[close_at] == TokenModel::CloseBrace);
    let m2 = Map::<Seq<char>, ValueModel>::empty().insert(k, chain_value(rest, v));
    lemma_subrange_index(toks, p, inner, 0);
    if keys.len() > 1 {
        assert(toks[p] == TokenModel::OpenBrace);
        lemma_parse_chain(toks, p, rest, v);
    }
    assert forall|f: bool|
        #[trigger] spec_obj(toks, i + 1, ParserState::Idle, Map::empty(), Seq::empty(), f) == (
        ParseStep {
            out: Ok::<ValueModel, ErrorModel>(chain_value(keys, v)),
            next: i + chain_tokens(keys, v).len(),
        }) by {
        assert(spec_obj(toks, i + 1, ParserState::Idle, Map::empty(), Seq::empty(), f) == spec_obj(
            toks,
            i + 2,
            ParserState::GotName,
            Map::empty(),
            k,
            false,
        ));
        assert(spec_obj(toks, i + 2, ParserState::GotName, Map::empty(), k, false) == spec_obj(
            toks,
            p,
            ParserState::GotColon,
            Map::empty(),
            k,
            false,
        ));
        if keys.len() == 1 {
            assert(toks[p] == scalar_token(v));
            assert(chain_value(rest, v) == scalar_value(v));
            assert(spec_obj(toks, p, ParserState::GotColon, Map::empty(), k, false) == spec_obj(
                toks,
                p + 1,
                ParserState::GotValue,
                m2,
                k,
                false,
            ));
            assert(p + 1 == close_at);
        } else {
            let sub = spec_obj(toks, p + 1, ParserState::Idle, Map::empty(), Seq::empty(), true);
            assert(sub.out == Ok::<ValueModel, ErrorModel>(chain_value(rest, v)));
            assert(sub.next == close_at);
            assert(spec_obj(toks, p, ParserState::GotColon, Map::empty(), k, false) == spec_obj(
                toks,
                close_at,
                ParserState::GotValue,
                m2,
                k,
                false,
            ));
        }
        assert(spec_obj(toks, close_at, ParserState::GotValue, m2, k, false) == (ParseStep {
            out: Ok::<ValueModel, ErrorModel>(ValueModel::Object(m2)),
            next: close_at + 1,
        }));
        assert(close_at + 1 == i + ct.len());
    }
}

/// Law: nesting round-trips at any depth.  A chain of objects, each keyed
/// level wrapping the next and the innermost holding one scalar, parses back
/// to exactly the nested single-key objects with that scalar inside.
pub proof fn lemma_nested_object_round_trip(keys: Seq<Seq<u8>>, v: Scalar)
    requires
        keys.len() >= 1,
        forall|j: int| 0 <= j < keys.len() ==> key_ok(#[trigger] keys[j]),
        scalar_ok(v),
    ensures
        spec_parse(chain_text(keys, v)) == Ok::<ValueModel, ErrorModel>(chain_value(keys, v)),
{
    let s = chain_text(keys, v);
    assert(s.subrange(0, s.len() as int) =~= s);
    assert(s =~= chain_text(keys, v) + closers(0));
    lemma_scan_chain(s, 0, keys, v, 0);
    let toks = scan_main(s, 0, 1, 0).toks;
    assert(toks == chain_tokens(keys, v) + closers_tokens(0));
    assert(toks =~= chain_tokens(keys, v));
    assert(toks.subrange(0, toks.len() as int) =~= toks);
    lemma_subrange_index(toks, 0, toks, 0);
    assert(toks[0] == TokenModel::OpenBrace);
    assert(spec_obj(toks, 0, ParserState::Idle, Map::empty(), Seq::empty(), true) == spec_obj(
        toks,
        1,
        ParserState::Idle,
        Map::empty(),
        Seq::empty(),
        false,
    ));
    lemma_parse_chain(toks, 0, keys, v);
}

/// Law: of two fields with the same key, the later one wins — the parsed
/// object holds the single key with the value written last.
pub proof fn lemma_duplicate_key_last_wins(k: Seq<u8>, v1: Scalar, v2: Scalar)
    requires
        key_ok(k),
        scalar_ok(v1),
        scalar_ok(v2),
    ensures
        spec_parse(flat_object_text(seq![(k, v1), (k, v2)])) == Ok::<ValueModel, ErrorModel>(
            ValueModel::Object(Map::empty().insert(chars_of(k), scalar_value(v2))),
        ),
{
    let pairs = seq![(k, v1), (k, v2)];
    assert(pairs[0] == (k, v1));
    assert(pairs[1] == (k, v2));
    lemma_flat_object_round_trip(pairs);
    let m1 = Map::<Seq<char>, ValueModel>::empty().insert(chars_of(k), scalar_value(v1));
    assert(pairs.drop_first() =~= seq![(k, v2)]);
    assert(flat_object_map(pairs) == flat_object_map_from(m1, seq![(k, v2)]));
    let m2 = m1.insert(chars_of(k), scalar_value(v2));
    assert(seq![(k, v2)][0] == (k, v2));
    assert(seq![(k, v2)].drop_first() =~= Seq::<(Seq<u8>, Scalar)>::empty());
    assert(flat_object_map_from(m1, seq![(k, v2)]) == flat_object_map_from(
        m2,
        Seq::<(Seq<u8>, Scalar)>::empty(),
    ));
    assert(m2 =~= Map::empty().insert(chars_of(k), scalar_value(v2)));
}

} // verus!
