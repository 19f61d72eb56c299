//! The JSON-RPC envelope codec.
//!
//! `encode_request` builds the serialized request envelope
//! `{"id":N,"jsonrpc":"2.0","method":"...","params":...}` for an id, a method
//! name and an already-serialized parameter value. `decode_response` parses a
//! response envelope and classifies it: the raw JSON text of its `result`
//! member, the peer's error object, or a decode failure. Both directions are
//! specified over the byte sequence and proved exact.

use vstd::prelude::*;
use vstd::string::StringExecFns;
use crate::error::Web3Error;
use crate::json::{
    is_digit, is_hex_digit, is_json_value, is_json_value_exec, is_simple_escape, skip_string_body,
    skip_value, skip_value_exec, skip_ws, skip_ws_exec, skip_string_body_exec,
    BACKSLASH, COLON, COMMA, LBRACE, MINUS, QUOTE, RBRACE,
};

verus! {

// ---------------------------------------------------------------------------
// Byte-range helpers
// ---------------------------------------------------------------------------

/// Whether the bytes of `s` in `[a, b)` are exactly `key`.
pub open spec fn range_is(s: Seq<u8>, a: int, b: int, key: Seq<u8>) -> bool {
    s.subrange(a, b) == key
}

fn range_eq(s: &[u8], a: usize, b: usize, key: &[u8]) -> (r: bool)
    requires
        a <= b <= s@.len(),
    ensures
        r == range_is(s@, a as int, b as int, key@),
{
    if b - a != key.len() {
        proof {
            assert(s@.subrange(a as int, b as int).len() == b - a);
        }
        return false;
    }
    let mut i: usize = 0;
    while i < key.len()
        invariant
            a <= b <= s@.len(),
            b - a == key@.len(),
            i <= key@.len(),
            forall|t: int| 0 <= t < i ==> s@[a + t] == key@[t],
        decreases key@.len() - i,
    {
        if s[a + i] != key[i] {
            proof {
                assert(s@.subrange(a as int, b as int)[i as int] == s@[a + i]);
            }
            return false;
        }
        i = i + 1;
    }
    proof {
        assert(s@.subrange(a as int, b as int) =~= key@);
    }
    true
}

fn copy_range(s: &[u8], a: usize, b: usize) -> (r: Vec<u8>)
    requires
        a <= b <= s@.len(),
    ensures
        r@ == s@.subrange(a as int, b as int),
{
    let mut out: Vec<u8> = Vec::new();
    let mut i = a;
    while i < b
        invariant
            a <= i <= b <= s@.len(),
            out@ == s@.subrange(a as int, i as int),
        decreases b - i,
    {
        out.push(s[i]);
        proof {
            assert(s@.subrange(a as int, i as int).push(s@[i as int])
                =~= s@.subrange(a as int, i + 1));
        }
        i = i + 1;
    }
    out
}

// ---------------------------------------------------------------------------
// The member keys of the two envelopes
// ---------------------------------------------------------------------------

pub open spec fn result_key() -> Seq<u8> {
    seq![114u8, 101, 115, 117, 108, 116]
}

pub open spec fn error_key() -> Seq<u8> {
    seq![101u8, 114, 114, 111, 114]
}

pub open spec fn code_key() -> Seq<u8> {
    seq![99u8, 111, 100, 101]
}

pub open spec fn message_key() -> Seq<u8> {
    seq![109u8, 101, 115, 115, 97, 103, 101]
}

pub open spec fn data_key() -> Seq<u8> {
    seq![100u8, 97, 116, 97]
}

/// The literal `null`, the stand-in for an absent `data` member.
pub open spec fn null_text() -> Seq<u8> {
    seq![110u8, 117, 108, 108]
}

fn result_key_exec() -> (r: Vec<u8>)
    ensures
        r@ == result_key(),
{
    let mut v: Vec<u8> = Vec::new();
    v.push(114);
    v.push(101);
    v.push(115);
    v.push(117);
    v.push(108);
    v.push(116);
    proof {
        assert(v@ =~= result_key());
    }
    v
}

fn error_key_exec() -> (r: Vec<u8>)
    ensures
        r@ == error_key(),
{
    let mut v: Vec<u8> = Vec::new();
    v.push(101);
    v.push(114);
    v.push(114);
    v.push(111);
    v.push(114);
    proof {
        assert(v@ =~= error_key());
    }
    v
}

fn code_key_exec() -> (r: Vec<u8>)
    ensures
        r@ == code_key(),
{
    let mut v: Vec<u8> = Vec::new();
    v.push(99);
    v.push(111);
    v.push(100);
    v.push(101);
    proof {
        assert(v@ =~= code_key());
    }
    v
}

fn message_key_exec() -> (r: Vec<u8>)
    ensures
        r@ == message_key(),
{
    let mut v: Vec<u8> = Vec::new();
    v.push(109);
    v.push(101);
    v.push(115);
    v.push(115);
    v.push(97);
    v.push(103);
    v.push(101);
    proof {
        assert(v@ =~= message_key());
    }
    v
}

fn data_key_exec() -> (r: Vec<u8>)
    ensures
        r@ == data_key(),
{
    let mut v: Vec<u8> = Vec::new();
    v.push(100);
    v.push(97);
    v.push(116);
    v.push(97);
    proof {
        assert(v@ =~= data_key());
    }
    v
}

// ---------------------------------------------------------------------------
// Object-member lookup
// ---------------------------------------------------------------------------

/// Walks the members of a non-empty object from the position of its first key
/// (whitespace not yet consumed), validating the object, and returns the span
/// of the value of the member named `key` (the last occurrence wins) together
/// with the position after the closing brace. `None` means the object is
/// malformed.
pub open spec fn find_member(s: Seq<u8>, i: int, key: Seq<u8>, cur: Option<(int, int)>) -> Option<
    (Option<(int, int)>, int),
>
    decreases s.len() - i,
{
    if !(0 <= i <= s.len()) {
        None
    } else {
        let w = skip_ws(s, i);
        if !(i <= w < s.len() && s[w] == QUOTE) {
            None
        } else {
            match skip_string_body(s, w + 1) {
                None => None,
                Some(ke) => {
                    if !(w + 1 < ke <= s.len()) {
                        None
                    } else {
                        let c = skip_ws(s, ke);
                        if !(ke <= c < s.len() && s[c] == COLON) {
                            None
                        } else {
                            let v0 = skip_ws(s, c + 1);
                            if !(c + 1 <= v0 <= s.len()) {
                                None
                            } else {
                                match skip_value(s, v0) {
                                    None => None,
                                    Some(v) => {
                                        if !(v0 < v <= s.len()) {
                                            None
                                        } else {
                                            let cur2 = if range_is(s, w + 1, ke - 1, key) {
                                                Some((v0, v))
                                            } else {
                                                cur
                                            };
                                            let k = skip_ws(s, v);
                                            if !(v <= k <= s.len()) {
                                                None
                                            } else if k < s.len() && s[k] == COMMA {
                                                find_member(s, k + 1, key, cur2)
                                            } else if k < s.len() && s[k] == RBRACE {
                                                Some((cur2, k + 1))
                                            } else {
                                                None
                                            }
                                        }
                                    },
                                }
                            }
                        }
                    }
                },
            }
        }
    }
}

fn find_member_exec(s: &[u8], i: usize, key: &[u8], cur: Option<(usize, usize)>) -> (r: Option<
    (Option<(usize, usize)>, usize),
>)
    requires
        i <= s@.len(),
        cur matches Some((a, b)) ==> a <= b <= s@.len(),
    ensures
        match r {
            Some((sp, end)) => {
                &&& find_member(s@, i as int, key@, spec_span(cur)) == Some(
                    (spec_span(sp), end as int),
                )
                &&& i < end <= s@.len()
                &&& sp matches Some((a, b)) ==> a <= b <= s@.len()
            },
            None => find_member(s@, i as int, key@, spec_span(cur)) is None,
        },
    decreases s@.len() - i,
{
    let w = skip_ws_exec(s, i);
    if !(w < s.len() && s[w] == QUOTE) {
        return None;
    }
    match skip_string_body_exec(s, w + 1) {
        None => None,
        Some(ke) => {
            let c = skip_ws_exec(s, ke);
            if !(c < s.len() && s[c] == COLON) {
                return None;
            }
            let v0 = skip_ws_exec(s, c + 1);
            match skip_value_exec(s, v0) {
                None => None,
                Some(v) => {
                    let cur2 = if range_eq(s, w + 1, ke - 1, key) {
                        Some((v0, v))
                    } else {
                        cur
                    };
                    proof {
                        assert(spec_span(cur2) == if range_is(s@, w + 1, ke - 1, key@) {
                            Some((v0 as int, v as int))
                        } else {
                            spec_span(cur)
                        });
                    }
                    let k = skip_ws_exec(s, v);
                    if k < s.len() && s[k] == COMMA {
                        find_member_exec(s, k + 1, key, cur2)
                    } else if k < s.len() && s[k] == RBRACE {
                        Some((cur2, k + 1))
                    } else {
                        None
                    }
                },
            }
        },
    }
}

/// The ghost image of an executable span.
pub open spec fn spec_span(sp: Option<(usize, usize)>) -> Option<(int, int)> {
    match sp {
        Some((a, b)) => Some((a as int, b as int)),
        None => None,
    }
}

// ---------------------------------------------------------------------------
// Integer parsing (for the `code` member)
// ---------------------------------------------------------------------------

pub open spec fn all_digits(s: Seq<u8>, a: int, b: int) -> bool {
    forall|k: int| a <= k < b ==> is_digit(s[k])
}

/// The value of the decimal digits of `s` in `[a, b)`.
pub open spec fn dec_val(s: Seq<u8>, a: int, b: int) -> int
    decreases b - a,
{
    if a >= b {
        0
    } else {
        dec_val(s, a, b - 1) * 10 + (s[b - 1] - 48)
    }
}

/// The value of the span `[a, b)` of `s` read as a strict decimal integer
/// with optional leading minus sign, if it is one and fits in an `i64`.
pub open spec fn spec_parse_i64(s: Seq<u8>, a: int, b: int) -> Option<i64> {
    let neg = a < b && s[a] == MINUS;
    let d = if neg { a + 1 } else { a };
    if d >= b || !all_digits(s, d, b) {
        None
    } else {
        let n = dec_val(s, d, b);
        if neg {
            if n <= 0x8000000000000000 {
                Some((-n) as i64)
            } else {
                None
            }
        } else {
            if n <= i64::MAX {
                Some(n as i64)
            } else {
                None
            }
        }
    }
}

proof fn lemma_dec_val_nonneg(s: Seq<u8>, a: int, b: int)
    requires
        all_digits(s, a, b),
    ensures
        dec_val(s, a, b) >= 0,
    decreases b - a,
{
    if a < b {
        lemma_dec_val_nonneg(s, a, b - 1);
    }
}

proof fn lemma_dec_val_grows(s: Seq<u8>, a: int, m: int, b: int)
    requires
        a <= m <= b,
        all_digits(s, a, b),
    ensures
        dec_val(s, a, b) >= dec_val(s, a, m),
    decreases b - m,
{
    if m < b {
        lemma_dec_val_grows(s, a, m, b - 1);
        lemma_dec_val_nonneg(s, a, b - 1);
    }
}

fn parse_i64_span(s: &[u8], a: usize, b: usize) -> (r: Option<i64>)
    requires
        a <= b <= s@.len(),
    ensures
        r == spec_parse_i64(s@, a as int, b as int),
{
    let neg = a < b && s[a] == MINUS;
    let d = if neg { a + 1 } else { a };
    if d >= b {
        return None;
    }
    let limit: u64 = if neg { 0x8000000000000000 } else { 0x7fffffffffffffff };
    let mut acc: u64 = 0;
    let mut i = d;
    while i < b
        invariant
            d <= i <= b <= s@.len(),
            a <= d <= b,
            d < b,
            neg == (a < b && s@[a as int] == MINUS),
            d == if neg { a + 1 } else { a as int },
            limit == if neg { 0x8000000000000000u64 } else { 0x7fffffffffffffffu64 },
            all_digits(s@, d as int, i as int),
            acc == dec_val(s@, d as int, i as int),
            acc <= limit,
        decreases b - i,
    {
        let c = s[i];
        if !(48 <= c && c <= 57) {
            return None;
        }
        let dig = (c - 48) as u64;
        let over = match acc.checked_mul(10) {
            Some(t) => {
                match t.checked_add(dig) {
                    Some(t2) => {
                        if t2 > limit {
                            None
                        } else {
                            Some(t2)
                        }
                    },
                    None => None,
                }
            },
            None => None,
        };
        match over {
            Some(t2) => {
                acc = t2;
                i = i + 1;
            },
            None => {
                proof {
                    assert(dec_val(s@, d as int, i + 1) == acc * 10 + dig);
                    assert(dec_val(s@, d as int, i + 1) > limit);
                    if all_digits(s@, d as int, b as int) {
                        lemma_dec_val_grows(s@, d as int, i + 1, b as int);
                        assert(dec_val(s@, d as int, b as int) > limit);
                    }
                }
                return None;
            },
        }
    }
    if neg {
        if acc == 0x8000000000000000 {
            Some(i64::MIN)
        } else {
            Some(-(acc as i64))
        }
    } else {
        Some(acc as i64)
    }
}

// ---------------------------------------------------------------------------
// String unescaping (for the `message` member)
// ---------------------------------------------------------------------------

/// The byte a simple escape `\c` stands for.
pub open spec fn esc_char(c: u8) -> u8 {
    if c == 98 {
        8
    } else if c == 102 {
        12
    } else if c == 110 {
        10
    } else if c == 114 {
        13
    } else if c == 116 {
        9
    } else {
        c
    }
}

pub open spec fn hex_val(c: u8) -> int {
    if 48 <= c <= 57 {
        c - 48
    } else if 65 <= c <= 70 {
        c - 55
    } else {
        c - 87
    }
}

/// The UTF-8 encoding of a code point below 0x10000.
pub open spec fn utf8_enc(n: int) -> Seq<u8> {
    if n < 0x80 {
        seq![n as u8]
    } else if n < 0x800 {
        seq![(192 + n / 64) as u8, (128 + n % 64) as u8]
    } else {
        seq![(224 + n / 4096) as u8, (128 + (n / 64) % 64) as u8, (128 + n % 64) as u8]
    }
}

/// The code point of the escape `\uXXXX` whose four hex digits stand at
/// `i`, `i+1`, `i+2`, `i+3`.
pub open spec fn hex4_val(s: Seq<u8>, i: int) -> int {
    hex_val(s[i]) * 4096 + hex_val(s[i + 1]) * 256 + hex_val(s[i + 2]) * 16 + hex_val(s[i + 3])
}

/// The bytes that the string content `[i, b)` of `s` stands for once its
/// escapes are resolved, or `None` if an escape is malformed or encodes a
/// surrogate.
pub open spec fn unescape(s: Seq<u8>, i: int, b: int) -> Option<Seq<u8>>
    decreases b - i,
{
    if !(0 <= i <= b <= s.len()) {
        None
    } else if i == b {
        Some(Seq::empty())
    } else if s[i] == BACKSLASH {
        if i + 2 <= b && s[i + 1] == 117 {
            if i + 6 <= b && is_hex_digit(s[i + 2]) && is_hex_digit(s[i + 3]) && is_hex_digit(
                s[i + 4],
            ) && is_hex_digit(s[i + 5]) {
                let code = hex4_val(s, i + 2);
                if 0xD800 <= code < 0xE000 {
                    None
                } else {
                    match unescape(s, i + 6, b) {
                        Some(rest) => Some(utf8_enc(code) + rest),
                        None => None,
                    }
                }
            } else {
                None
            }
        } else if i + 2 <= b && is_simple_escape(s[i + 1]) {
            match unescape(s, i + 2, b) {
                Some(rest) => Some(seq![esc_char(s[i + 1])] + rest),
                None => None,
            }
        } else {
            None
        }
    } else if s[i] < 32 {
        None
    } else {
        match unescape(s, i + 1, b) {
            Some(rest) => Some(seq![s[i]] + rest),
            None => None,
        }
    }
}

fn unescape_exec(s: &[u8], a: usize, b: usize) -> (r: Option<Vec<u8>>)
    requires
        a <= b <= s@.len(),
    ensures
        match r {
            Some(v) => unescape(s@, a as int, b as int) == Some(v@),
            None => unescape(s@, a as int, b as int) is None,
        },
{
    let mut out: Vec<u8> = Vec::new();
    let mut i = a;
    proof {
        match unescape(s@, a as int, b as int) {
            Some(rest) => {
                assert(Seq::<u8>::empty() + rest =~= rest);
            },
            None => {},
        }
    }
    while i < b
        invariant
            a <= i <= b <= s@.len(),
            unescape(s@, a as int, b as int) == (match unescape(s@, i as int, b as int) {
                Some(rest) => Some(out@ + rest),
                None => None::<Seq<u8>>,
            }),
        decreases b - i,
    {
        let ghost out0 = out@;
        let ghost i0 = i as int;
        let c = s[i];
        if c == BACKSLASH {
            if b - i >= 2 && s[i + 1] == 117 {
                if b - i >= 6 && is_hex_digit_exec(s[i + 2]) && is_hex_digit_exec(s[i + 3])
                    && is_hex_digit_exec(s[i + 4]) && is_hex_digit_exec(s[i + 5]) {
                    let code: u32 = hex_val_exec(s[i + 2]) * 4096 + hex_val_exec(s[i + 3]) * 256
                        + hex_val_exec(s[i + 4]) * 16 + hex_val_exec(s[i + 5]);
                    if 0xD800 <= code && code < 0xE000 {
                        return None;
                    }
                    if code < 0x80 {
                        out.push(code as u8);
                    } else if code < 0x800 {
                        out.push((192 + code / 64) as u8);
                        out.push((128 + code % 64) as u8);
                    } else {
                        out.push((224 + code / 4096) as u8);
                        out.push((128 + (code / 64) % 64) as u8);
                        out.push((128 + code % 64) as u8);
                    }
                    proof {
                        assert(out@ =~= out0 + utf8_enc(code as int));
                    }
                    i = i + 6;
                    proof {
                        lemma_unescape_step(s@, i0, b as int, out0, utf8_enc(hex4_val(s@, i0 + 2)), i as int);
                    }
                } else {
                    return None;
                }
            } else if b - i >= 2 && is_simple_escape_byte(s[i + 1]) {
                out.push(esc_char_exec(s[i + 1]));
                proof {
                    assert(out@ =~= out0 + seq![esc_char(s@[i0 + 1])]);
                }
                i = i + 2;
                proof {
                    lemma_unescape_step(s@, i0, b as int, out0, seq![esc_char(s@[i0 + 1])], i as int);
                }
            } else {
                return None;
            }
        } else if c < 32 {
            return None;
        } else {
            out.push(c);
            proof {
                assert(out@ =~= out0 + seq![s@[i0]]);
            }
            i = i + 1;
            proof {
                lemma_unescape_step(s@, i0, b as int, out0, seq![s@[i0]], i as int);
            }
        }
    }
    proof {
        assert(out@ + Seq::<u8>::empty() =~= out@);
    }
    Some(out)
}

/// One step of the loop in `unescape_exec`: when the unit beginning at `i`
/// resolves to `unit` and continues at `j`, prefixing `unit` commutes with
/// the recursive definition.
proof fn lemma_unescape_step(s: Seq<u8>, i: int, b: int, out0: Seq<u8>, unit: Seq<u8>, j: int)
    requires
        unescape(s, i, b) == (match unescape(s, j, b) {
            Some(rest) => Some(unit + rest),
            None => None::<Seq<u8>>,
        }),
    ensures
        (match unescape(s, i, b) {
            Some(rest) => Some(out0 + rest),
            None => None::<Seq<u8>>,
        }) == (match unescape(s, j, b) {
            Some(rest) => Some((out0 + unit) + rest),
            None => None::<Seq<u8>>,
        }),
{
    match unescape(s, j, b) {
        Some(rest) => {
            assert(out0 + (unit + rest) =~= (out0 + unit) + rest);
        },
        None => {},
    }
}

fn hex_val_exec(c: u8) -> (r: u32)
    requires
        is_hex_digit(c),
    ensures
        r == hex_val(c),
        r < 16,
{
    if 48 <= c && c <= 57 {
        (c - 48) as u32
    } else if 65 <= c && c <= 70 {
        (c - 55) as u32
    } else {
        (c - 87) as u32
    }
}

fn is_hex_digit_exec(c: u8) -> (r: bool)
    ensures
        r == is_hex_digit(c),
{
    (48 <= c && c <= 57) || (65 <= c && c <= 70) || (97 <= c && c <= 102)
}

fn is_simple_escape_byte(c: u8) -> (r: bool)
    ensures
        r == is_simple_escape(c),
{
    c == QUOTE || c == BACKSLASH || c == 47 || c == 98 || c == 102 || c == 110 || c == 114
        || c == 116
}

fn esc_char_exec(c: u8) -> (r: u8)
    ensures
        r == esc_char(c),
{
    if c == 98 {
        8
    } else if c == 102 {
        12
    } else if c == 110 {
        10
    } else if c == 114 {
        13
    } else if c == 116 {
        9
    } else {
        c
    }
}

// ---------------------------------------------------------------------------
// Response-envelope decoding
// ---------------------------------------------------------------------------

/// What a response envelope holds, at the specification level.
pub enum SpecDecoded {
    /// The bytes are not a valid envelope.
    Malformed,
    /// The envelope carries the peer's error object.
    RpcError { code: i64, message: Seq<u8>, data: Seq<u8> },
    /// The envelope carries a result; the payload is its raw JSON text.
    Success(Seq<u8>),
}

/// Scans the top level of a response envelope: an object, whose `error` and
/// `result` member value spans are returned together with the position after
/// the closing brace.
pub open spec fn spec_envelope(s: Seq<u8>) -> Option<
    (Option<(int, int)>, Option<(int, int)>, int),
> {
    let i = skip_ws(s, 0);
    if !(0 <= i < s.len() && s[i] == LBRACE) {
        None
    } else {
        let j = skip_ws(s, i + 1);
        if j < s.len() && s[j] == RBRACE {
            Some((None, None, j + 1))
        } else {
            match (find_member(s, j, error_key(), None), find_member(s, j, result_key(), None)) {
                (Some((er, end)), Some((rs, _end2))) => Some((er, rs, end)),
                _ => None,
            }
        }
    }
}

/// Reads the value of the `error` member, which must be an object holding an
/// integer `code`, a string `message` and an optional `data` member.
pub open spec fn spec_error_payload(s: Seq<u8>, a: int, b: int) -> Option<(i64, Seq<u8>, Seq<u8>)> {
    if !(0 <= a < s.len() && s[a] == LBRACE) {
        None
    } else {
        let j = skip_ws(s, a + 1);
        if j < s.len() && s[j] == RBRACE {
            None
        } else {
            match (find_member(s, j, code_key(), None), find_member(s, j, message_key(), None),
            find_member(s, j, data_key(), None)) {
                (Some((Some((c0, c1)), _e1)), Some((Some((m0, m1)), _e2)), Some((dsp, _e3))) => {
                    match spec_parse_i64(s, c0, c1) {
                        Some(code) => {
                            if !(0 <= m0 < s.len() && s[m0] == QUOTE && m0 + 2 <= m1
                                && m1 - 1 <= s.len()) {
                                None
                            } else {
                                match unescape(s, m0 + 1, m1 - 1) {
                                    Some(msg) => {
                                        let data = match dsp {
                                            Some((d0, d1)) => s.subrange(d0, d1),
                                            None => null_text(),
                                        };
                                        Some((code, msg, data))
                                    },
                                    None => None,
                                }
                            }
                        },
                        None => None,
                    }
                },
                _ => None,
            }
        }
    }
}

/// What `decode_response` is obliged to return for the bytes `s`: the raw
/// JSON text of the `result` member, the peer's error object (an `error`
/// member wins over a `result` member), or a decode failure. Trailing bytes
/// after the envelope, other than whitespace, make it malformed.
pub open spec fn spec_decode(s: Seq<u8>) -> SpecDecoded {
    match spec_envelope(s) {
        None => SpecDecoded::Malformed,
        Some((er, rs, end)) => {
            if skip_ws(s, end) != s.len() {
                SpecDecoded::Malformed
            } else {
                match er {
                    Some((a, b)) => match spec_error_payload(s, a, b) {
                        Some((code, msg, data)) => SpecDecoded::RpcError {
                            code,
                            message: msg,
                            data,
                        },
                        None => SpecDecoded::Malformed,
                    },
                    None => match rs {
                        Some((a, b)) => SpecDecoded::Success(s.subrange(a, b)),
                        None => SpecDecoded::Malformed,
                    },
                }
            }
        },
    }
}

fn null_text_exec() -> (r: Vec<u8>)
    ensures
        r@ == null_text(),
{
    let mut v: Vec<u8> = Vec::new();
    v.push(110);
    v.push(117);
    v.push(108);
    v.push(108);
    proof {
        assert(v@ =~= null_text());
    }
    v
}

fn decode_failure() -> (r: Web3Error)
    ensures
        r is DecodeError,
{
    Web3Error::DecodeError(String::from_str("response is not a valid JSON-RPC envelope"))
}

fn decode_error_object(s: &[u8], a: usize, b: usize) -> (r: Option<(i64, Vec<u8>, Vec<u8>)>)
    requires
        a <= b <= s@.len(),
    ensures
        match r {
            Some((code, msg, data)) => spec_error_payload(s@, a as int, b as int) == Some(
                (code, msg@, data@),
            ),
            None => spec_error_payload(s@, a as int, b as int) is None,
        },
{
    if !(a < s.len() && s[a] == LBRACE) {
        return None;
    }
    let j = skip_ws_exec(s, a + 1);
    if j < s.len() && s[j] == RBRACE {
        return None;
    }
    let ckey = code_key_exec();
    let mkey = message_key_exec();
    let dkey = data_key_exec();
    let cm = find_member_exec(s, j, ckey.as_slice(), None);
    let mm = find_member_exec(s, j, mkey.as_slice(), None);
    let dm = find_member_exec(s, j, dkey.as_slice(), None);
    match (cm, mm, dm) {
        (Some((csp, _e1)), Some((msp, _e2)), Some((dsp, _e3))) => {
            match (csp, msp) {
                (Some((c0, c1)), Some((m0, m1))) => {
                    match parse_i64_span(s, c0, c1) {
                        Some(code) => {
                            if !(m0 < s.len() && s[m0] == QUOTE && m1 - m0 >= 2) {
                                return None;
                            }
                            match unescape_exec(s, m0 + 1, m1 - 1) {
                                Some(msg) => {
                                    let data = match dsp {
                                        Some((d0, d1)) => copy_range(s, d0, d1),
                                        None => null_text_exec(),
                                    };
                                    Some((code, msg, data))
                                },
                                None => None,
                            }
                        },
                        None => None,
                    }
                },
                _ => None,
            }
        },
        _ => None,
    }
}

/// Decodes a response envelope. On success the payload is the raw JSON text
/// of the `result` member; a peer-reported error object becomes
/// `JsonRpcError` with its code, its unescaped message and the raw JSON text
/// of its `data` member (`null` when absent); anything that is not a valid
/// envelope holding one of the two members becomes `DecodeError`.
pub fn decode_response(s: &[u8]) -> (r: Result<Vec<u8>, Web3Error>)
    ensures
        ({
            match spec_decode(s@) {
                SpecDecoded::Malformed => r matches Err(e) && e is DecodeError,
                SpecDecoded::RpcError { code, message, data } => r matches Err(e) && (e
                    matches Web3Error::JsonRpcError { code: c, message: m, data: d } && c == code
                    && m@ == message && d@ == data),
                SpecDecoded::Success(v) => r matches Ok(out) && out@ == v,
            }
        }),
{
    let i = skip_ws_exec(s, 0);
    if !(i < s.len() && s[i] == LBRACE) {
        return Err(decode_failure());
    }
    let j = skip_ws_exec(s, i + 1);
    if j < s.len() && s[j] == RBRACE {
        return Err(decode_failure());
    }
    let ekey = error_key_exec();
    let rkey = result_key_exec();
    let er = find_member_exec(s, j, ekey.as_slice(), None);
    let rs = find_member_exec(s, j, rkey.as_slice(), None);
    match (er, rs) {
        (Some((er_sp, end)), Some((rs_sp, _end2))) => {
            let t = skip_ws_exec(s, end);
            if t != s.len() {
                return Err(decode_failure());
            }
            match er_sp {
                Some((a, b)) => {
                    match decode_error_object(s, a, b) {
                        Some((code, message, data)) => Err(
                            Web3Error::JsonRpcError { code, message, data },
                        ),
                        None => Err(decode_failure()),
                    }
                },
                None => {
                    match rs_sp {
                        Some((a, b)) => Ok(copy_range(s, a, b)),
                        None => Err(decode_failure()),
                    }
                },
            }
        },
        _ => Err(decode_failure()),
    }
}

/// If `s` is exactly one JSON string, possibly surrounded by whitespace, the
/// bytes that string denotes.
pub open spec fn spec_string_content(s: Seq<u8>) -> Option<Seq<u8>> {
    let w = skip_ws(s, 0);
    if !(0 <= w < s.len() && s[w] == QUOTE) {
        None
    } else {
        match skip_string_body(s, w + 1) {
            Some(e) => {
                if skip_ws(s, e) == s.len() && w + 2 <= e {
                    unescape(s, w + 1, e - 1)
                } else {
                    None
                }
            },
            None => None,
        }
    }
}

/// Reads a decoded `result` payload as a JSON string, resolving its escapes:
/// the usual final step when the expected result shape is a string.
pub fn json_string_content(s: &[u8]) -> (r: Option<Vec<u8>>)
    ensures
        match r {
            Some(v) => spec_string_content(s@) == Some(v@),
            None => spec_string_content(s@) is None,
        },
{
    let w = skip_ws_exec(s, 0);
    if !(w < s.len() && s[w] == QUOTE) {
        return None;
    }
    match skip_string_body_exec(s, w + 1) {
        Some(e) => {
            let t = skip_ws_exec(s, e);
            if t == s.len() && w + 2 <= e {
                unescape_exec(s, w + 1, e - 1)
            } else {
                None
            }
        },
        None => None,
    }
}

// ---------------------------------------------------------------------------
// Request-envelope encoding
// ---------------------------------------------------------------------------

pub open spec fn hex_digit_of(n: int) -> u8 {
    if n < 10 {
        (48 + n) as u8
    } else {
        (87 + n) as u8
    }
}

/// How one byte of a method name appears inside the JSON string literal.
pub open spec fn esc_bytes(c: u8) -> Seq<u8> {
    if c == QUOTE {
        seq![BACKSLASH, QUOTE]
    } else if c == BACKSLASH {
        seq![BACKSLASH, BACKSLASH]
    } else if c < 32 {
        seq![BACKSLASH, 117u8, 48, 48, hex_digit_of(c as int / 16), hex_digit_of(c as int % 16)]
    } else {
        seq![c]
    }
}

/// The method name as it appears inside the envelope's string literal.
pub open spec fn spec_escape(m: Seq<u8>) -> Seq<u8>
    decreases m.len(),
{
    if m.len() == 0 {
        Seq::empty()
    } else {
        spec_escape(m.drop_last()) + esc_bytes(m.last())
    }
}

/// The decimal digits of `n`.
pub open spec fn spec_dec_u64(n: u64) -> Seq<u8>
    decreases n,
{
    if n < 10 {
        seq![(48 + n) as u8]
    } else {
        spec_dec_u64(n / 10) + seq![(48 + n % 10) as u8]
    }
}

/// The bytes `{"id":`.
pub open spec fn prefix_id() -> Seq<u8> {
    seq![LBRACE, QUOTE, 105u8, 100, QUOTE, COLON]
}

/// The bytes `,"jsonrpc":"2.0","method":"`.
pub open spec fn mid_tag() -> Seq<u8> {
    seq![
        COMMA, QUOTE, 106u8, 115, 111, 110, 114, 112, 99, QUOTE, COLON, QUOTE, 50, 46, 48, QUOTE,
        COMMA, QUOTE, 109, 101, 116, 104, 111, 100, QUOTE, COLON, QUOTE,
    ]
}

/// The bytes `","params":`.
pub open spec fn mid_params() -> Seq<u8> {
    seq![QUOTE, COMMA, QUOTE, 112u8, 97, 114, 97, 109, 115, QUOTE, COLON]
}

/// The serialized request envelope
/// `{"id":N,"jsonrpc":"2.0","method":"...","params":...}` for the given id,
/// method name and already-serialized parameter value.
pub open spec fn spec_request(id: u64, method: Seq<u8>, params: Seq<u8>) -> Seq<u8> {
    prefix_id() + spec_dec_u64(id) + mid_tag() + spec_escape(method) + mid_params() + params
        + seq![RBRACE]
}

fn hex_digit_exec(n: u8) -> (r: u8)
    requires
        n < 16,
    ensures
        r == hex_digit_of(n as int),
{
    if n < 10 {
        48 + n
    } else {
        87 + n
    }
}

fn push_dec_u64(out: &mut Vec<u8>, n: u64)
    ensures
        final(out)@ == old(out)@ + spec_dec_u64(n),
    decreases n,
{
    if n < 10 {
        out.push((48 + n) as u8);
        proof {
            assert(out@ =~= old(out)@ + spec_dec_u64(n));
        }
    } else {
        push_dec_u64(out, n / 10);
        out.push((48 + n % 10) as u8);
        proof {
            assert(out@ =~= old(out)@ + spec_dec_u64(n));
        }
    }
}

fn push_prefix_id(out: &mut Vec<u8>)
    ensures
        final(out)@ == old(out)@ + prefix_id(),
{
    out.push(LBRACE);
    out.push(QUOTE);
    out.push(105);
    out.push(100);
    out.push(QUOTE);
    out.push(COLON);
    proof {
        assert(out@ =~= old(out)@ + prefix_id());
    }
}

fn push_mid_tag(out: &mut Vec<u8>)
    ensures
        final(out)@ == old(out)@ + mid_tag(),
{
    out.push(COMMA);
    out.push(QUOTE);
    out.push(106);
    out.push(115);
    out.push(111);
    out.push(110);
    out.push(114);
    out.push(112);
    out.push(99);
    out.push(QUOTE);
    out.push(COLON);
    out.push(QUOTE);
    out.push(50);
    out.push(46);
    out.push(48);
    out.push(QUOTE);
    out.push(COMMA);
    out.push(QUOTE);
    out.push(109);
    out.push(101);
    out.push(116);
    out.push(104);
    out.push(111);
    out.push(100);
    out.push(QUOTE);
    out.push(COLON);
    out.push(QUOTE);
    proof {
        assert(out@ =~= old(out)@ + mid_tag());
    }
}

fn push_mid_params(out: &mut Vec<u8>)
    ensures
        final(out)@ == old(out)@ + mid_params(),
{
    out.push(QUOTE);
    out.push(COMMA);
    out.push(QUOTE);
    out.push(112);
    out.push(97);
    out.push(114);
    out.push(97);
    out.push(109);
    out.push(115);
    out.push(QUOTE);
    out.push(COLON);
    proof {
        assert(out@ =~= old(out)@ + mid_params());
    }
}

fn push_all(out: &mut Vec<u8>, s: &[u8])
    ensures
        final(out)@ == old(out)@ + s@,
{
    let mut i: usize = 0;
    proof {
        assert(out@ =~= old(out)@ + s@.take(0));
    }
    while i < s.len()
        invariant
            i <= s@.len(),
            out@ == old(out)@ + s@.take(i as int),
        decreases s@.len() - i,
    {
        out.push(s[i]);
        proof {
            assert(old(out)@ + s@.take(i as int) + seq![s@[i as int]] =~= old(out)@ + s@.take(
                i + 1,
            ));
        }
        i = i + 1;
    }
    proof {
        assert(s@.take(s@.len() as int) =~= s@);
    }
}

fn push_escaped(out: &mut Vec<u8>, m: &[u8])
    ensures
        final(out)@ == old(out)@ + spec_escape(m@),
{
    let mut i: usize = 0;
    proof {
        assert(m@.take(0) =~= Seq::<u8>::empty());
        assert(out@ =~= old(out)@ + spec_escape(m@.take(0)));
    }
    while i < m.len()
        invariant
            i <= m@.len(),
            out@ == old(out)@ + spec_escape(m@.take(i as int)),
        decreases m@.len() - i,
    {
        let c = m[i];
        let ghost pre = out@;
        if c == QUOTE {
            out.push(BACKSLASH);
            out.push(QUOTE);
        } else if c == BACKSLASH {
            out.push(BACKSLASH);
            out.push(BACKSLASH);
        } else if c < 32 {
            out.push(BACKSLASH);
            out.push(117);
            out.push(48);
            out.push(48);
            out.push(hex_digit_exec(c / 16));
            out.push(hex_digit_exec(c % 16));
        } else {
            out.push(c);
        }
        proof {
            assert(out@ =~= pre + esc_bytes(m@[i as int]));
            assert(m@.take(i + 1).drop_last() =~= m@.take(i as int));
            assert(m@.take(i + 1).last() == m@[i as int]);
            assert(spec_escape(m@.take(i + 1)) == spec_escape(m@.take(i as int)) + esc_bytes(
                m@[i as int],
            ));
            assert(pre + esc_bytes(m@[i as int]) =~= old(out)@ + spec_escape(m@.take(i + 1)));
        }
        i = i + 1;
    }
    proof {
        assert(m@.take(m@.len() as int) =~= m@);
    }
}

/// Builds the serialized request envelope for an id, a method name and an
/// already-serialized parameter value. The parameters are rejected with
/// `EncodeError`, and nothing is sent, exactly when they are not one
/// well-formed JSON value.
pub fn encode_request(id: u64, method: &[u8], params: &[u8]) -> (r: Result<Vec<u8>, Web3Error>)
    ensures
        is_json_value(params@) ==> (r matches Ok(out) && out@ == spec_request(
            id,
            method@,
            params@,
        )),
        !is_json_value(params@) ==> (r matches Err(e) && e is EncodeError),
{
    if !is_json_value_exec(params) {
        return Err(
            Web3Error::EncodeError(
                String::from_str("params are not a well-formed JSON value"),
            ),
        );
    }
    let mut out: Vec<u8> = Vec::new();
    push_prefix_id(&mut out);
    push_dec_u64(&mut out, id);
    push_mid_tag(&mut out);
    push_escaped(&mut out, method);
    push_mid_params(&mut out);
    push_all(&mut out, params);
    out.push(RBRACE);
    proof {
        assert(out@ =~= spec_request(id, method@, params@));
    }
    Ok(out)
}

} // verus!
