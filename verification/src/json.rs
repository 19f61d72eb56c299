//! Byte-level scanner for JSON values.
//!
//! The wire format of the client is JSON, so the library scans it itself, on
//! bytes. The scanner does not build a tree: it validates a value and finds
//! the position after it, which is all the envelope codec needs to slice the
//! members it cares about out of a response. Every executable function is
//! proved equal to a specification-level scanner over the byte sequence.
//!
//! Accepted grammar: standard JSON with `\uXXXX` escapes restricted to
//! non-surrogate code points (an escaped astral character must therefore
//! appear as raw UTF-8 rather than as a surrogate pair).

use vstd::prelude::*;

verus! {

pub const QUOTE: u8 = 34;
pub const BACKSLASH: u8 = 92;
pub const LBRACE: u8 = 123;
pub const RBRACE: u8 = 125;
pub const LBRACKET: u8 = 91;
pub const RBRACKET: u8 = 93;
pub const COLON: u8 = 58;
pub const COMMA: u8 = 44;
pub const MINUS: u8 = 45;

pub open spec fn is_ws(c: u8) -> bool {
    c == 32 || c == 9 || c == 10 || c == 13
}

pub open spec fn is_digit(c: u8) -> bool {
    48 <= c <= 57
}

pub open spec fn is_hex_digit(c: u8) -> bool {
    (48 <= c <= 57) || (65 <= c <= 70) || (97 <= c <= 102)
}

/// The characters that may follow a backslash in a string, besides `u`.
pub open spec fn is_simple_escape(c: u8) -> bool {
    c == QUOTE || c == BACKSLASH || c == 47 || c == 98 || c == 102 || c == 110 || c == 114
        || c == 116
}

/// The first position at or after `i` that does not hold whitespace.
pub open spec fn skip_ws(s: Seq<u8>, i: int) -> int
    decreases s.len() - i,
{
    if 0 <= i < s.len() && is_ws(s[i]) {
        skip_ws(s, i + 1)
    } else {
        i
    }
}

pub fn skip_ws_exec(s: &[u8], i: usize) -> (r: usize)
    requires
        i <= s@.len(),
    ensures
        r == skip_ws(s@, i as int),
        i <= r <= s@.len(),
    decreases s@.len() - i,
{
    let mut j = i;
    while j < s.len() && (s[j] == 32 || s[j] == 9 || s[j] == 10 || s[j] == 13)
        invariant
            i <= j <= s@.len(),
            skip_ws(s@, i as int) == skip_ws(s@, j as int),
        decreases s@.len() - j,
    {
        j = j + 1;
    }
    j
}

/// The first position at or after `i` that does not hold a decimal digit.
pub open spec fn skip_digits(s: Seq<u8>, i: int) -> int
    decreases s.len() - i,
{
    if 0 <= i < s.len() && is_digit(s[i]) {
        skip_digits(s, i + 1)
    } else {
        i
    }
}

pub proof fn lemma_skip_digits_bounds(s: Seq<u8>, i: int)
    requires
        0 <= i <= s.len(),
    ensures
        i <= skip_digits(s, i) <= s.len(),
    decreases s.len() - i,
{
    if i < s.len() && is_digit(s[i]) {
        lemma_skip_digits_bounds(s, i + 1);
    }
}

pub fn skip_digits_exec(s: &[u8], i: usize) -> (r: usize)
    requires
        i <= s@.len(),
    ensures
        r == skip_digits(s@, i as int),
        i <= r <= s@.len(),
{
    let mut j = i;
    while j < s.len() && 48 <= s[j] && s[j] <= 57
        invariant
            i <= j <= s@.len(),
            skip_digits(s@, i as int) == skip_digits(s@, j as int),
        decreases s@.len() - j,
    {
        j = j + 1;
    }
    j
}

/// Scans the rest of a string whose opening quote stands just before `i`;
/// the result is the position after the closing quote.
pub open spec fn skip_string_body(s: Seq<u8>, i: int) -> Option<int>
    decreases s.len() - i,
{
    if !(0 <= i < s.len()) {
        None
    } else if s[i] == QUOTE {
        Some(i + 1)
    } else if s[i] == BACKSLASH {
        if i + 2 <= s.len() && s[i + 1] == 117 {
            if i + 6 <= s.len() && is_hex_digit(s[i + 2]) && is_hex_digit(s[i + 3])
                && is_hex_digit(s[i + 4]) && is_hex_digit(s[i + 5]) {
                skip_string_body(s, i + 6)
            } else {
                None
            }
        } else if i + 2 <= s.len() && is_simple_escape(s[i + 1]) {
            skip_string_body(s, i + 2)
        } else {
            None
        }
    } else if s[i] < 32 {
        None
    } else {
        skip_string_body(s, i + 1)
    }
}

pub fn skip_string_body_exec(s: &[u8], i: usize) -> (r: Option<usize>)
    requires
        i <= s@.len(),
    ensures
        match r {
            Some(j) => skip_string_body(s@, i as int) == Some(j as int) && i < j <= s@.len(),
            None => skip_string_body(s@, i as int) is None,
        },
{
    let mut cur = i;
    loop
        invariant
            i <= cur <= s@.len(),
            skip_string_body(s@, i as int) == skip_string_body(s@, cur as int),
        decreases s@.len() - cur,
    {
        if cur >= s.len() {
            return None;
        }
        let c = s[cur];
        if c == QUOTE {
            return Some(cur + 1);
        } else if c == BACKSLASH {
            if s.len() - cur >= 2 && s[cur + 1] == 117 {
                if s.len() - cur >= 6 && is_hex_digit_exec(s[cur + 2]) && is_hex_digit_exec(s[cur + 3])
                    && is_hex_digit_exec(s[cur + 4]) && is_hex_digit_exec(s[cur + 5]) {
                    cur = cur + 6;
                } else {
                    return None;
                }
            } else if s.len() - cur >= 2 && is_simple_escape_exec(s[cur + 1]) {
                cur = cur + 2;
            } else {
                return None;
            }
        } else if c < 32 {
            return None;
        } else {
            cur = cur + 1;
        }
    }
}

pub fn is_hex_digit_exec(c: u8) -> (r: bool)
    ensures
        r == is_hex_digit(c),
{
    (48 <= c && c <= 57) || (65 <= c && c <= 70) || (97 <= c && c <= 102)
}

pub fn is_simple_escape_exec(c: u8) -> (r: bool)
    ensures
        r == is_simple_escape(c),
{
    c == QUOTE || c == BACKSLASH || c == 47 || c == 98 || c == 102 || c == 110 || c == 114
        || c == 116
}

/// Scans a number beginning at `i`: optional sign, integer part, optional
/// fraction, optional exponent.
pub open spec fn skip_number(s: Seq<u8>, i: int) -> Option<int> {
    let j = if 0 <= i < s.len() && s[i] == MINUS {
        i + 1
    } else {
        i
    };
    if !(0 <= j < s.len() && is_digit(s[j])) {
        None
    } else {
        let a = if s[j] == 48 {
            j + 1
        } else {
            skip_digits(s, j)
        };
        skip_number_frac(s, a)
    }
}

pub open spec fn skip_number_frac(s: Seq<u8>, a: int) -> Option<int> {
    if 0 <= a < s.len() && s[a] == 46 {
        if a + 1 < s.len() && is_digit(s[a + 1]) {
            skip_number_exp(s, skip_digits(s, a + 1))
        } else {
            None
        }
    } else {
        skip_number_exp(s, a)
    }
}

pub open spec fn skip_number_exp(s: Seq<u8>, a: int) -> Option<int> {
    if 0 <= a < s.len() && (s[a] == 101 || s[a] == 69) {
        let b = if a + 1 < s.len() && (s[a + 1] == 43 || s[a + 1] == MINUS) {
            a + 2
        } else {
            a + 1
        };
        if 0 <= b < s.len() && is_digit(s[b]) {
            Some(skip_digits(s, b))
        } else {
            None
        }
    } else {
        Some(a)
    }
}

pub proof fn lemma_skip_number_bounds(s: Seq<u8>, i: int)
    requires
        0 <= i,
    ensures
        skip_number(s, i) matches Some(j) ==> i < j <= s.len(),
{
    let j = if 0 <= i < s.len() && s[i] == MINUS { i + 1 } else { i };
    if 0 <= j < s.len() && is_digit(s[j]) {
        let a = if s[j] == 48 { j + 1 } else { skip_digits(s, j) };
        lemma_skip_digits_bounds(s, j + 1);
        assert(s[j] != 48 ==> skip_digits(s, j) == skip_digits(s, j + 1));
        lemma_skip_number_frac_bounds(s, a);
    }
}

pub proof fn lemma_skip_number_frac_bounds(s: Seq<u8>, a: int)
    requires
        0 <= a <= s.len(),
    ensures
        skip_number_frac(s, a) matches Some(j) ==> a <= j <= s.len(),
{
    if 0 <= a < s.len() && s[a] == 46 {
        if a + 1 < s.len() && is_digit(s[a + 1]) {
            lemma_skip_digits_bounds(s, a + 1);
            lemma_skip_number_exp_bounds(s, skip_digits(s, a + 1));
        }
    } else {
        lemma_skip_number_exp_bounds(s, a);
    }
}

pub proof fn lemma_skip_number_exp_bounds(s: Seq<u8>, a: int)
    requires
        0 <= a <= s.len(),
    ensures
        skip_number_exp(s, a) matches Some(j) ==> a <= j <= s.len(),
{
    if 0 <= a < s.len() && (s[a] == 101 || s[a] == 69) {
        let b = if a + 1 < s.len() && (s[a + 1] == 43 || s[a + 1] == MINUS) { a + 2 } else { a + 1 };
        if 0 <= b < s.len() && is_digit(s[b]) {
            lemma_skip_digits_bounds(s, b);
        }
    }
}

pub fn skip_number_exec(s: &[u8], i: usize) -> (r: Option<usize>)
    requires
        i <= s@.len(),
    ensures
        match r {
            Some(j) => skip_number(s@, i as int) == Some(j as int) && i < j <= s@.len(),
            None => skip_number(s@, i as int) is None,
        },
{
    let j = if i < s.len() && s[i] == MINUS {
        i + 1
    } else {
        i
    };
    if !(j < s.len() && 48 <= s[j] && s[j] <= 57) {
        return None;
    }
    let a = if s[j] == 48 {
        j + 1
    } else {
        skip_digits_exec(s, j)
    };
    let r = skip_number_frac_exec(s, a);
    proof {
        lemma_skip_number_bounds(s@, i as int);
    }
    r
}

fn skip_number_frac_exec(s: &[u8], a: usize) -> (r: Option<usize>)
    requires
        a <= s@.len(),
    ensures
        match r {
            Some(j) => skip_number_frac(s@, a as int) == Some(j as int) && a <= j <= s@.len(),
            None => skip_number_frac(s@, a as int) is None,
        },
{
    if a < s.len() && s[a] == 46 {
        if a + 1 < s.len() && 48 <= s[a + 1] && s[a + 1] <= 57 {
            skip_number_exp_exec(s, skip_digits_exec(s, a + 1))
        } else {
            None
        }
    } else {
        skip_number_exp_exec(s, a)
    }
}

fn skip_number_exp_exec(s: &[u8], a: usize) -> (r: Option<usize>)
    requires
        a <= s@.len(),
    ensures
        match r {
            Some(j) => skip_number_exp(s@, a as int) == Some(j as int) && a <= j <= s@.len(),
            None => skip_number_exp(s@, a as int) is None,
        },
{
    if a < s.len() && (s[a] == 101 || s[a] == 69) {
        let b = if a + 1 < s.len() && (s[a + 1] == 43 || s[a + 1] == MINUS) {
            a + 2
        } else {
            a + 1
        };
        if b < s.len() && 48 <= s[b] && s[b] <= 57 {
            Some(skip_digits_exec(s, b))
        } else {
            None
        }
    } else {
        Some(a)
    }
}

/// Scans one complete JSON value beginning exactly at `i` (no leading
/// whitespace); the result is the position just after the value.
pub open spec fn skip_value(s: Seq<u8>, i: int) -> Option<int>
    decreases s.len() - i, 0int,
{
    if !(0 <= i < s.len()) {
        None
    } else if s[i] == QUOTE {
        skip_string_body(s, i + 1)
    } else if s[i] == LBRACE {
        let j = skip_ws(s, i + 1);
        if i + 1 <= j <= s.len() {
            if j < s.len() && s[j] == RBRACE {
                Some(j + 1)
            } else {
                skip_object_rest(s, j)
            }
        } else {
            None
        }
    } else if s[i] == LBRACKET {
        let j = skip_ws(s, i + 1);
        if i + 1 <= j <= s.len() {
            if j < s.len() && s[j] == RBRACKET {
                Some(j + 1)
            } else {
                skip_array_rest(s, j)
            }
        } else {
            None
        }
    } else if s[i] == 116 {
        if i + 4 <= s.len() && s[i + 1] == 114 && s[i + 2] == 117 && s[i + 3] == 101 {
            Some(i + 4)
        } else {
            None
        }
    } else if s[i] == 102 {
        if i + 5 <= s.len() && s[i + 1] == 97 && s[i + 2] == 108 && s[i + 3] == 115
            && s[i + 4] == 101 {
            Some(i + 5)
        } else {
            None
        }
    } else if s[i] == 110 {
        if i + 4 <= s.len() && s[i + 1] == 117 && s[i + 2] == 108 && s[i + 3] == 108 {
            Some(i + 4)
        } else {
            None
        }
    } else if s[i] == MINUS || is_digit(s[i]) {
        skip_number(s, i)
    } else {
        None
    }
}

/// Scans the members of a non-empty array from the position of its first
/// element (whitespace not yet consumed) to just after the closing bracket.
pub open spec fn skip_array_rest(s: Seq<u8>, i: int) -> Option<int>
    decreases s.len() - i, 1int,
{
    if !(0 <= i <= s.len()) {
        None
    } else {
        let w = skip_ws(s, i);
        if !(i <= w <= s.len()) {
            None
        } else {
            match skip_value(s, w) {
                None => None,
                Some(v) => {
                    if !(w < v <= s.len()) {
                        None
                    } else {
                        let k = skip_ws(s, v);
                        if !(v <= k <= s.len()) {
                            None
                        } else if k < s.len() && s[k] == COMMA {
                            skip_array_rest(s, k + 1)
                        } else if k < s.len() && s[k] == RBRACKET {
                            Some(k + 1)
                        } else {
                            None
                        }
                    }
                },
            }
        }
    }
}

/// Scans the members of a non-empty object from the position of its first
/// key (whitespace not yet consumed) to just after the closing brace.
pub open spec fn skip_object_rest(s: Seq<u8>, i: int) -> Option<int>
    decreases s.len() - i, 1int,
{
    if !(0 <= i <= s.len()) {
        None
    } else {
        let w = skip_ws(s, i);
        if !(i <= w < s.len() && s[w] == QUOTE) {
            None
        } else {
            match skip_string_body(s, w + 1) {
                None => None,
                Some(ke) => {
                    if !(w + 1 < ke <= s.len()) {
                        None
                    } else {
                        let c = skip_ws(s, ke);
                        if !(ke <= c < s.len() && s[c] == COLON) {
                            None
                        } else {
                            let v0 = skip_ws(s, c + 1);
                            if !(c + 1 <= v0 <= s.len()) {
                                None
                            } else {
                                match skip_value(s, v0) {
                                    None => None,
                                    Some(v) => {
                                        if !(v0 < v <= s.len()) {
                                            None
                                        } else {
                                            let k = skip_ws(s, v);
                                            if !(v <= k <= s.len()) {
                                                None
                                            } else if k < s.len() && s[k] == COMMA {
                                                skip_object_rest(s, k + 1)
                                            } else if k < s.len() && s[k] == RBRACE {
                                                Some(k + 1)
                                            } else {
                                                None
                                            }
                                        }
                                    },
                                }
                            }
                        }
                    }
                },
            }
        }
    }
}

pub fn skip_value_exec(s: &[u8], i: usize) -> (r: Option<usize>)
    requires
        i <= s@.len(),
    ensures
        match r {
            Some(j) => skip_value(s@, i as int) == Some(j as int) && i < j <= s@.len(),
            None => skip_value(s@, i as int) is None,
        },
    decreases s@.len() - i, 0int,
{
    if i >= s.len() {
        return None;
    }
    let c = s[i];
    if c == QUOTE {
        skip_string_body_exec(s, i + 1)
    } else if c == LBRACE {
        let j = skip_ws_exec(s, i + 1);
        if j < s.len() && s[j] == RBRACE {
            Some(j + 1)
        } else {
            skip_object_rest_exec(s, j)
        }
    } else if c == LBRACKET {
        let j = skip_ws_exec(s, i + 1);
        if j < s.len() && s[j] == RBRACKET {
            Some(j + 1)
        } else {
            skip_array_rest_exec(s, j)
        }
    } else if c == 116 {
        if s.len() - i >= 4 && s[i + 1] == 114 && s[i + 2] == 117 && s[i + 3] == 101 {
            Some(i + 4)
        } else {
            None
        }
    } else if c == 102 {
        if s.len() - i >= 5 && s[i + 1] == 97 && s[i + 2] == 108 && s[i + 3] == 115
            && s[i + 4] == 101 {
            Some(i + 5)
        } else {
            None
        }
    } else if c == 110 {
        if s.len() - i >= 4 && s[i + 1] == 117 && s[i + 2] == 108 && s[i + 3] == 108 {
            Some(i + 4)
        } else {
            None
        }
    } else if c == MINUS || (48 <= c && c <= 57) {
        skip_number_exec(s, i)
    } else {
        None
    }
}

fn skip_array_rest_exec(s: &[u8], i: usize) -> (r: Option<usize>)
    requires
        i <= s@.len(),
    ensures
        match r {
            Some(j) => skip_array_rest(s@, i as int) == Some(j as int) && i < j <= s@.len(),
            None => skip_array_rest(s@, i as int) is None,
        },
    decreases s@.len() - i, 1int,
{
    let w = skip_ws_exec(s, i);
    match skip_value_exec(s, w) {
        None => None,
        Some(v) => {
            let k = skip_ws_exec(s, v);
            if k < s.len() && s[k] == COMMA {
                skip_array_rest_exec(s, k + 1)
            } else if k < s.len() && s[k] == RBRACKET {
                Some(k + 1)
            } else {
                None
            }
        },
    }
}

fn skip_object_rest_exec(s: &[u8], i: usize) -> (r: Option<usize>)
    requires
        i <= s@.len(),
    ensures
        match r {
            Some(j) => skip_object_rest(s@, i as int) == Some(j as int) && i < j <= s@.len(),
            None => skip_object_rest(s@, i as int) is None,
        },
    decreases s@.len() - i, 1int,
{
    let w = skip_ws_exec(s, i);
    if !(w < s.len() && s[w] == QUOTE) {
        return None;
    }
    match skip_string_body_exec(s, w + 1) {
        None => None,
        Some(ke) => {
            let c = skip_ws_exec(s, ke);
            if !(c < s.len() && s[c] == COLON) {
                return None;
            }
            let v0 = skip_ws_exec(s, c + 1);
            match skip_value_exec(s, v0) {
                None => None,
                Some(v) => {
                    let k = skip_ws_exec(s, v);
                    if k < s.len() && s[k] == COMMA {
                        skip_object_rest_exec(s, k + 1)
                    } else if k < s.len() && s[k] == RBRACE {
                        Some(k + 1)
                    } else {
                        None
                    }
                },
            }
        },
    }
}

/// Whether `s` holds exactly one JSON value, possibly surrounded by
/// whitespace.
pub open spec fn is_json_value(s: Seq<u8>) -> bool {
    let w = skip_ws(s, 0);
    match skip_value(s, w) {
        Some(v) => skip_ws(s, v) == s.len(),
        None => false,
    }
}

pub fn is_json_value_exec(s: &[u8]) -> (r: bool)
    ensures
        r == is_json_value(s@),
{
    let w = skip_ws_exec(s, 0);
    match skip_value_exec(s, w) {
        Some(v) => {
            let e = skip_ws_exec(s, v);
            e == s.len()
        },
        None => false,
    }
}

} // verus!
