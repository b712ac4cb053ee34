//! The decoder's grammar as spec functions over `Seq<char>`.
//!
//! `spec_decode` is the mathematical meaning of a decode: it walks the
//! input from a position, maps plain characters through unchanged, and
//! gives each escape sub-grammar (`spec_decode_hex`,
//! `spec_decode_unicode`) its own definition. The executable functions
//! in the crate root are proved to return exactly what these say.

use vstd::prelude::*;

use crate::error::DecodeError;

verus! {

/// The fixed one-character substitutions: the tag after `\` on the
/// left, the character it denotes on the right.
pub open spec fn simple_escape(tag: char) -> Option<char> {
    match tag {
        't' => Some('\t'),
        'n' => Some('\n'),
        'r' => Some('\r'),
        '0' => Some('\0'),
        '\\' => Some('\\'),
        '"' => Some('"'),
        '\'' => Some('\''),
        _ => None,
    }
}

/// ASCII hex digits: `0-9`, `a-f`, `A-F`.
pub open spec fn is_hex_digit(c: char) -> bool {
    ||| 0x30 <= c as u32 && c as u32 <= 0x39
    ||| 0x61 <= c as u32 && c as u32 <= 0x66
    ||| 0x41 <= c as u32 && c as u32 <= 0x46
}

/// The numeric value of one hex digit.
pub open spec fn hex_digit_value(c: char) -> nat {
    if 0x30 <= c as u32 && c as u32 <= 0x39 {
        (c as u32 - 0x30) as nat
    } else if 0x61 <= c as u32 && c as u32 <= 0x66 {
        (c as u32 - 0x61 + 10) as nat
    } else {
        (c as u32 - 0x41 + 10) as nat
    }
}

/// The value of a run of hex digits read in base 16, most significant
/// digit first.
pub open spec fn hex_run_value(digits: Seq<char>) -> nat
    decreases digits.len(),
{
    if digits.len() == 0 {
        0
    } else {
        hex_run_value(digits.drop_last()) * 16 + hex_digit_value(digits.last())
    }
}

/// The first position at or after `i` that does not hold a hex digit
/// (the length of the input if the run reaches its end).
pub open spec fn hex_run_end(s: Seq<char>, i: nat) -> nat
    decreases s.len() - i,
{
    if i < s.len() && is_hex_digit(s[i as int]) {
        hex_run_end(s, (i + 1) as nat)
    } else {
        i
    }
}

/// A Unicode scalar value: any code point outside the surrogate range
/// and at most 0x10FFFF.
pub open spec fn is_scalar_value(v: nat) -> bool {
    v < 0xD800 || (0xE000 <= v && v <= 0x10FFFF)
}

/// The character with scalar value `v` (meaningful only when
/// `is_scalar_value(v)`).
pub open spec fn scalar_char(v: nat) -> char {
    (v as u32) as char
}

/// What a `\x` escape yields with the cursor at `i`, just past the
/// `x`: the character named by the next two hex digits and the cursor
/// past them, or `InvalidHexChar`.
pub open spec fn spec_decode_hex(s: Seq<char>, i: nat) -> Result<(char, nat), DecodeError> {
    if i + 2 > s.len() {
        Err(DecodeError::InvalidHexChar)
    } else if is_hex_digit(s[i as int]) && is_hex_digit(s[i as int + 1]) {
        Ok(
            (
                scalar_char(hex_digit_value(s[i as int]) * 16 + hex_digit_value(s[i as int + 1])),
                (i + 2) as nat,
            ),
        )
    } else {
        Err(DecodeError::InvalidHexChar)
    }
}

/// What a `\u` escape yields with the cursor at `i`, just past the
/// `u`: the scalar value of the braced hex run and the cursor past the
/// closing brace, or `InvalidUnicode` when the braces are missing, the
/// run is empty, or the value is no scalar value.
pub open spec fn spec_decode_unicode(s: Seq<char>, i: nat) -> Result<(char, nat), DecodeError> {
    if i >= s.len() || s[i as int] != '{' {
        Err(DecodeError::InvalidUnicode)
    } else {
        let j = hex_run_end(s, (i + 1) as nat);
        if j >= s.len() || s[j as int] != '}' {
            Err(DecodeError::InvalidUnicode)
        } else {
            let digits = s.subrange(i as int + 1, j as int);
            let v = hex_run_value(digits);
            if digits.len() == 0 || !is_scalar_value(v) {
                Err(DecodeError::InvalidUnicode)
            } else {
                Ok((scalar_char(v), (j + 1) as nat))
            }
        }
    }
}

/// Prepends one decoded character to the result of decoding the rest.
pub open spec fn prepend_char(c: char, rest: Result<Seq<char>, DecodeError>) -> Result<
    Seq<char>,
    DecodeError,
> {
    match rest {
        Ok(t) => Ok(seq![c] + t),
        Err(e) => Err(e),
    }
}

/// What decoding yields from position `i` to the end of the input.
pub open spec fn spec_decode_from(s: Seq<char>, i: nat) -> Result<Seq<char>, DecodeError>
    decreases s.len() - i,
        via spec_decode_from_decreases
{
    if i >= s.len() {
        Ok(Seq::empty())
    } else if s[i as int] != '\\' {
        prepend_char(s[i as int], spec_decode_from(s, (i + 1) as nat))
    } else if i + 1 >= s.len() {
        Err(DecodeError::InvalidEscape)
    } else {
        let tag = s[i as int + 1];
        if simple_escape(tag) is Some {
            prepend_char(simple_escape(tag)->Some_0, spec_decode_from(s, (i + 2) as nat))
        } else if tag == 'x' {
            match spec_decode_hex(s, (i + 2) as nat) {
                Ok(p) => prepend_char(p.0, spec_decode_from(s, p.1)),
                Err(e) => Err(e),
            }
        } else if tag == 'u' {
            match spec_decode_unicode(s, (i + 2) as nat) {
                Ok(p) => prepend_char(p.0, spec_decode_from(s, p.1)),
                Err(e) => Err(e),
            }
        } else {
            Err(DecodeError::InvalidEscape)
        }
    }
}

#[via_fn]
proof fn spec_decode_from_decreases(s: Seq<char>, i: nat) {
    if i < s.len() && s[i as int] == '\\' && i + 1 < s.len() && s[i as int + 1] == 'u' {
        lemma_spec_decode_unicode_advances(s, (i + 2) as nat);
    }
}

/// What decoding the whole input yields.
pub open spec fn spec_decode(s: Seq<char>) -> Result<Seq<char>, DecodeError> {
    spec_decode_from(s, 0)
}

/// Prepends an already-decoded prefix to the result of decoding the
/// rest.
pub open spec fn prepend(prefix: Seq<char>, rest: Result<Seq<char>, DecodeError>) -> Result<
    Seq<char>,
    DecodeError,
> {
    match rest {
        Ok(t) => Ok(prefix + t),
        Err(e) => Err(e),
    }
}

/// An empty prefix changes nothing.
pub proof fn lemma_prepend_empty(rest: Result<Seq<char>, DecodeError>)
    ensures
        prepend(Seq::empty(), rest) == rest,
{
    if rest is Ok {
        assert(Seq::<char>::empty() + rest->Ok_0 =~= rest->Ok_0);
    }
}

/// Moving one decoded character from the rest onto the prefix keeps
/// the combined result.
pub proof fn lemma_prepend_push(prefix: Seq<char>, c: char, rest: Result<Seq<char>, DecodeError>)
    ensures
        prepend(prefix, prepend_char(c, rest)) == prepend(prefix.push(c), rest),
{
    if rest is Ok {
        assert(prefix + (seq![c] + rest->Ok_0) =~= prefix.push(c) + rest->Ok_0);
    }
}

/// The hex-digit run found by `hex_run_end` lies between its start and
/// the end of the input, holds hex digits only, and is maximal.
pub proof fn lemma_hex_run_end_bounds(s: Seq<char>, i: nat)
    requires
        i <= s.len(),
    ensures
        i <= hex_run_end(s, i) <= s.len(),
        forall|k: int| i <= k < hex_run_end(s, i) ==> is_hex_digit(s[k]),
        hex_run_end(s, i) < s.len() ==> !is_hex_digit(s[hex_run_end(s, i) as int]),
    decreases s.len() - i,
{
    if i < s.len() && is_hex_digit(s[i as int]) {
        lemma_hex_run_end_bounds(s, (i + 1) as nat);
    }
}

/// A successful `\u` escape consumes the brace, at least one digit,
/// and the closing brace: the cursor moves forward and stays inside
/// the input.
pub proof fn lemma_spec_decode_unicode_advances(s: Seq<char>, i: nat)
    requires
        i <= s.len(),
    ensures
        spec_decode_unicode(s, i) matches Ok(p) ==> i + 3 <= p.1 <= s.len(),
{
    if i < s.len() && s[i as int] == '{' {
        lemma_hex_run_end_bounds(s, (i + 1) as nat);
    }
}

proof fn lemma_decode_plain_from(s: Seq<char>, i: nat)
    requires
        i <= s.len(),
        forall|k: int| 0 <= k < s.len() ==> s[k] != '\\',
    ensures
        spec_decode_from(s, i) == Ok::<Seq<char>, DecodeError>(
            s.subrange(i as int, s.len() as int),
        ),
    decreases s.len() - i,
{
    if i < s.len() {
        lemma_decode_plain_from(s, (i + 1) as nat);
        assert(seq![s[i as int]] + s.subrange(i as int + 1, s.len() as int) =~= s.subrange(
            i as int,
            s.len() as int,
        ));
    } else {
        assert(s.subrange(i as int, s.len() as int) =~= Seq::<char>::empty());
    }
}

/// Decoding is the identity on inputs without a backslash: no escape
/// sequence starts, so every character passes through unchanged.
pub proof fn lemma_decode_plain(s: Seq<char>)
    requires
        forall|k: int| 0 <= k < s.len() ==> s[k] != '\\',
    ensures
        spec_decode(s) == Ok::<Seq<char>, DecodeError>(s),
{
    lemma_decode_plain_from(s, 0);
    assert(s.subrange(0, s.len() as int) =~= s);
}


} // verus!
