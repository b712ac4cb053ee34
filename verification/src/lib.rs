//! Decoder for backslash escape sequences.
//!
//! The single entry point, [`decode`], turns text containing simple
//! control escapes (`\t`, `\n`, ...), two-digit hex escapes (`\x41`),
//! and braced Unicode escapes (`\u{21B5}`) into the literal string
//! those sequences denote, or reports the first malformed construct
//! as a [`DecodeError`]. The function is verified against the
//! grammar in [`model`].

use vstd::prelude::*;

pub mod error;
pub mod model;

pub use error::DecodeError;

verus! {

use vstd::string::StrSliceExecFns;

use crate::model::{
    is_hex_digit, hex_digit_value, hex_run_end, hex_run_value, is_scalar_value, simple_escape,
    spec_decode, spec_decode_from, spec_decode_hex, spec_decode_unicode, prepend,
    lemma_hex_run_end_bounds, lemma_prepend_empty, lemma_prepend_push,
    lemma_spec_decode_unicode_advances,
};

/// Relies on char::from_u32: it returns `Some` exactly on Unicode
/// scalar values (everything up to 0x10FFFF but the surrogates), and
/// the returned character has the given scalar value.
pub assume_specification[ char::from_u32 ](v: u32) -> (r: Option<char>)
    ensures
        r is Some <==> is_scalar_value(v as nat),
        r matches Some(c) ==> c as u32 == v,
;

/// Relies on String: FromIterator<char>: collecting characters yields
/// the string of exactly those characters in order.
#[verifier::external_body]
fn chars_to_string(chars: &Vec<char>) -> (r: String)
    ensures
        r@ == chars@,
{
    chars.iter().collect()
}

/// The numeric value of `c` as a hex digit, or `None` when `c` is not
/// one.
fn hex_digit_val(c: char) -> (r: Option<u8>)
    ensures
        r is Some <==> is_hex_digit(c),
        r matches Some(v) ==> v as nat == hex_digit_value(c) && v < 16,
{
    let v: u32 = c as u32;
    if 0x30 <= v && v <= 0x39 {
        Some((v - 0x30) as u8)
    } else if 0x61 <= v && v <= 0x66 {
        Some((v - 0x61 + 10) as u8)
    } else if 0x41 <= v && v <= 0x46 {
        Some((v - 0x41 + 10) as u8)
    } else {
        None
    }
}

/// Decodes the two-hex-digit body of a `\x` escape.
///
/// `start` is the cursor just past the `x`. On success the result
/// carries the decoded character and the cursor past the two digits;
/// the outcome is exactly what `spec_decode_hex` says.
pub fn escape_hex(input: &str, start: usize) -> (r: Result<(char, usize), DecodeError>)
    ensures
        r matches Ok(p) ==> spec_decode_hex(input@, start as nat) == Ok::<
            (char, nat),
            DecodeError,
        >((p.0, p.1 as nat)),
        r matches Err(e) ==> spec_decode_hex(input@, start as nat) == Err::<
            (char, nat),
            DecodeError,
        >(e),
{
    let n = input.unicode_len();
    if start > n || n - start < 2 {
        return Err(DecodeError::InvalidHexChar);
    }
    let c1 = input.get_char(start);
    let c2 = input.get_char(start + 1);
    let d1 = match hex_digit_val(c1) {
        Some(d) => d,
        None => {
            return Err(DecodeError::InvalidHexChar);
        },
    };
    let d2 = match hex_digit_val(c2) {
        Some(d) => d,
        None => {
            return Err(DecodeError::InvalidHexChar);
        },
    };
    let v: u32 = (d1 as u32) * 16 + (d2 as u32);
    match char::from_u32(v) {
        Some(c) => {
            proof {
                vstd::utf8::char_u32_cast(c, v);
            }
            Ok((c, start + 2))
        },
        None => {
            proof {
                assert(false);
            }
            Err(DecodeError::InvalidHexChar)
        },
    }
}

/// Advances the cursor over a maximal run of hex digits without
/// consuming the character that ends it.
fn find_hex_run_end(input: &str, from: usize, n: usize) -> (j: usize)
    requires
        n as nat == input@.len(),
        from <= n,
    ensures
        j as nat == hex_run_end(input@, from as nat),
        from <= j <= n,
{
    let mut j = from;
    let mut stop = false;
    while !stop
        invariant
            n as nat == input@.len(),
            from <= j <= n,
            hex_run_end(input@, from as nat) == hex_run_end(input@, j as nat),
            stop ==> (j as nat == n as nat || !is_hex_digit(input@[j as int])),
        decreases n - j + (if stop { 0int } else { 1int }),
    {
        if j >= n {
            stop = true;
        } else {
            let c = input.get_char(j);
            if hex_digit_val(c).is_some() {
                j = j + 1;
            } else {
                stop = true;
            }
        }
    }
    j
}

/// The scalar value of the hex digits between `from` and `to`, or
/// `None` when it exceeds the largest code point, 0x10FFFF.
fn hex_run_val(input: &str, from: usize, to: usize) -> (r: Option<u32>)
    requires
        to as nat <= input@.len(),
        from <= to,
        forall|k: int| from <= k < to ==> is_hex_digit(input@[k]),
    ensures
        r matches Some(v) ==> v as nat == hex_run_value(input@.subrange(from as int, to as int))
            && v <= 0x10FFFF,
        r is None ==> hex_run_value(input@.subrange(from as int, to as int)) > 0x10FFFF,
{
    let mut k = from;
    let mut acc: u32 = 0;
    let mut over = false;
    proof {
        assert(input@.subrange(from as int, from as int) =~= Seq::<char>::empty());
    }
    while k < to
        invariant
            to as nat <= input@.len(),
            from <= k <= to,
            forall|t: int| from <= t < to ==> is_hex_digit(input@[t]),
            over <==> hex_run_value(input@.subrange(from as int, k as int)) > 0x10FFFF,
            !over ==> acc as nat == hex_run_value(input@.subrange(from as int, k as int)),
            !over ==> acc <= 0x10FFFF,
        decreases to - k,
    {
        let ghost run = input@.subrange(from as int, k as int);
        let c = input.get_char(k);
        let d = match hex_digit_val(c) {
            Some(d) => d,
            None => {
                proof {
                    assert(false);
                }
                0
            },
        };
        proof {
            assert(input@.subrange(from as int, k as int + 1) =~= run.push(input@[k as int]));
            assert(run.push(input@[k as int]).drop_last() =~= run);
        }
        if !over {
            let next: u32 = acc * 16 + (d as u32);
            if next > 0x10FFFF {
                over = true;
            } else {
                acc = next;
            }
        } else {
            proof {
                // once too large, appending a digit keeps it too large
                assert(hex_run_value(run) * 16 + hex_digit_value(input@[k as int]) > 0x10FFFF);
            }
        }
        k = k + 1;
    }
    if over {
        None
    } else {
        Some(acc)
    }
}

/// Decodes the braced body of a `\u` escape.
///
/// `start` is the cursor just past the `u`. On success the result
/// carries the decoded character and the cursor past the closing
/// brace; the outcome is exactly what `spec_decode_unicode` says.
pub fn decode_unicode(input: &str, start: usize) -> (r: Result<(char, usize), DecodeError>)
    ensures
        r matches Ok(p) ==> spec_decode_unicode(input@, start as nat) == Ok::<
            (char, nat),
            DecodeError,
        >((p.0, p.1 as nat)),
        r matches Err(e) ==> spec_decode_unicode(input@, start as nat) == Err::<
            (char, nat),
            DecodeError,
        >(e),
{
    let n = input.unicode_len();
    if start >= n {
        return Err(DecodeError::InvalidUnicode);
    }
    if input.get_char(start) != '{' {
        return Err(DecodeError::InvalidUnicode);
    }
    let j = find_hex_run_end(input, start + 1, n);
    if j >= n {
        return Err(DecodeError::InvalidUnicode);
    }
    if input.get_char(j) != '}' {
        return Err(DecodeError::InvalidUnicode);
    }
    proof {
        lemma_hex_run_end_bounds(input@, (start + 1) as nat);
    }
    if j == start + 1 {
        // empty digit run
        return Err(DecodeError::InvalidUnicode);
    }
    let v = match hex_run_val(input, start + 1, j) {
        Some(v) => v,
        None => {
            return Err(DecodeError::InvalidUnicode);
        },
    };
    match char::from_u32(v) {
        Some(c) => {
            proof {
                vstd::utf8::char_u32_cast(c, v);
            }
            Ok((c, j + 1))
        },
        None => Err(DecodeError::InvalidUnicode),
    }
}

/// The fixed substitution for `tag`, exactly as `simple_escape` says.
fn simple_escape_char(tag: char) -> (r: Option<char>)
    ensures
        r == simple_escape(tag),
{
    match tag {
        't' => Some('\t'),
        'n' => Some('\n'),
        'r' => Some('\r'),
        '0' => Some('\0'),
        '\\' => Some('\\'),
        '"' => Some('"'),
        '\'' => Some('\''),
        _ => None,
    }
}

/// Decodes a string with escape sequences.
///
/// Characters other than `\` pass through unchanged. A `\` starts an
/// escape sequence: one of the fixed substitutions (`\t`, `\n`, `\r`,
/// `\0`, `\\`, `\"`, `\'`), a two-hex-digit escape (`\x41`), or a
/// braced Unicode escape (`\u{21B5}`). The first malformed construct
/// aborts the decode with the matching [`DecodeError`]. The result is
/// exactly what the grammar in [`model`] assigns to the input:
/// `spec_decode(input@)`.
pub fn decode(input: &str) -> (r: Result<String, DecodeError>)
    ensures
        r matches Ok(out) ==> spec_decode(input@) == Ok::<Seq<char>, DecodeError>(out@),
        r matches Err(e) ==> spec_decode(input@) == Err::<Seq<char>, DecodeError>(e),
{
    let n = input.unicode_len();
    let mut out: Vec<char> = Vec::new();
    let mut i: usize = 0;
    proof {
        lemma_prepend_empty(spec_decode_from(input@, 0));
    }
    while i < n
        invariant
            n as nat == input@.len(),
            i <= n,
            prepend(out@, spec_decode_from(input@, i as nat)) == spec_decode(input@),
        decreases n - i,
    {
        let c = input.get_char(i);
        if c != '\\' {
            proof {
                lemma_prepend_push(out@, c, spec_decode_from(input@, i as nat + 1));
            }
            out.push(c);
            i = i + 1;
        } else if i + 1 >= n {
            // a lone trailing backslash has no tag
            return Err(DecodeError::InvalidEscape);
        } else {
            let tag = input.get_char(i + 1);
            match simple_escape_char(tag) {
                Some(m) => {
                    proof {
                        lemma_prepend_push(out@, m, spec_decode_from(input@, i as nat + 2));
                    }
                    out.push(m);
                    i = i + 2;
                },
                None => {
                    if tag == 'x' {
                        match escape_hex(input, i + 2) {
                            Ok((d, next)) => {
                                proof {
                                    lemma_prepend_push(
                                        out@,
                                        d,
                                        spec_decode_from(input@, next as nat),
                                    );
                                }
                                out.push(d);
                                i = next;
                            },
                            Err(e) => {
                                return Err(e);
                            },
                        }
                    } else if tag == 'u' {
                        match decode_unicode(input, i + 2) {
                            Ok((d, next)) => {
                                proof {
                                    lemma_spec_decode_unicode_advances(input@, (i + 2) as nat);
                                    lemma_prepend_push(
                                        out@,
                                        d,
                                        spec_decode_from(input@, next as nat),
                                    );
                                }
                                out.push(d);
                                i = next;
                            },
                            Err(e) => {
                                return Err(e);
                            },
                        }
                    } else {
                        return Err(DecodeError::InvalidEscape);
                    }
                },
            }
        }
    }
    proof {
        assert(out@ + Seq::<char>::empty() =~= out@);
    }
    Ok(chars_to_string(&out))
}

} // verus!
