//! The JSON text form of a document: a verified writer and reader.
//!
//! `json_bytes` fixes one canonical text for every document — no
//! whitespace, members in document order, strings with `"` and `\`
//! escaped and control and non-ASCII characters written as `\u` escapes
//! (a surrogate pair above the basic plane), integers in decimal — and
//! the executable writer produces exactly that text.
//!
//! The reader accepts ordinary JSON around that form: whitespace between
//! tokens, all string escapes, and surrogate pairs.  Non-ASCII text must
//! arrive escaped and numbers must be 64-bit integers; anything else is a
//! parse failure, left to the unverified transport.  The round-trip law
//! at the end proves that the reader undoes the writer on every document
//! whose integers fit 64 bits.

use vstd::prelude::*;

use crate::value::{lemma_vals_view_index, lemma_vals_view_len, vals_view, value_view, Value, ValueV};
use crate::value::{lemma_members_view_index, lemma_members_view_len};

verus! {

/// The byte for one hex digit, lower case.
pub open spec fn hex_digit(n: int) -> u8 {
    if n < 10 {
        (48 + n) as u8
    } else {
        (87 + n) as u8
    }
}

/// A `\uXXXX` escape for a code unit below 0x10000.
pub open spec fn u_esc(n: int) -> Seq<u8> {
    seq![
        92u8,
        117u8,
        hex_digit(n / 4096 % 16),
        hex_digit(n / 256 % 16),
        hex_digit(n / 16 % 16),
        hex_digit(n % 16),
    ]
}

/// The text of one string character: printable ASCII stands for itself,
/// quote and backslash carry a backslash, everything else is escaped.
pub open spec fn esc_char(c: char) -> Seq<u8> {
    let cp = c as int;
    if c == '"' {
        seq![92u8, 34u8]
    } else if c == '\\' {
        seq![92u8, 92u8]
    } else if cp < 0x20 {
        u_esc(cp)
    } else if cp < 0x80 {
        seq![cp as u8]
    } else if cp < 0x10000 {
        u_esc(cp)
    } else {
        u_esc(0xD800 + (cp - 0x10000) / 1024) + u_esc(0xDC00 + (cp - 0x10000) % 1024)
    }
}

/// The text of a string body, character by character.
pub open spec fn esc_str(s: Seq<char>) -> Seq<u8>
    decreases s.len(),
{
    if s.len() == 0 {
        Seq::empty()
    } else {
        esc_str(s.drop_last()) + esc_char(s.last())
    }
}

/// A quoted string literal.
pub open spec fn quoted(s: Seq<char>) -> Seq<u8> {
    seq![34u8] + esc_str(s) + seq![34u8]
}

/// The decimal digits of a non-negative integer.
pub open spec fn dec_u(n: int) -> Seq<u8>
    recommends
        n >= 0,
    decreases n,
{
    if n < 10 {
        seq![(48 + n) as u8]
    } else {
        dec_u(n / 10) + seq![(48 + n % 10) as u8]
    }
}

/// The decimal text of an integer, with a minus sign when negative.
pub open spec fn dec_i(n: int) -> Seq<u8> {
    if n < 0 {
        seq![45u8] + dec_u(-n)
    } else {
        dec_u(n)
    }
}

/// The canonical JSON text of a document.
pub open spec fn json_bytes(v: ValueV) -> Seq<u8>
    decreases v,
{
    match v {
        ValueV::Null => seq![110u8, 117u8, 108u8, 108u8],
        ValueV::Bool(b) => if b {
            seq![116u8, 114u8, 117u8, 101u8]
        } else {
            seq![102u8, 97u8, 108u8, 115u8, 101u8]
        },
        ValueV::Int(n) => dec_i(n),
        ValueV::Str(s) => quoted(s),
        ValueV::Arr(items) => seq![91u8] + json_list(items) + seq![93u8],
        ValueV::Obj(members) => seq![123u8] + json_members(members) + seq![125u8],
    }
}

/// Comma-separated element texts.
pub open spec fn json_list(items: Seq<ValueV>) -> Seq<u8>
    decreases items,
{
    if items.len() == 0 {
        Seq::empty()
    } else if items.len() == 1 {
        json_bytes(items.last())
    } else {
        json_list(items.drop_last()) + seq![44u8] + json_bytes(items.last())
    }
}

/// Comma-separated `"key":value` member texts.
pub open spec fn json_members(members: Seq<(Seq<char>, ValueV)>) -> Seq<u8>
    decreases members,
{
    if members.len() == 0 {
        Seq::empty()
    } else if members.len() == 1 {
        quoted(members.last().0) + seq![58u8] + json_bytes(members.last().1)
    } else {
        json_members(members.drop_last()) + seq![44u8] + quoted(members.last().0) + seq![58u8]
            + json_bytes(members.last().1)
    }
}

/// Append the decimal digits of `n`.
fn write_dec(n: u64, out: &mut Vec<u8>)
    ensures
        final(out)@ == old(out)@ + dec_u(n as int),
    decreases n,
{
    if n < 10 {
        out.push(48 + n as u8);
    } else {
        write_dec(n / 10, out);
        out.push(48 + (n % 10) as u8);
    }
}

/// Append the decimal text of `n`, minus sign included.
fn write_i64(n: i64, out: &mut Vec<u8>)
    ensures
        final(out)@ == old(out)@ + dec_i(n as int),
{
    if n >= 0 {
        write_dec(n as u64, out);
    } else {
        out.push(45);
        let m: u64 = ((-(n + 1)) as u64) + 1;
        assert(m == -(n as int));
        write_dec(m, out);
    }
}

/// Append a `\uXXXX` escape.
fn write_u_esc(n: u32, out: &mut Vec<u8>)
    requires
        n < 0x10000,
    ensures
        final(out)@ == old(out)@ + u_esc(n as int),
{
    out.push(92);
    out.push(117);
    write_hex_digit(n / 4096 % 16, out);
    write_hex_digit(n / 256 % 16, out);
    write_hex_digit(n / 16 % 16, out);
    write_hex_digit(n % 16, out);
    proof {
        assert(final(out)@ =~= old(out)@ + u_esc(n as int));
    }
}

/// Append one hex digit byte.
fn write_hex_digit(n: u32, out: &mut Vec<u8>)
    requires
        n < 16,
    ensures
        final(out)@ == old(out)@ + seq![hex_digit(n as int)],
{
    if n < 10 {
        out.push(48 + n as u8);
    } else {
        out.push(87 + n as u8);
    }
    proof {
        assert(final(out)@ =~= old(out)@ + seq![hex_digit(n as int)]);
    }
}

/// Append the text of one string character.
fn write_char(c: char, out: &mut Vec<u8>)
    ensures
        final(out)@ == old(out)@ + esc_char(c),
{
    let cp = c as u32;
    if c == '"' {
        out.push(92);
        out.push(34);
        proof {
            assert(final(out)@ =~= old(out)@ + esc_char(c));
        }
    } else if c == '\\' {
        out.push(92);
        out.push(92);
        proof {
            assert(final(out)@ =~= old(out)@ + esc_char(c));
        }
    } else if cp < 0x20 {
        write_u_esc(cp, out);
    } else if cp < 0x80 {
        out.push(cp as u8);
        proof {
            assert(final(out)@ =~= old(out)@ + esc_char(c));
        }
    } else if cp < 0x10000 {
        write_u_esc(cp, out);
    } else {
        write_u_esc(0xD800 + (cp - 0x10000) / 1024, out);
        write_u_esc(0xDC00 + (cp - 0x10000) % 1024, out);
        proof {
            assert(final(out)@ =~= old(out)@ + esc_char(c));
        }
    }
}

/// Append a quoted string literal.
fn write_str(s: &String, out: &mut Vec<u8>)
    ensures
        final(out)@ == old(out)@ + quoted(s@),
{
    out.push(34);
    let n = s.as_str().unicode_len();
    let ghost gs = s@;
    let ghost start = out@;
    proof {
        assert(esc_str(gs.take(0)) =~= Seq::<u8>::empty());
        assert(out@ =~= start + esc_str(gs.take(0)));
    }
    for i in 0..n
        invariant
            n == gs.len(),
            gs == s@,
            out@ == start + esc_str(gs.take(i as int)),
    {
        let c = s.as_str().get_char(i);
        write_char(c, out);
        proof {
            assert(gs.take(i + 1).drop_last() =~= gs.take(i as int));
            assert(gs.take(i + 1).last() == gs[i as int]);
            assert(esc_str(gs.take(i + 1)) =~= esc_str(gs.take(i as int)) + esc_char(
                gs[i as int],
            ));
        }
    }
    out.push(34);
    proof {
        assert(gs.take(n as int) =~= gs);
        assert(final(out)@ =~= old(out)@ + quoted(gs));
    }
}

/// Append the canonical JSON text of a document.
pub fn write_value(v: &Value, out: &mut Vec<u8>)
    ensures
        final(out)@ == old(out)@ + json_bytes(v@),
    decreases v,
{
    match v {
        Value::Null => {
            out.push(110);
            out.push(117);
            out.push(108);
            out.push(108);
            proof {
                assert(final(out)@ =~= old(out)@ + json_bytes(v@));
            }
        },
        Value::Bool(b) => {
            if *b {
                out.push(116);
                out.push(114);
                out.push(117);
                out.push(101);
            } else {
                out.push(102);
                out.push(97);
                out.push(108);
                out.push(115);
                out.push(101);
            }
            proof {
                assert(final(out)@ =~= old(out)@ + json_bytes(v@));
            }
        },
        Value::Int(n) => {
            write_i64(*n, out);
        },
        Value::Str(s) => {
            write_str(s, out);
        },
        Value::Arr(items) => {
            proof {
                assert(decreases_to!(*v => *items));
            }
            write_arr(items, out);
        },
        Value::Obj(members) => {
            proof {
                assert(decreases_to!(*v => *members));
            }
            write_obj(members, out);
        },
    }
}

/// Append an array document: brackets around comma-separated elements.
#[verifier::loop_isolation(false)]
fn write_arr(items: &Vec<Value>, out: &mut Vec<u8>)
    ensures
        final(out)@ == old(out)@ + seq![91u8] + json_list(crate::value::vals_view(items@))
            + seq![93u8],
    decreases items,
{
    out.push(91);
    let ghost gitems = crate::value::vals_view(items@);
    let ghost start = out@;
    proof {
        lemma_vals_view_len(items@);
        assert(out@ =~= start + json_list(gitems.take(0)));
    }
    let n = items.len();
    for i in 0..n
        invariant
            n == items@.len(),
            out@ == start + json_list(gitems.take(i as int)),
        decreases items, n - i,
    {
        if i > 0 {
            out.push(44);
        }
        proof {
            assert(decreases_to!(*items => items@));
            assert(decreases_to!(items@ => items@[i as int]));
        }
        write_value(&items[i], out);
        proof {
            lemma_vals_view_index(items@, i as int);
            assert(gitems.take(i + 1).drop_last() =~= gitems.take(i as int));
            assert(gitems.take(i + 1).last() == gitems[i as int]);
            if i == 0 {
                assert(json_list(gitems.take(1)) =~= json_bytes(gitems[0]));
            } else {
                assert(json_list(gitems.take(i + 1)) =~= json_list(gitems.take(i as int))
                    + seq![44u8] + json_bytes(gitems[i as int]));
            }
            assert(out@ =~= start + json_list(gitems.take(i + 1)));
        }
    }
    out.push(93);
    proof {
        assert(gitems.take(n as int) =~= gitems);
        assert(final(out)@ =~= old(out)@ + seq![91u8] + json_list(gitems) + seq![93u8]);
    }
}

/// Append an object document: braces around comma-separated members.
#[verifier::loop_isolation(false)]
fn write_obj(members: &Vec<(String, Value)>, out: &mut Vec<u8>)
    ensures
        final(out)@ == old(out)@ + seq![123u8] + json_members(
            crate::value::members_view(members@),
        ) + seq![125u8],
    decreases members,
{
    out.push(123);
    let ghost gmembers = crate::value::members_view(members@);
    let ghost start = out@;
    proof {
        lemma_members_view_len(members@);
        assert(out@ =~= start + json_members(gmembers.take(0)));
    }
    let n = members.len();
    for i in 0..n
        invariant
            n == members@.len(),
            out@ == start + json_members(gmembers.take(i as int)),
        decreases members, n - i,
    {
        if i > 0 {
            out.push(44);
        }
        write_str(&members[i].0, out);
        out.push(58);
        proof {
            assert(decreases_to!(*members => members@));
            assert(decreases_to!(members@ => members@[i as int]));
        }
        write_value(&members[i].1, out);
        proof {
            lemma_members_view_index(members@, i as int);
            assert(gmembers.take(i + 1).drop_last() =~= gmembers.take(i as int));
            assert(gmembers.take(i + 1).last() == gmembers[i as int]);
            if i == 0 {
                assert(json_members(gmembers.take(1)) =~= quoted(gmembers[0].0) + seq![58u8]
                    + json_bytes(gmembers[0].1));
            } else {
                assert(json_members(gmembers.take(i + 1)) =~= json_members(
                    gmembers.take(i as int),
                ) + seq![44u8] + quoted(gmembers[i as int].0) + seq![58u8] + json_bytes(
                    gmembers[i as int].1,
                ));
            }
            assert(out@ =~= start + json_members(gmembers.take(i + 1)));
        }
    }
    out.push(125);
    proof {
        assert(gmembers.take(n as int) =~= gmembers);
        assert(final(out)@ =~= old(out)@ + seq![123u8] + json_members(gmembers) + seq![125u8]);
    }
}


/// A JSON whitespace byte.
pub open spec fn is_ws(b: u8) -> bool {
    b == 32 || b == 9 || b == 10 || b == 13
}

/// The first index at or after `i` holding no whitespace.
pub open spec fn skip_ws(s: Seq<u8>, i: int) -> int
    decreases s.len() - i,
    when 0 <= i <= s.len()
{
    if i < s.len() && is_ws(s[i]) {
        skip_ws(s, i + 1)
    } else {
        i
    }
}

pub proof fn lemma_skip_ws_bounds(s: Seq<u8>, i: int)
    requires
        0 <= i <= s.len(),
    ensures
        i <= skip_ws(s, i) <= s.len(),
    decreases s.len() - i,
{
    if i < s.len() && is_ws(s[i]) {
        lemma_skip_ws_bounds(s, i + 1);
    }
}

/// The value of one hex digit byte, if it is one.
pub open spec fn hex_val(b: u8) -> Option<int> {
    if 48 <= b <= 57 {
        Some((b - 48) as int)
    } else if 97 <= b <= 102 {
        Some((b - 87) as int)
    } else if 65 <= b <= 70 {
        Some((b - 55) as int)
    } else {
        None
    }
}

/// The value of the four hex digits at `i`, if all four are hex digits.
pub open spec fn hex4(s: Seq<u8>, i: int) -> Option<int> {
    match (hex_val(s[i]), hex_val(s[i + 1]), hex_val(s[i + 2]), hex_val(s[i + 3])) {
        (Some(a), Some(b), Some(c), Some(d)) => Some(a * 4096 + b * 256 + c * 16 + d),
        _ => None,
    }
}

/// The character for a one-byte escape, if the byte names one.
pub open spec fn esc_simple(b: u8) -> Option<char> {
    if b == 34 {
        Some('"')
    } else if b == 92 {
        Some('\\')
    } else if b == 47 {
        Some('/')
    } else if b == 98 {
        Some(8u8 as char)
    } else if b == 102 {
        Some(12u8 as char)
    } else if b == 110 {
        Some('\n')
    } else if b == 114 {
        Some('\r')
    } else if b == 116 {
        Some('\t')
    } else {
        None
    }
}

/// The characters of a string literal from just after the opening quote to
/// its closing quote.  Raw bytes must be printable ASCII; anything else
/// must arrive escaped (non-ASCII text as `\u` escapes, a character above
/// the basic plane as a surrogate pair).
pub open spec fn parse_chars(s: Seq<u8>, i: int) -> Option<(Seq<char>, int)>
    decreases s.len() - i,
    when 0 <= i <= s.len()
{
    if i >= s.len() {
        None
    } else {
        let b = s[i];
        if b == 34 {
            Some((Seq::empty(), i + 1))
        } else if b == 92 {
            if i + 2 > s.len() {
                None
            } else {
                let e = s[i + 1];
                if e == 117 {
                    if i + 6 > s.len() {
                        None
                    } else {
                        match hex4(s, i + 2) {
                            None => None,
                            Some(cp) => if 0xD800 <= cp < 0xDC00 {
                                // a high surrogate must pair with a low one
                                if i + 12 > s.len() {
                                    None
                                } else if s[i + 6] == 92 && s[i + 7] == 117 {
                                    match hex4(s, i + 8) {
                                        None => None,
                                        Some(lo) => if 0xDC00 <= lo < 0xE000 {
                                            let cp2 = 0x10000 + (cp - 0xD800) * 1024 + (lo
                                                - 0xDC00);
                                            match parse_chars(s, i + 12) {
                                                None => None,
                                                Some((rest, j)) => Some(
                                                    (seq![(cp2 as u32) as char] + rest, j),
                                                ),
                                            }
                                        } else {
                                            None
                                        },
                                    }
                                } else {
                                    None
                                }
                            } else if 0xDC00 <= cp < 0xE000 {
                                None
                            } else {
                                match parse_chars(s, i + 6) {
                                    None => None,
                                    Some((rest, j)) => Some((seq![(cp as u32) as char] + rest, j)),
                                }
                            },
                        }
                    }
                } else {
                    match esc_simple(e) {
                        None => None,
                        Some(c) => match parse_chars(s, i + 2) {
                            None => None,
                            Some((rest, j)) => Some((seq![c] + rest, j)),
                        },
                    }
                }
            }
        } else if 32 <= b < 128 {
            match parse_chars(s, i + 1) {
                None => None,
                Some((rest, j)) => Some((seq![b as char] + rest, j)),
            }
        } else {
            None
        }
    }
}

/// The first index at or after `i` holding no decimal digit.
pub open spec fn digits_end(s: Seq<u8>, i: int) -> int
    decreases s.len() - i,
    when 0 <= i <= s.len()
{
    if i < s.len() && 48 <= s[i] <= 57 {
        digits_end(s, i + 1)
    } else {
        i
    }
}

pub proof fn lemma_digits_end_bounds(s: Seq<u8>, i: int)
    requires
        0 <= i <= s.len(),
    ensures
        i <= digits_end(s, i) <= s.len(),
    decreases s.len() - i,
{
    if i < s.len() && 48 <= s[i] <= 57 {
        lemma_digits_end_bounds(s, i + 1);
    }
}

/// The value of the decimal digits from `i` up to `j`.
pub open spec fn digits_val(s: Seq<u8>, i: int, j: int) -> int
    decreases j - i,
{
    if j <= i {
        0
    } else {
        digits_val(s, i, j - 1) * 10 + (s[j - 1] - 48)
    }
}

/// An integer literal at `i` (the byte there is a minus sign or a digit):
/// no leading zeros, no fraction or exponent, and it must fit 64 signed
/// bits.
pub open spec fn parse_number(s: Seq<u8>, i: int) -> Option<(ValueV, int)> {
    let d0 = if s[i] == 45 {
        i + 1
    } else {
        i
    };
    if !(d0 < s.len() && 48 <= s[d0] <= 57) {
        None
    } else {
        let end = digits_end(s, d0);
        if s[d0] == 48 && end > d0 + 1 {
            None
        } else if end < s.len() && (s[end] == 46 || s[end] == 101 || s[end] == 69) {
            None
        } else {
            let n = if s[i] == 45 {
                -digits_val(s, d0, end)
            } else {
                digits_val(s, d0, end)
            };
            if -0x8000000000000000 <= n <= 0x7FFFFFFFFFFFFFFF {
                Some((ValueV::Int(n), end))
            } else {
                None
            }
        }
    }
}

/// A document value at non-whitespace position `i`.  The fuel bounds the
/// recursion and exceeds what any input of this length can use.
pub open spec fn parse_value_spec(s: Seq<u8>, i: int, fuel: nat) -> Option<(ValueV, int)>
    decreases fuel,
{
    if fuel == 0 {
        None
    } else if !(0 <= i < s.len()) {
        None
    } else {
        let b = s[i];
        if b == 110 {
            if i + 4 <= s.len() && s[i + 1] == 117 && s[i + 2] == 108 && s[i + 3] == 108 {
                Some((ValueV::Null, i + 4))
            } else {
                None
            }
        } else if b == 116 {
            if i + 4 <= s.len() && s[i + 1] == 114 && s[i + 2] == 117 && s[i + 3] == 101 {
                Some((ValueV::Bool(true), i + 4))
            } else {
                None
            }
        } else if b == 102 {
            if i + 5 <= s.len() && s[i + 1] == 97 && s[i + 2] == 108 && s[i + 3] == 115 && s[i
                + 4] == 101 {
                Some((ValueV::Bool(false), i + 5))
            } else {
                None
            }
        } else if b == 34 {
            match parse_chars(s, i + 1) {
                None => None,
                Some((cs, j)) => Some((ValueV::Str(cs), j)),
            }
        } else if b == 45 || 48 <= b <= 57 {
            parse_number(s, i)
        } else if b == 91 {
            let j = skip_ws(s, i + 1);
            if j < s.len() && s[j] == 93 {
                Some((ValueV::Arr(Seq::empty()), j + 1))
            } else {
                match parse_elems(s, j, (fuel - 1) as nat) {
                    None => None,
                    Some((items, k)) => Some((ValueV::Arr(items), k)),
                }
            }
        } else if b == 123 {
            let j = skip_ws(s, i + 1);
            if j < s.len() && s[j] == 125 {
                Some((ValueV::Obj(Seq::empty()), j + 1))
            } else {
                match parse_membs(s, j, (fuel - 1) as nat) {
                    None => None,
                    Some((members, k)) => Some((ValueV::Obj(members), k)),
                }
            }
        } else {
            None
        }
    }
}

/// The elements of a non-empty array, from the first element's position to
/// just after the closing bracket.
pub open spec fn parse_elems(s: Seq<u8>, i: int, fuel: nat) -> Option<(Seq<ValueV>, int)>
    decreases fuel,
{
    if fuel == 0 {
        None
    } else {
        match parse_value_spec(s, i, (fuel - 1) as nat) {
            None => None,
            Some((v, j)) => {
                let k = skip_ws(s, j);
                if k < s.len() && s[k] == 44 {
                    match parse_elems(s, skip_ws(s, k + 1), (fuel - 1) as nat) {
                        None => None,
                        Some((rest, e)) => Some((seq![v] + rest, e)),
                    }
                } else if k < s.len() && s[k] == 93 {
                    Some((seq![v], k + 1))
                } else {
                    None
                }
            },
        }
    }
}

/// The members of a non-empty object, from the first key's position to
/// just after the closing brace.
pub open spec fn parse_membs(s: Seq<u8>, i: int, fuel: nat) -> Option<
    (Seq<(Seq<char>, ValueV)>, int),
>
    decreases fuel,
{
    if fuel == 0 {
        None
    } else if !(0 <= i < s.len() && s[i] == 34) {
        None
    } else {
        match parse_chars(s, i + 1) {
            None => None,
            Some((key, j)) => {
                let k = skip_ws(s, j);
                if !(k < s.len() && s[k] == 58) {
                    None
                } else {
                    match parse_value_spec(s, skip_ws(s, k + 1), (fuel - 1) as nat) {
                        None => None,
                        Some((v, e)) => {
                            let p = skip_ws(s, e);
                            if p < s.len() && s[p] == 44 {
                                match parse_membs(s, skip_ws(s, p + 1), (fuel - 1) as nat) {
                                    None => None,
                                    Some((rest, z)) => Some((seq![(key, v)] + rest, z)),
                                }
                            } else if p < s.len() && s[p] == 125 {
                                Some((seq![(key, v)], p + 1))
                            } else {
                                None
                            }
                        },
                    }
                }
            },
        }
    }
}

/// The document denoted by a whole JSON text, if it is one this module
/// reads: one value, surrounded by whitespace only.
pub open spec fn parse_json_spec(s: Seq<u8>) -> Option<ValueV> {
    match parse_value_spec(s, skip_ws(s, 0), (s.len() + 2) as nat) {
        None => None,
        Some((v, j)) => if 0 <= j <= s.len() && skip_ws(s, j) == s.len() {
            Some(v)
        } else {
            None
        },
    }
}


/// Relies on char::from_u32: a Unicode scalar value makes the character
/// with that code; a surrogate code or one above 0x10FFFF makes nothing.
#[verifier::external_body]
fn char_from_u32(n: u32) -> (r: Option<char>)
    ensures
        match r {
            Some(c) => c as u32 == n,
            None => n > 0x10FFFF || (0xD800 <= n < 0xE000),
        },
{
    char::from_u32(n)
}

/// Relies on String::push: appends the given character to the string.
#[verifier::external_body]
fn push_char(s: &mut String, c: char)
    ensures
        final(s)@ == old(s)@.push(c),
{
    s.push(c);
}

/// First non-whitespace position at or after `i`.
fn ws_to(s: &[u8], i: usize) -> (r: usize)
    requires
        i <= s@.len(),
    ensures
        r == skip_ws(s@, i as int),
        i <= r <= s@.len(),
    decreases s@.len() - i,
{
    if i < s.len() && (s[i] == 32 || s[i] == 9 || s[i] == 10 || s[i] == 13) {
        ws_to(s, i + 1)
    } else {
        i
    }
}

/// One hex digit byte, as its value.
fn hexv(b: u8) -> (r: Option<u32>)
    ensures
        match r {
            Some(v) => hex_val(b) == Some(v as int) && v < 16,
            None => hex_val(b) is None,
        },
{
    if 48 <= b && b <= 57 {
        Some((b - 48) as u32)
    } else if 97 <= b && b <= 102 {
        Some((b - 87) as u32)
    } else if 65 <= b && b <= 70 {
        Some((b - 55) as u32)
    } else {
        None
    }
}

/// The four hex digits at `i`, as a value below 0x10000.
fn hex4_at(s: &[u8], i: usize) -> (r: Option<u32>)
    requires
        i + 4 <= s@.len(),
    ensures
        match r {
            Some(v) => hex4(s@, i as int) == Some(v as int) && v < 0x10000,
            None => hex4(s@, i as int) is None,
        },
{
    let a = match hexv(s[i]) {
        Some(a) => a,
        None => {
            return None;
        },
    };
    let b = match hexv(s[i + 1]) {
        Some(b) => b,
        None => {
            return None;
        },
    };
    let c = match hexv(s[i + 2]) {
        Some(c) => c,
        None => {
            return None;
        },
    };
    let d = match hexv(s[i + 3]) {
        Some(d) => d,
        None => {
            return None;
        },
    };
    Some(a * 4096 + b * 256 + c * 16 + d)
}

/// The string literal starting just after an opening quote.
fn str_lit(s: &[u8], start: usize) -> (r: Option<(String, usize)>)
    requires
        start <= s@.len(),
        s@.len() + 16 <= usize::MAX,
    ensures
        match r {
            Some(p) => parse_chars(s@, start as int) == Some((p.0@, p.1 as int)) && start <= p.1
                <= s@.len(),
            None => parse_chars(s@, start as int) is None,
        },
{
    let mut acc = String::new();
    let mut i = start;
    loop
        invariant
            start <= i <= s@.len(),
            s@.len() + 16 <= usize::MAX,
            match parse_chars(s@, i as int) {
                Some(p) => parse_chars(s@, start as int) matches Some(q) && q.0 == acc@ + p.0
                    && q.1 == p.1,
                None => parse_chars(s@, start as int) is None,
            },
        decreases s@.len() - i,
    {
        if i >= s.len() {
            return None;
        }
        let b = s[i];
        if b == 34 {
            proof {
                assert(acc@ + Seq::<char>::empty() =~= acc@);
            }
            return Some((acc, i + 1));
        } else if b == 92 {
            if i + 2 > s.len() {
                return None;
            }
            let e = s[i + 1];
            if e == 117 {
                if i + 6 > s.len() {
                    return None;
                }
                let cp = match hex4_at(s, i + 2) {
                    Some(cp) => cp,
                    None => {
                        return None;
                    },
                };
                if 0xD800 <= cp && cp < 0xDC00 {
                    if i + 12 > s.len() {
                        return None;
                    }
                    if !(s[i + 6] == 92 && s[i + 7] == 117) {
                        return None;
                    }
                    let lo = match hex4_at(s, i + 8) {
                        Some(lo) => lo,
                        None => {
                            return None;
                        },
                    };
                    if !(0xDC00 <= lo && lo < 0xE000) {
                        return None;
                    }
                    let cp2: u32 = 0x10000 + (cp - 0xD800) * 1024 + (lo - 0xDC00);
                    let c = match char_from_u32(cp2) {
                        Some(c) => c,
                        None => {
                            proof {
                                assert(false);
                            }
                            return None;
                        },
                    };
                    proof {
                        vstd::utf8::char_u32_cast(c, cp2);
                        lemma_prepend_step(s@, start as int, i as int, i + 12, acc@, c);
                    }
                    push_char(&mut acc, c);
                    i = i + 12;
                } else if 0xDC00 <= cp && cp < 0xE000 {
                    return None;
                } else {
                    let c = match char_from_u32(cp) {
                        Some(c) => c,
                        None => {
                            proof {
                                assert(false);
                            }
                            return None;
                        },
                    };
                    proof {
                        vstd::utf8::char_u32_cast(c, cp);
                        lemma_prepend_step(s@, start as int, i as int, i + 6, acc@, c);
                    }
                    push_char(&mut acc, c);
                    i = i + 6;
                }
            } else {
                let c: char = if e == 34 {
                    '"'
                } else if e == 92 {
                    '\\'
                } else if e == 47 {
                    '/'
                } else if e == 98 {
                    8u8 as char
                } else if e == 102 {
                    12u8 as char
                } else if e == 110 {
                    '\n'
                } else if e == 114 {
                    '\r'
                } else if e == 116 {
                    '\t'
                } else {
                    return None;
                };
                proof {
                    lemma_prepend_step(s@, start as int, i as int, i + 2, acc@, c);
                }
                push_char(&mut acc, c);
                i = i + 2;
            }
        } else if 32 <= b && b < 128 {
            let c = b as char;
            proof {
                lemma_prepend_step(s@, start as int, i as int, i + 1, acc@, c);
            }
            push_char(&mut acc, c);
            i = i + 1;
        } else {
            return None;
        }
    }
}

/// One consumed character moves the accumulated-prefix relation one
/// position forward: if the literal from `i` begins with `c` and continues
/// at `next`, the whole-literal relation from `start` keeps holding with
/// `c` appended to the accumulator.
proof fn lemma_prepend_step(s: Seq<u8>, start: int, i: int, next: int, acc: Seq<char>, c: char)
    requires
        0 <= i <= s.len(),
        i < next,
        match parse_chars(s, i) {
            Some(p) => parse_chars(s, start) matches Some(q) && q.0 == acc + p.0 && q.1 == p.1,
            None => parse_chars(s, start) is None,
        },
        parse_chars(s, i) == (match parse_chars(s, next) {
            Some(p) => Some((seq![c] + p.0, p.1)),
            None => None::<(Seq<char>, int)>,
        }),
    ensures
        match parse_chars(s, next) {
            Some(p) => parse_chars(s, start) matches Some(q) && q.0 == acc.push(c) + p.0 && q.1
                == p.1,
            None => parse_chars(s, start) is None,
        },
{
    match parse_chars(s, next) {
        Some(p) => {
            assert(acc + (seq![c] + p.0) =~= acc.push(c) + p.0);
        },
        None => {},
    }
}

/// Position after the run of digits starting at `i`.
fn digits_to(s: &[u8], i: usize) -> (r: usize)
    requires
        i <= s@.len(),
    ensures
        r == digits_end(s@, i as int),
        i <= r <= s@.len(),
    decreases s@.len() - i,
{
    if i < s.len() && 48 <= s[i] && s[i] <= 57 {
        digits_to(s, i + 1)
    } else {
        i
    }
}

/// Ten to the `n`.
pub open spec fn pow10(n: nat) -> int
    decreases n,
{
    if n == 0 {
        1
    } else {
        10 * pow10((n - 1) as nat)
    }
}

proof fn lemma_pow10_mono(a: nat, b: nat)
    requires
        a <= b,
    ensures
        1 <= pow10(a) <= pow10(b),
    decreases b,
{
    if a < b {
        lemma_pow10_mono(a, (b - 1) as nat);
    } else if a == b && a > 0 {
        lemma_pow10_mono((a - 1) as nat, (b - 1) as nat);
    }
}

proof fn lemma_pow10_19()
    ensures
        pow10(19) == 0x8AC7230489E80000,
{
    assert(pow10(19) == 0x8AC7230489E80000) by {
        reveal_with_fuel(pow10, 21);
    }
}

/// Every byte of a digit run is a digit.
proof fn lemma_digits_range(s: Seq<u8>, i: int)
    requires
        0 <= i <= s.len(),
    ensures
        i <= digits_end(s, i) <= s.len(),
        forall|k: int| i <= k < digits_end(s, i) ==> 48 <= #[trigger] s[k] <= 57,
    decreases s.len() - i,
{
    if i < s.len() && 48 <= s[i] <= 57 {
        lemma_digits_range(s, i + 1);
    }
}

/// A run of `j - i` digits is worth less than ten to that count.
proof fn lemma_digits_val_upper(s: Seq<u8>, i: int, j: int)
    requires
        0 <= i <= j <= s.len(),
        forall|k: int| i <= k < j ==> 48 <= #[trigger] s[k] <= 57,
    ensures
        0 <= digits_val(s, i, j) < pow10((j - i) as nat),
    decreases j - i,
{
    if j > i {
        lemma_digits_val_upper(s, i, j - 1);
        assert(pow10((j - i) as nat) == 10 * pow10((j - i - 1) as nat));
    }
}

/// A digit run with a non-zero leading digit is worth at least ten to the
/// count of digits after the first.
proof fn lemma_digits_val_lower(s: Seq<u8>, i: int, j: int)
    requires
        0 <= i < j <= s.len(),
        49 <= s[i] <= 57,
        forall|k: int| i <= k < j ==> 48 <= #[trigger] s[k] <= 57,
    ensures
        digits_val(s, i, j) >= pow10((j - i - 1) as nat),
    decreases j - i,
{
    if j == i + 1 {
    } else {
        lemma_digits_val_lower(s, i, j - 1);
        assert(48 <= s[j - 1] <= 57);
        assert(digits_val(s, i, j) == digits_val(s, i, j - 1) * 10 + (s[j - 1] - 48));
        assert(pow10((j - i - 1) as nat) == 10 * pow10((j - i - 2) as nat));
    }
}

/// The integer literal at `i`, where the byte there is a minus sign or a
/// digit.
fn num_lit(s: &[u8], i: usize) -> (r: Option<(i64, usize)>)
    requires
        i < s@.len(),
        s@[i as int] == 45 || 48 <= s@[i as int] <= 57,
    ensures
        match r {
            Some(p) => parse_number(s@, i as int) == Some((ValueV::Int(p.0 as int), p.1 as int))
                && i < p.1 <= s@.len(),
            None => parse_number(s@, i as int) is None,
        },
{
    let neg = s[i] == 45;
    let d0 = if neg {
        i + 1
    } else {
        i
    };
    if !(d0 < s.len() && 48 <= s[d0] && s[d0] <= 57) {
        return None;
    }
    let end = digits_to(s, d0);
    proof {
        lemma_digits_range(s@, d0 as int);
        lemma_digits_range(s@, d0 + 1);
        assert(end == digits_end(s@, d0 + 1));
        assert(end > d0);
    }
    if s[d0] == 48 && end > d0 + 1 {
        return None;
    }
    if end < s.len() && (s[end] == 46 || s[end] == 101 || s[end] == 69) {
        return None;
    }
    if end - d0 > 19 {
        // twenty or more digits cannot fit 64 signed bits
        proof {
            lemma_digits_val_lower(s@, d0 as int, end as int);
            lemma_pow10_mono(19, (end - d0 - 1) as nat);
            lemma_pow10_19();
        }
        return None;
    }
    let mut acc: u64 = 0;
    let mut k = d0;
    while k < end
        invariant
            d0 <= k <= end <= s@.len(),
            end - d0 <= 19,
            end == digits_end(s@, d0 as int),
            forall|t: int| d0 <= t < end ==> 48 <= #[trigger] s@[t] <= 57,
            acc == digits_val(s@, d0 as int, k as int),
            acc < pow10((k - d0) as nat),
        decreases end - k,
    {
        let d = (s[k] - 48) as u64;
        proof {
            lemma_pow10_mono((k - d0) as nat, 18);
            lemma_pow10_mono(18, 19);
            lemma_pow10_19();
            assert(pow10(19) == 10 * pow10(18));
            assert(pow10(((k - d0) + 1) as nat) == 10 * pow10((k - d0) as nat));
        }
        acc = acc * 10 + d;
        k = k + 1;
    }
    if neg {
        if acc < 0x8000000000000000 {
            Some((-(acc as i64), end))
        } else if acc == 0x8000000000000000 {
            Some((i64::MIN, end))
        } else {
            None
        }
    } else {
        if acc <= 0x7FFFFFFFFFFFFFFF {
            Some((acc as i64, end))
        } else {
            None
        }
    }
}

/// Prepending an element prepends its view.
proof fn lemma_vals_view_prepend(q: Seq<Value>, x: Value)
    ensures
        vals_view(q.insert(0, x)) =~= seq![value_view(x)] + vals_view(q),
{
    lemma_vals_view_len(q);
    lemma_vals_view_len(q.insert(0, x));
    assert forall|t: int| 0 <= t < q.len() + 1 implies vals_view(q.insert(0, x))[t] == (
    seq![value_view(x)] + vals_view(q))[t] by {
        lemma_vals_view_index(q.insert(0, x), t);
        if t > 0 {
            lemma_vals_view_index(q, t - 1);
        }
    };
}

/// Prepending a member prepends its view.
proof fn lemma_members_view_prepend(q: Seq<(String, Value)>, x: (String, Value))
    ensures
        crate::value::members_view(q.insert(0, x)) =~= seq![(x.0@, value_view(x.1))]
            + crate::value::members_view(q),
{
    lemma_members_view_len(q);
    lemma_members_view_len(q.insert(0, x));
    assert forall|t: int|
        0 <= t < q.len() + 1 implies crate::value::members_view(q.insert(0, x))[t] == (
    seq![(x.0@, value_view(x.1))] + crate::value::members_view(q))[t] by {
        lemma_members_view_index(q.insert(0, x), t);
        if t > 0 {
            lemma_members_view_index(q, t - 1);
        }
    };
}

/// The document value at non-whitespace position `i`.
fn val_at(s: &[u8], i: usize, fuel: usize) -> (r: Option<(Value, usize)>)
    requires
        i <= s@.len(),
        s@.len() + 16 <= usize::MAX,
    ensures
        match r {
            Some(p) => parse_value_spec(s@, i as int, fuel as nat) == Some((p.0@, p.1 as int))
                && i < p.1 <= s@.len(),
            None => parse_value_spec(s@, i as int, fuel as nat) is None,
        },
    decreases fuel,
{
    if fuel == 0 {
        return None;
    }
    if i >= s.len() {
        return None;
    }
    let b = s[i];
    if b == 110 {
        if i + 4 <= s.len() && s[i + 1] == 117 && s[i + 2] == 108 && s[i + 3] == 108 {
            Some((Value::Null, i + 4))
        } else {
            None
        }
    } else if b == 116 {
        if i + 4 <= s.len() && s[i + 1] == 114 && s[i + 2] == 117 && s[i + 3] == 101 {
            Some((Value::Bool(true), i + 4))
        } else {
            None
        }
    } else if b == 102 {
        if i + 5 <= s.len() && s[i + 1] == 97 && s[i + 2] == 108 && s[i + 3] == 115 && s[i + 4]
            == 101 {
            Some((Value::Bool(false), i + 5))
        } else {
            None
        }
    } else if b == 34 {
        match str_lit(s, i + 1) {
            None => None,
            Some(p) => Some((Value::Str(p.0), p.1)),
        }
    } else if b == 45 || (48 <= b && b <= 57) {
        match num_lit(s, i) {
            None => None,
            Some(p) => Some((Value::Int(p.0), p.1)),
        }
    } else if b == 91 {
        let j = ws_to(s, i + 1);
        if j < s.len() && s[j] == 93 {
            let empty_items: Vec<Value> = Vec::new();
            proof {
                assert(vals_view(empty_items@) =~= Seq::<ValueV>::empty());
            }
            Some((Value::Arr(empty_items), j + 1))
        } else {
            match elems_at(s, j, fuel - 1) {
                None => None,
                Some(p) => Some((Value::Arr(p.0), p.1)),
            }
        }
    } else if b == 123 {
        let j = ws_to(s, i + 1);
        if j < s.len() && s[j] == 125 {
            let empty_members: Vec<(String, Value)> = Vec::new();
            proof {
                assert(crate::value::members_view(empty_members@) =~= Seq::<
                    (Seq<char>, ValueV),
                >::empty());
            }
            Some((Value::Obj(empty_members), j + 1))
        } else {
            match membs_at(s, j, fuel - 1) {
                None => None,
                Some(p) => Some((Value::Obj(p.0), p.1)),
            }
        }
    } else {
        None
    }
}

/// The elements of a non-empty array, from the first element on.
fn elems_at(s: &[u8], i: usize, fuel: usize) -> (r: Option<(Vec<Value>, usize)>)
    requires
        i <= s@.len(),
        s@.len() + 16 <= usize::MAX,
    ensures
        match r {
            Some(p) => parse_elems(s@, i as int, fuel as nat) == Some(
                (vals_view(p.0@), p.1 as int),
            ) && i < p.1 <= s@.len(),
            None => parse_elems(s@, i as int, fuel as nat) is None,
        },
    decreases fuel,
{
    if fuel == 0 {
        return None;
    }
    let first = match val_at(s, i, fuel - 1) {
        None => {
            return None;
        },
        Some(first) => first,
    };
    let k = ws_to(s, first.1);
    if k < s.len() && s[k] == 44 {
        let m = ws_to(s, k + 1);
        match elems_at(s, m, fuel - 1) {
            None => None,
            Some(p) => {
                let mut items = p.0;
                let ghost old_items = items@;
                let ghost v0 = first.0@;
                items.insert(0, first.0);
                proof {
                    lemma_vals_view_prepend(old_items, items@[0]);
                    assert(vals_view(items@) =~= seq![v0] + vals_view(old_items));
                }
                Some((items, p.1))
            },
        }
    } else if k < s.len() && s[k] == 93 {
        let ghost v0 = first.0@;
        let mut one: Vec<Value> = Vec::new();
        one.push(first.0);
        proof {
            lemma_vals_view_len(one@);
            lemma_vals_view_index(one@, 0);
            assert(vals_view(one@) =~= seq![v0]);
        }
        Some((one, k + 1))
    } else {
        None
    }
}

/// The members of a non-empty object, from the first key on.
fn membs_at(s: &[u8], i: usize, fuel: usize) -> (r: Option<(Vec<(String, Value)>, usize)>)
    requires
        i <= s@.len(),
        s@.len() + 16 <= usize::MAX,
    ensures
        match r {
            Some(p) => parse_membs(s@, i as int, fuel as nat) == Some(
                (crate::value::members_view(p.0@), p.1 as int),
            ) && i < p.1 <= s@.len(),
            None => parse_membs(s@, i as int, fuel as nat) is None,
        },
    decreases fuel,
{
    if fuel == 0 {
        return None;
    }
    if !(i < s.len() && s[i] == 34) {
        return None;
    }
    let key = match str_lit(s, i + 1) {
        None => {
            return None;
        },
        Some(key) => key,
    };
    let k = ws_to(s, key.1);
    if !(k < s.len() && s[k] == 58) {
        return None;
    }
    let m = ws_to(s, k + 1);
    let val = match val_at(s, m, fuel - 1) {
        None => {
            return None;
        },
        Some(val) => val,
    };
    let p = ws_to(s, val.1);
    if p < s.len() && s[p] == 44 {
        let q = ws_to(s, p + 1);
        match membs_at(s, q, fuel - 1) {
            None => None,
            Some(rest) => {
                let mut members = rest.0;
                let ghost old_members = members@;
                let ghost k0 = key.0@;
                let ghost v0 = val.0@;
                members.insert(0, (key.0, val.0));
                proof {
                    lemma_members_view_prepend(old_members, members@[0]);
                    assert(crate::value::members_view(members@) =~= seq![(k0, v0)]
                        + crate::value::members_view(old_members));
                }
                Some((members, rest.1))
            },
        }
    } else if p < s.len() && s[p] == 125 {
        let ghost k0 = key.0@;
        let ghost v0 = val.0@;
        let mut one: Vec<(String, Value)> = Vec::new();
        one.push((key.0, val.0));
        proof {
            lemma_members_view_len(one@);
            lemma_members_view_index(one@, 0);
            assert(crate::value::members_view(one@) =~= seq![(k0, v0)]);
        }
        Some((one, p + 1))
    } else {
        None
    }
}

/// Parse a whole JSON text into a document, per [`parse_json_spec`].
pub fn parse_json(s: &[u8]) -> (r: Option<Value>)
    requires
        s@.len() + 16 <= usize::MAX,
    ensures
        match r {
            Some(v) => parse_json_spec(s@) == Some(v@),
            None => parse_json_spec(s@) is None,
        },
{
    let start = ws_to(s, 0);
    let fuel = s.len() + 2;
    match val_at(s, start, fuel) {
        None => None,
        Some(p) => {
            if ws_to(s, p.1) == s.len() {
                Some(p.0)
            } else {
                None
            }
        },
    }
}

/// The canonical JSON text of a document, as bytes.
pub fn to_json_vec(v: &Value) -> (r: Vec<u8>)
    ensures
        r@ == json_bytes(v@),
{
    let mut out: Vec<u8> = Vec::new();
    write_value(v, &mut out);
    proof {
        assert(out@ =~= json_bytes(v@));
    }
    out
}


/// The escaped text of a string unfolds from the front.
proof fn lemma_esc_str_front(cs: Seq<char>)
    requires
        cs.len() > 0,
    ensures
        esc_str(cs) == esc_char(cs[0]) + esc_str(cs.skip(1)),
    decreases cs.len(),
{
    if cs.len() == 1 {
        assert(cs.drop_last() =~= Seq::<char>::empty());
        assert(cs.skip(1) =~= Seq::<char>::empty());
        assert(esc_str(cs) =~= esc_char(cs[0]) + esc_str(cs.skip(1)));
    } else {
        lemma_esc_str_front(cs.drop_last());
        assert(cs.drop_last()[0] == cs[0]);
        assert(cs.drop_last().skip(1) =~= cs.skip(1).drop_last());
        assert(cs.skip(1).last() == cs.last());
        assert(cs.skip(1).len() > 0);
        assert(esc_str(cs.skip(1)) == esc_str(cs.skip(1).drop_last()) + esc_char(cs.skip(1).last()));
        assert(esc_str(cs) =~= esc_char(cs[0]) + esc_str(cs.skip(1)));
    }
}

/// Hex digit bytes read back as their value.
proof fn lemma_hex_digit_val(d: int)
    requires
        0 <= d < 16,
    ensures
        hex_val(hex_digit(d)) == Some(d),
{
}

/// A `\uXXXX` escape reads back as its code unit.
proof fn lemma_u_esc_parse(s: Seq<u8>, i: int, cp: int)
    requires
        0 <= i,
        i + 6 <= s.len(),
        0 <= cp < 0x10000,
        s.subrange(i, i + 6) == u_esc(cp),
    ensures
        s[i] == 92,
        s[i + 1] == 117,
        hex4(s, i + 2) == Some(cp),
{
    let u = u_esc(cp);
    assert(s[i] == u[0]);
    assert(s[i + 1] == u[1]);
    assert(s[i + 2] == u[2]);
    assert(s[i + 3] == u[3]);
    assert(s[i + 4] == u[4]);
    assert(s[i + 5] == u[5]);
    lemma_hex_digit_val(cp / 4096 % 16);
    lemma_hex_digit_val(cp / 256 % 16);
    lemma_hex_digit_val(cp / 16 % 16);
    lemma_hex_digit_val(cp % 16);
    assert((cp / 4096 % 16) * 4096 + (cp / 256 % 16) * 256 + (cp / 16 % 16) * 16 + cp % 16
        == cp) by {
        assert(cp / 4096 % 16 == cp / 4096);
        assert(cp == (cp / 16) * 16 + cp % 16);
        assert(cp / 16 == (cp / 256) * 16 + (cp / 16) % 16) by {
            assert(cp / 16 / 16 == cp / 256) by (nonlinear_arith);
        }
        assert(cp / 256 == (cp / 4096) * 16 + (cp / 256) % 16) by {
            assert(cp / 256 / 16 == cp / 4096) by (nonlinear_arith);
        }
    }
}

/// Whitespace skipping stands still on a non-whitespace byte or at the end.
proof fn lemma_skip_ws_at(s: Seq<u8>, i: int)
    requires
        0 <= i <= s.len(),
        i == s.len() || !is_ws(s[i]),
    ensures
        skip_ws(s, i) == i,
{
}

/// The digits of a non-negative integer: at least one byte, every byte a
/// digit, and a zero first digit only for zero itself.
proof fn lemma_dec_u_shape(n: int)
    requires
        n >= 0,
    ensures
        dec_u(n).len() >= 1,
        forall|k: int| 0 <= k < dec_u(n).len() ==> 48 <= #[trigger] dec_u(n)[k] <= 57,
        dec_u(n)[0] == 48 <==> n == 0,
    decreases n,
{
    if n >= 10 {
        lemma_dec_u_shape(n / 10);
        assert(forall|k: int|
            0 <= k < dec_u(n).len() ==> 48 <= #[trigger] dec_u(n)[k] <= 57) by {
            assert(dec_u(n) == dec_u(n / 10) + seq![(48 + n % 10) as u8]);
        }
        assert(dec_u(n)[0] == dec_u(n / 10)[0]);
    }
}

/// A run of digit bytes with a non-digit after it ends exactly there.
proof fn lemma_digits_end_of(s: Seq<u8>, i: int, j: int)
    requires
        0 <= i <= j <= s.len(),
        forall|k: int| i <= k < j ==> 48 <= #[trigger] s[k] <= 57,
        j == s.len() || !(48 <= s[j] <= 57),
    ensures
        digits_end(s, i) == j,
    decreases j - i,
{
    if i < j {
        lemma_digits_end_of(s, i + 1, j);
    }
}

/// The decimal text of `n` reads back as `n`.
proof fn lemma_digits_val_of(s: Seq<u8>, i: int, n: int)
    requires
        0 <= i,
        n >= 0,
        i + dec_u(n).len() <= s.len(),
        s.subrange(i, i + dec_u(n).len()) == dec_u(n),
    ensures
        digits_val(s, i, i + dec_u(n).len()) == n,
    decreases n,
{
    reveal_with_fuel(digits_val, 3);
    let d = dec_u(n);
    if n < 10 {
        assert(d.len() == 1);
        assert(s.subrange(i, i + 1)[0] == s[i]);
        assert(s[i] == d[0]);
        assert(digits_val(s, i, i + 1) == s[i] - 48);
    } else {
        let dd = dec_u(n / 10);
        assert(d == dd + seq![(48 + n % 10) as u8]);
        assert(s.subrange(i, i + dd.len() as int) =~= dd) by {
            assert forall|k: int| 0 <= k < dd.len() implies s.subrange(
                i,
                i + dd.len() as int,
            )[k] == dd[k] by {
                assert(s.subrange(i, i + d.len() as int)[k] == d[k]);
                assert(d[k] == dd[k]);
                assert(s.subrange(i, i + d.len() as int)[k] == s[i + k]);
                assert(s.subrange(i, i + dd.len() as int)[k] == s[i + k]);
            };
        }
        lemma_digits_val_of(s, i, n / 10);
        assert(s.subrange(i, i + d.len() as int)[d.len() - 1] == d[d.len() - 1]);
        assert(s[i + d.len() - 1] == d[d.len() - 1]);
        assert(digits_val(s, i, i + d.len()) == digits_val(s, i, i + d.len() - 1) * 10 + (s[i
            + d.len() - 1] - 48));
    }
}


/// The decimal text of an integer in 64-bit range, followed by anything
/// that cannot extend a number, reads back as that integer.
proof fn lemma_num_rt(s: Seq<u8>, i: int, n: int)
    requires
        0 <= i,
        i + dec_i(n).len() <= s.len(),
        s.subrange(i, i + dec_i(n).len()) == dec_i(n),
        -0x8000000000000000 <= n <= 0x7FFFFFFFFFFFFFFF,
        i + dec_i(n).len() == s.len() || {
            let b = s[i + dec_i(n).len()];
            !(48 <= b <= 57) && b != 46 && b != 101 && b != 69
        },
    ensures
        parse_number(s, i) == Some((ValueV::Int(n), i + dec_i(n).len())),
{
    let t = dec_i(n);
    if n < 0 {
        let d = dec_u(-n);
        lemma_dec_u_shape(-n);
        assert(t == seq![45u8] + d);
        assert(s.subrange(i, i + t.len() as int)[0] == t[0]);
        assert(s[i] == 45);
        assert(s.subrange(i + 1, i + 1 + d.len() as int) =~= d) by {
            assert forall|k: int| 0 <= k < d.len() implies s.subrange(
                i + 1,
                i + 1 + d.len() as int,
            )[k] == d[k] by {
                assert(s.subrange(i, i + t.len() as int)[k + 1] == t[k + 1]);
                assert(t[k + 1] == d[k]);
            };
        }
        assert(forall|k: int| i + 1 <= k < i + 1 + d.len() ==> 48 <= #[trigger] s[k] <= 57) by {
            assert(forall|k: int|
                i + 1 <= k < i + 1 + d.len() ==> s[k] == s.subrange(
                    i + 1,
                    i + 1 + d.len() as int,
                )[k - i - 1]);
        }
        lemma_digits_end_of(s, i + 1, i + 1 + d.len());
        lemma_digits_val_of(s, i + 1, -n);
        assert(s.subrange(i + 1, i + 1 + d.len() as int)[0] == d[0]);
        assert(s[i + 1] == d[0]);
        assert(n < 0 ==> -n > 0);
        assert(s[i + 1] == 48 ==> -n == 0);
    } else {
        let d = dec_u(n);
        lemma_dec_u_shape(n);
        assert(t == d);
        assert(s.subrange(i, i + d.len() as int)[0] == d[0]);
        assert(s[i] == d[0]);
        assert(48 <= s[i] <= 57);
        assert(s[i] != 45);
        assert(forall|k: int| i <= k < i + d.len() ==> 48 <= #[trigger] s[k] <= 57) by {
            assert(forall|k: int|
                i <= k < i + d.len() ==> s[k] == s.subrange(i, i + d.len() as int)[k - i]);
        }
        lemma_digits_end_of(s, i, i + d.len());
        lemma_digits_val_of(s, i, n);
        assert(s[i] == 48 ==> n == 0);
        assert(n == 0 ==> d.len() == 1);
    }
}

/// A document text is never empty, and its first byte opens a value: it
/// is no whitespace, separator, or closer.
proof fn lemma_json_first_byte(v: ValueV)
    ensures
        json_bytes(v).len() >= 1,
        !is_ws(json_bytes(v)[0]),
        json_bytes(v)[0] != 44,
        json_bytes(v)[0] != 58,
        json_bytes(v)[0] != 93,
        json_bytes(v)[0] != 125,
        json_bytes(v)[0] == 110 || json_bytes(v)[0] == 116 || json_bytes(v)[0] == 102
            || json_bytes(v)[0] == 34 || json_bytes(v)[0] == 45 || (48 <= json_bytes(v)[0] <= 57)
            || json_bytes(v)[0] == 91 || json_bytes(v)[0] == 123,
{
    match v {
        ValueV::Int(n) => {
            if n < 0 {
                lemma_dec_u_shape(-n);
            } else {
                lemma_dec_u_shape(n);
                assert(json_bytes(v)[0] == dec_u(n)[0]);
            }
        },
        _ => {},
    }
}

/// The text of a list of two or more elements unfolds from the front.
proof fn lemma_json_list_front(items: Seq<ValueV>)
    requires
        items.len() >= 2,
    ensures
        json_list(items) == json_bytes(items[0]) + seq![44u8] + json_list(items.skip(1)),
    decreases items.len(),
{
    if items.len() == 2 {
        assert(items.drop_last() =~= seq![items[0]]);
        assert(items.skip(1) =~= seq![items[1]]);
        assert(json_list(seq![items[0]]) == json_bytes(items[0]));
        assert(json_list(seq![items[1]]) == json_bytes(items[1]));
        assert(json_list(items) =~= json_bytes(items[0]) + seq![44u8] + json_list(
            items.skip(1),
        ));
    } else {
        lemma_json_list_front(items.drop_last());
        assert(items.drop_last()[0] == items[0]);
        assert(items.drop_last().skip(1) =~= items.skip(1).drop_last());
        assert(items.skip(1).last() == items.last());
        assert(items.skip(1).len() >= 2);
        assert(json_list(items.skip(1)) == json_list(items.skip(1).drop_last()) + seq![44u8]
            + json_bytes(items.skip(1).last()));
        assert(json_list(items) =~= json_bytes(items[0]) + seq![44u8] + json_list(
            items.skip(1),
        ));
    }
}

/// The text of a member list of two or more members unfolds from the front.
proof fn lemma_json_members_front(ms: Seq<(Seq<char>, ValueV)>)
    requires
        ms.len() >= 2,
    ensures
        json_members(ms) == quoted(ms[0].0) + seq![58u8] + json_bytes(ms[0].1) + seq![44u8]
            + json_members(ms.skip(1)),
    decreases ms.len(),
{
    if ms.len() == 2 {
        assert(ms.drop_last() =~= seq![ms[0]]);
        assert(ms.skip(1) =~= seq![ms[1]]);
        assert(json_members(seq![ms[0]]) == quoted(ms[0].0) + seq![58u8] + json_bytes(ms[0].1));
        assert(json_members(seq![ms[1]]) == quoted(ms[1].0) + seq![58u8] + json_bytes(ms[1].1));
        assert(json_members(ms) =~= quoted(ms[0].0) + seq![58u8] + json_bytes(ms[0].1)
            + seq![44u8] + json_members(ms.skip(1)));
    } else {
        lemma_json_members_front(ms.drop_last());
        assert(ms.drop_last()[0] == ms[0]);
        assert(ms.drop_last().skip(1) =~= ms.skip(1).drop_last());
        assert(ms.skip(1).last() == ms.last());
        assert(ms.skip(1).len() >= 2);
        assert(json_members(ms.skip(1)) == json_members(ms.skip(1).drop_last()) + seq![44u8]
            + quoted(ms.skip(1).last().0) + seq![58u8] + json_bytes(ms.skip(1).last().1));
        assert(json_members(ms) =~= quoted(ms[0].0) + seq![58u8] + json_bytes(ms[0].1)
            + seq![44u8] + json_members(ms.skip(1)));
    }
}


/// The bytes of a subrange known as a whole, one at a time.
proof fn lemma_bytes_at(s: Seq<u8>, i: int, t: Seq<u8>)
    requires
        0 <= i,
        i + t.len() <= s.len(),
        s.subrange(i, i + t.len() as int) == t,
    ensures
        forall|k: int| 0 <= k < t.len() ==> s[i + k] == #[trigger] t[k],
{
    assert forall|k: int| 0 <= k < t.len() implies s[i + k] == #[trigger] t[k] by {
        assert(s.subrange(i, i + t.len() as int)[k] == t[k]);
    };
}

/// A subrange equal to a concatenation splits into its two parts.
proof fn lemma_cat_at(s: Seq<u8>, i: int, a: Seq<u8>, b: Seq<u8>)
    requires
        0 <= i,
        i + a.len() + b.len() <= s.len(),
        s.subrange(i, i + a.len() + b.len()) == a + b,
    ensures
        s.subrange(i, i + a.len() as int) =~= a,
        s.subrange(i + a.len(), i + a.len() + b.len()) =~= b,
{
    lemma_bytes_at(s, i, a + b);
    assert forall|k: int| 0 <= k < a.len() implies s.subrange(i, i + a.len() as int)[k] == a[k]
        by {
        assert(s[i + k] == (a + b)[k]);
    };
    assert forall|k: int|
        0 <= k < b.len() implies s.subrange(i + a.len(), i + a.len() + b.len())[k] == b[k] by {
        assert(s[i + a.len() + k] == (a + b)[a.len() + k]);
    };
}


/// A character is a Unicode scalar value; naming one as a parameter makes
/// its range available wherever it came from a sequence.
proof fn lemma_char_bounds(c: char)
    ensures
        0 <= (c as int) && (c as int) <= 0x10FFFF,
        !(0xD800 <= (c as int) && (c as int) < 0xE000),
{
    vstd::utf8::char_is_scalar(c);
    vstd::utf8::char_u32_cast(c, c as u32);
}

/// Reading one escaped quote or backslash prepends it.
proof fn lemma_char_step_two(s: Seq<u8>, i: int, c: char, cs2: Seq<char>, j: int)
    requires
        0 <= i,
        c == '"' || c == '\\',
        i + 2 <= s.len(),
        s[i] == 92,
        s[i + 1] == (if c == '"' {
            34u8
        } else {
            92u8
        }),
        parse_chars(s, i + 2) == Some((cs2, j)),
    ensures
        parse_chars(s, i) == Some((seq![c] + cs2, j)),
{
}

/// Reading one raw printable ASCII byte prepends its character.
proof fn lemma_char_step_raw(s: Seq<u8>, i: int, c: char, cs2: Seq<char>, j: int)
    requires
        0 <= i,
        i + 1 <= s.len(),
        32 <= (c as int) && (c as int) < 128,
        c != '"' && c != '\\',
        s[i] == (c as int) as u8,
        parse_chars(s, i + 1) == Some((cs2, j)),
    ensures
        parse_chars(s, i) == Some((seq![c] + cs2, j)),
{
    vstd::utf8::char_u32_cast(c, c as u32);
    assert(('"' as int) == 34 && ('\\' as int) == 92);
    assert(s[i] != 34 && s[i] != 92);
    assert((s[i] as char) == c);
}

/// Reading one `\uXXXX` escape outside the surrogate range prepends its
/// character.
proof fn lemma_char_step_uesc(s: Seq<u8>, i: int, c: char, cs2: Seq<char>, j: int)
    requires
        0 <= i,
        i + 6 <= s.len(),
        0 <= (c as int) && (c as int) < 0x10000,
        s.subrange(i, i + 6) == u_esc(c as int),
        parse_chars(s, i + 6) == Some((cs2, j)),
    ensures
        parse_chars(s, i) == Some((seq![c] + cs2, j)),
{
    vstd::utf8::char_is_scalar(c);
    vstd::utf8::char_u32_cast(c, c as u32);
    let cp = c as int;
    lemma_u_esc_parse(s, i, cp);
    assert(!(0xD800 <= cp && cp < 0xE000));
    assert(((cp as u32) as char) == c);
}

/// Reading one surrogate-pair escape prepends its character.
proof fn lemma_char_step_pair(s: Seq<u8>, i: int, c: char, cs2: Seq<char>, j: int)
    requires
        0 <= i,
        i + 12 <= s.len(),
        0x10000 <= (c as int),
        s.subrange(i, i + 12) == u_esc(0xD800 + ((c as int) - 0x10000) / 1024) + u_esc(
            0xDC00 + ((c as int) - 0x10000) % 1024,
        ),
        parse_chars(s, i + 12) == Some((cs2, j)),
    ensures
        parse_chars(s, i) == Some((seq![c] + cs2, j)),
{
    vstd::utf8::char_is_scalar(c);
    vstd::utf8::char_u32_cast(c, c as u32);
    let cp = c as int;
    let hi = 0xD800 + (cp - 0x10000) / 1024;
    let lo = 0xDC00 + (cp - 0x10000) % 1024;
    lemma_cat_at(s, i, u_esc(hi), u_esc(lo));
    lemma_u_esc_parse(s, i, hi);
    lemma_u_esc_parse(s, i + 6, lo);
    assert(0xD800 <= hi < 0xDC00) by {
        assert(cp - 0x10000 <= 0xFFFFF);
        assert((cp - 0x10000) / 1024 <= 1023);
        assert((cp - 0x10000) / 1024 >= 0);
    }
    assert(0xDC00 <= lo < 0xE000);
    assert(0x10000 + (hi - 0xD800) * 1024 + (lo - 0xDC00) == cp);
    assert(((cp as u32) as char) == c);
}

/// The escaped text of a string, up to its closing quote, reads back as
/// the string.
#[verifier::spinoff_prover]
#[verifier::rlimit(80)]
proof fn lemma_str_rt(s: Seq<u8>, i: int, cs: Seq<char>)
    requires
        0 <= i,
        i + esc_str(cs).len() + 1 <= s.len(),
        s.subrange(i, i + esc_str(cs).len()) == esc_str(cs),
        s[i + esc_str(cs).len()] == 34,
    ensures
        parse_chars(s, i) == Some((cs, i + esc_str(cs).len() + 1)),
    decreases cs.len(),
{
    if cs.len() == 0 {
        assert(esc_str(cs).len() == 0);
    } else {
        lemma_esc_str_front(cs);
        let c = cs[0];
        let e = esc_char(c);
        let rest = esc_str(cs.skip(1));
        assert(esc_str(cs) == e + rest);
        lemma_cat_at(s, i, e, rest);
        lemma_bytes_at(s, i, e);
        let i2 = i + e.len() as int;
        assert(s[i2 + rest.len()] == 34);
        lemma_str_rt(s, i2, cs.skip(1));
        let tail = cs.skip(1);
        let j = i2 + rest.len() + 1;
        lemma_char_bounds(c);
        let cp = c as int;
        assert(0 <= cp <= 0x10FFFF);
        if c == '"' || c == '\\' {
            lemma_char_step_two(s, i, c, tail, j);
        } else if cp < 0x20 {
            lemma_char_step_uesc(s, i, c, tail, j);
        } else if cp < 0x80 {
            assert(e == seq![(cp as u8)]);
            assert(s[i + 0] == e[0]);
            lemma_char_step_raw(s, i, c, tail, j);
        } else if cp < 0x10000 {
            lemma_char_step_uesc(s, i, c, tail, j);
        } else {
            lemma_char_step_pair(s, i, c, tail, j);
        }
        assert(seq![c] + tail =~= cs);
    }
}



/// The one byte of a singleton subrange.
proof fn lemma_byte_at1(s: Seq<u8>, x: int, b: u8)
    requires
        0 <= x,
        x + 1 <= s.len(),
        s.subrange(x, x + 1) == seq![b],
    ensures
        s[x] == b,
{
    assert(s.subrange(x, x + 1)[0] == b);
}

/// A document all of whose integers fit 64 signed bits — every document
/// the executable tree can hold.
pub open spec fn wf_doc(v: ValueV) -> bool
    decreases v,
{
    match v {
        ValueV::Int(n) => -0x8000000000000000 <= n <= 0x7FFFFFFFFFFFFFFF,
        ValueV::Arr(items) => forall|k: int| 0 <= k < items.len() ==> wf_doc(#[trigger] items[k]),
        ValueV::Obj(ms) => forall|k: int| 0 <= k < ms.len() ==> wf_doc(#[trigger] ms[k].1),
        _ => true,
    }
}

/// The view of an executable document is always well-formed.
pub proof fn lemma_value_view_wf(x: Value)
    ensures
        wf_doc(value_view(x)),
    decreases x,
{
    match x {
        Value::Arr(items) => {
            lemma_vals_view_len(items@);
            assert forall|k: int|
                0 <= k < vals_view(items@).len() implies wf_doc(
                #[trigger] vals_view(items@)[k],
            ) by {
                lemma_vals_view_index(items@, k);
                lemma_value_view_wf(items@[k]);
            };
        },
        Value::Obj(members) => {
            lemma_members_view_len(members@);
            assert forall|k: int|
                0 <= k < crate::value::members_view(members@).len() implies wf_doc(
                #[trigger] crate::value::members_view(members@)[k].1,
            ) by {
                lemma_members_view_index(members@, k);
                lemma_value_view_wf(members@[k].1);
            };
        },
        _ => {},
    }
}

/// A value's text, followed by a separator, a closer, or the end, reads
/// back as the value.
#[verifier::rlimit(100)]
proof fn lemma_rt_value(s: Seq<u8>, i: int, v: ValueV, fuel: nat)
    requires
        0 <= i,
        wf_doc(v),
        i + json_bytes(v).len() <= s.len(),
        s.subrange(i, i + json_bytes(v).len()) == json_bytes(v),
        i + json_bytes(v).len() == s.len() || {
            let b = s[i + json_bytes(v).len()];
            b == 44 || b == 93 || b == 125
        },
        fuel >= json_bytes(v).len() + 1,
    ensures
        parse_value_spec(s, i, fuel) == Some((v, i + json_bytes(v).len())),
    decreases v, 1int,
{
    let t = json_bytes(v);
    lemma_bytes_at(s, i, t);
    match v {
        ValueV::Null => {
            assert(s[i + 0] == t[0] && s[i + 1] == t[1] && s[i + 2] == t[2] && s[i + 3] == t[3]);
            lemma_parse_null(s, i, fuel);
        },
        ValueV::Bool(b) => {
            if b {
                assert(s[i + 0] == t[0] && s[i + 1] == t[1] && s[i + 2] == t[2] && s[i + 3]
                    == t[3]);
                lemma_parse_true(s, i, fuel);
            } else {
                assert(s[i + 0] == t[0] && s[i + 1] == t[1] && s[i + 2] == t[2] && s[i + 3]
                    == t[3] && s[i + 4] == t[4]);
                lemma_parse_false(s, i, fuel);
            }
        },
        ValueV::Int(n) => {
            lemma_num_rt(s, i, n);
        },
        ValueV::Str(cs) => {
            assert(t =~= seq![34u8] + (esc_str(cs) + seq![34u8]));
            lemma_cat_at(s, i, seq![34u8], esc_str(cs) + seq![34u8]);
            lemma_byte_at1(s, i, 34);
            lemma_cat_at(s, i + 1, esc_str(cs), seq![34u8]);
            lemma_byte_at1(s, i + 1 + esc_str(cs).len(), 34);
            lemma_str_rt(s, i + 1, cs);
        },
        ValueV::Arr(items) => {
            assert(t =~= seq![91u8] + (json_list(items) + seq![93u8]));
            lemma_cat_at(s, i, seq![91u8], json_list(items) + seq![93u8]);
            lemma_byte_at1(s, i, 91);
            lemma_cat_at(s, i + 1, json_list(items), seq![93u8]);
            lemma_byte_at1(s, i + 1 + json_list(items).len(), 93);
            if items.len() == 0 {
                assert(json_list(items).len() == 0);
                assert(items =~= Seq::<ValueV>::empty());
                lemma_skip_ws_at(s, i + 1);
            } else {
                lemma_rt_value_arr(s, i, items, fuel);
            }
        },
        ValueV::Obj(ms) => {
            assert(t =~= seq![123u8] + (json_members(ms) + seq![125u8]));
            lemma_cat_at(s, i, seq![123u8], json_members(ms) + seq![125u8]);
            lemma_byte_at1(s, i, 123);
            lemma_cat_at(s, i + 1, json_members(ms), seq![125u8]);
            lemma_byte_at1(s, i + 1 + json_members(ms).len(), 125);
            if ms.len() == 0 {
                assert(json_members(ms).len() == 0);
                assert(ms =~= Seq::<(Seq<char>, ValueV)>::empty());
                lemma_skip_ws_at(s, i + 1);
            } else {
                lemma_rt_value_obj(s, i, ms, fuel);
            }
        },
    }
}

/// The array case of [`lemma_rt_value`], for a non-empty element list.
proof fn lemma_rt_value_arr(s: Seq<u8>, i: int, items: Seq<ValueV>, fuel: nat)
    requires
        0 <= i,
        items.len() >= 1,
        wf_doc(ValueV::Arr(items)),
        i + json_bytes(ValueV::Arr(items)).len() <= s.len(),
        s.subrange(i, i + json_bytes(ValueV::Arr(items)).len()) == json_bytes(
            ValueV::Arr(items),
        ),
        fuel >= json_bytes(ValueV::Arr(items)).len() + 1,
        s[i] == 91,
        s.subrange(i + 1, i + 1 + json_list(items).len()) == json_list(items),
        s[i + 1 + json_list(items).len()] == 93,
    ensures
        parse_value_spec(s, i, fuel) == Some(
            (ValueV::Arr(items), i + json_bytes(ValueV::Arr(items)).len()),
        ),
    decreases items, 3int,
{
    lemma_bytes_at(s, i + 1, json_list(items));
    if items.len() == 1 {
        assert(json_list(items) == json_bytes(items[0])) by {
            assert(items.last() == items[0]);
        }
    } else {
        lemma_json_list_front(items);
    }
    lemma_json_first_byte(items[0]);
    assert(s[i + 1 + 0] == json_list(items)[0]);
    assert(json_list(items)[0] == json_bytes(items[0])[0]);
    lemma_skip_ws_at(s, i + 1);
    lemma_rt_elems(s, i + 1, items, (fuel - 1) as nat);
}

/// The object case of [`lemma_rt_value`], for a non-empty member list.
proof fn lemma_rt_value_obj(s: Seq<u8>, i: int, ms: Seq<(Seq<char>, ValueV)>, fuel: nat)
    requires
        0 <= i,
        ms.len() >= 1,
        wf_doc(ValueV::Obj(ms)),
        i + json_bytes(ValueV::Obj(ms)).len() <= s.len(),
        s.subrange(i, i + json_bytes(ValueV::Obj(ms)).len()) == json_bytes(ValueV::Obj(ms)),
        fuel >= json_bytes(ValueV::Obj(ms)).len() + 1,
        s[i] == 123,
        s.subrange(i + 1, i + 1 + json_members(ms).len()) == json_members(ms),
        s[i + 1 + json_members(ms).len()] == 125,
    ensures
        parse_value_spec(s, i, fuel) == Some(
            (ValueV::Obj(ms), i + json_bytes(ValueV::Obj(ms)).len()),
        ),
    decreases ms, 3int,
{
    lemma_bytes_at(s, i + 1, json_members(ms));
    if ms.len() == 1 {
        assert(json_members(ms) == quoted(ms[0].0) + seq![58u8] + json_bytes(ms[0].1)) by {
            assert(ms.last() == ms[0]);
        }
    } else {
        lemma_json_members_front(ms);
    }
    assert(s[i + 1 + 0] == json_members(ms)[0]);
    assert(json_members(ms)[0] == 34);
    lemma_skip_ws_at(s, i + 1);
    lemma_rt_membs(s, i + 1, ms, (fuel - 1) as nat);
}

/// The elements' text, followed by the closing bracket, reads back as the
/// element list.
proof fn lemma_rt_elems(s: Seq<u8>, i: int, items: Seq<ValueV>, fuel: nat)
    requires
        0 <= i,
        items.len() >= 1,
        forall|k: int| 0 <= k < items.len() ==> wf_doc(#[trigger] items[k]),
        i + json_list(items).len() + 1 <= s.len(),
        s.subrange(i, i + json_list(items).len()) == json_list(items),
        s[i + json_list(items).len()] == 93,
        fuel >= json_list(items).len() + 2,
    ensures
        parse_elems(s, i, fuel) == Some((items, i + json_list(items).len() + 1)),
    decreases items, 2int,
{
    lemma_bytes_at(s, i, json_list(items));
    if items.len() == 1 {
        assert(json_list(items) == json_bytes(items[0])) by {
            assert(items.last() == items[0]);
        }
        lemma_rt_value(s, i, items[0], (fuel - 1) as nat);
        let j = i + json_bytes(items[0]).len();
        lemma_skip_ws_at(s, j);
        assert(items =~= seq![items[0]]);
    } else {
        lemma_json_list_front(items);
        let b0 = json_bytes(items[0]);
        let rest = json_list(items.skip(1));
        assert(json_list(items) =~= b0 + (seq![44u8] + rest));
        lemma_cat_at(s, i, b0, seq![44u8] + rest);
        lemma_cat_at(s, i + b0.len(), seq![44u8], rest);
        lemma_byte_at1(s, i + b0.len(), 44);
        lemma_rt_value(s, i, items[0], (fuel - 1) as nat);
        let j = i + b0.len();
        lemma_skip_ws_at(s, j);
        let m = j + 1;
        assert(items.skip(1).len() >= 1);
        if items.skip(1).len() == 1 {
            assert(rest == json_bytes(items.skip(1)[0])) by {
                assert(items.skip(1).last() == items.skip(1)[0]);
            }
        } else {
            lemma_json_list_front(items.skip(1));
        }
        lemma_json_first_byte(items.skip(1)[0]);
        assert(s[m + 0] == rest[0]);
        assert(rest[0] == json_bytes(items.skip(1)[0])[0]);
        lemma_skip_ws_at(s, m);
        assert(forall|k: int|
            0 <= k < items.skip(1).len() ==> wf_doc(#[trigger] items.skip(1)[k]));
        assert(items.skip(1) == items.subrange(1, items.len() as int));
        lemma_rt_elems(s, m, items.skip(1), (fuel - 1) as nat);
        assert(seq![items[0]] + items.skip(1) =~= items);
    }
}

/// One `"key":value` member's text at `i`: the key literal, the colon,
/// and the value read back as expected, with the value's text ending at
/// the returned position.
proof fn lemma_rt_member_head(
    s: Seq<u8>,
    i: int,
    key: Seq<char>,
    val: ValueV,
    tail: Seq<u8>,
    fuel: nat,
)
    requires
        0 <= i,
        wf_doc(val),
        ({
            let m0 = quoted(key) + seq![58u8] + json_bytes(val);
            &&& i + m0.len() + tail.len() <= s.len()
            &&& s.subrange(i, i + m0.len() + tail.len()) == m0 + tail
            &&& tail.len() >= 1
            &&& (tail[0] == 44 || tail[0] == 125)
            &&& fuel >= json_bytes(val).len() + 2
        }),
    ensures
        ({
            let m0 = quoted(key) + seq![58u8] + json_bytes(val);
            let j = i + 1 + esc_str(key).len() + 1;
            &&& s[i] == 34
            &&& parse_chars(s, i + 1) == Some((key, j))
            &&& skip_ws(s, j) == j
            &&& s[j] == 58
            &&& skip_ws(s, j + 1) == j + 1
            &&& parse_value_spec(s, j + 1, (fuel - 1) as nat) == Some((val, i + m0.len()))
            &&& skip_ws(s, i + m0.len()) == i + m0.len()
            &&& s[i + m0.len()] == tail[0]
        }),
    decreases val, 2int,
{
    let m0 = quoted(key) + seq![58u8] + json_bytes(val);
    assert(m0 + tail =~= seq![34u8] + ((esc_str(key) + seq![34u8]) + (seq![58u8] + (json_bytes(
        val,
    ) + tail))));
    lemma_cat_at(s, i, seq![34u8], (esc_str(key) + seq![34u8]) + (seq![58u8] + (json_bytes(val)
        + tail)));
    lemma_byte_at1(s, i, 34);
    lemma_cat_at(s, i + 1, esc_str(key) + seq![34u8], seq![58u8] + (json_bytes(val) + tail));
    lemma_cat_at(s, i + 1, esc_str(key), seq![34u8]);
    lemma_byte_at1(s, i + 1 + esc_str(key).len(), 34);
    lemma_str_rt(s, i + 1, key);
    let j = i + 1 + esc_str(key).len() + 1;
    lemma_cat_at(s, j, seq![58u8], json_bytes(val) + tail);
    lemma_byte_at1(s, j, 58);
    lemma_skip_ws_at(s, j);
    lemma_cat_at(s, j + 1, json_bytes(val), tail);
    lemma_bytes_at(s, j + 1, json_bytes(val));
    lemma_json_first_byte(val);
    assert(s[j + 1 + 0] == json_bytes(val)[0]);
    lemma_skip_ws_at(s, j + 1);
    lemma_bytes_at(s, j + 1 + json_bytes(val).len(), tail);
    assert(s[j + 1 + json_bytes(val).len() + 0] == tail[0]);
    lemma_rt_value(s, j + 1, val, (fuel - 1) as nat);
    lemma_skip_ws_at(s, i + m0.len());
}

/// The members' text, followed by the closing brace, reads back as the
/// member list.
proof fn lemma_rt_membs(s: Seq<u8>, i: int, ms: Seq<(Seq<char>, ValueV)>, fuel: nat)
    requires
        0 <= i,
        ms.len() >= 1,
        forall|k: int| 0 <= k < ms.len() ==> wf_doc(#[trigger] ms[k].1),
        i + json_members(ms).len() + 1 <= s.len(),
        s.subrange(i, i + json_members(ms).len()) == json_members(ms),
        s[i + json_members(ms).len()] == 125,
        fuel >= json_members(ms).len() + 2,
    ensures
        parse_membs(s, i, fuel) == Some((ms, i + json_members(ms).len() + 1)),
    decreases ms, 2int,
{
    let key = ms[0].0;
    let val = ms[0].1;
    let m0 = quoted(key) + seq![58u8] + json_bytes(val);
    if ms.len() == 1 {
        assert(json_members(ms) == m0) by {
            assert(ms.last() == ms[0]);
        }
        assert(s.subrange(i, i + m0.len() + 1) =~= m0 + seq![125u8]) by {
            assert forall|k: int| 0 <= k < m0.len() + 1 implies s.subrange(
                i,
                i + m0.len() + 1,
            )[k] == (m0 + seq![125u8])[k] by {
                if k < m0.len() {
                    assert(s.subrange(i, i + m0.len() as int)[k] == m0[k]);
                } else {
                    assert(s[i + m0.len()] == 125);
                }
            };
        }
        lemma_rt_member_head(s, i, key, val, seq![125u8], fuel);
        assert(ms =~= seq![ms[0]]);
    } else {
        lemma_json_members_front(ms);
        let rest = json_members(ms.skip(1));
        assert(json_members(ms) =~= m0 + (seq![44u8] + rest));
        lemma_cat_at(s, i, m0, seq![44u8] + rest);
        lemma_cat_at(s, i + m0.len(), seq![44u8], rest);
        lemma_byte_at1(s, i + m0.len(), 44);
        assert(s.subrange(i, i + m0.len() + (seq![44u8] + rest).len()) == m0 + (seq![44u8]
            + rest));
        lemma_rt_member_head(s, i, key, val, seq![44u8] + rest, fuel);
        let q = i + m0.len() + 1;
        assert(ms.skip(1).len() >= 1);
        assert(s.subrange(q, q + rest.len() as int) =~= rest);
        lemma_bytes_at(s, q, rest);
        if ms.skip(1).len() == 1 {
            assert(rest == quoted(ms.skip(1)[0].0) + seq![58u8] + json_bytes(ms.skip(1)[0].1))
                by {
                assert(ms.skip(1).last() == ms.skip(1)[0]);
            }
        } else {
            lemma_json_members_front(ms.skip(1));
        }
        assert(s[q + 0] == rest[0]);
        assert(rest[0] == 34);
        lemma_skip_ws_at(s, q);
        assert(forall|k: int| 0 <= k < ms.skip(1).len() ==> wf_doc(#[trigger] ms.skip(1)[k].1));
        assert(ms.skip(1) == ms.subrange(1, ms.len() as int));
        lemma_rt_membs(s, q, ms.skip(1), (fuel - 1) as nat);
        assert(seq![ms[0]] + ms.skip(1) =~= ms);
    }
}


proof fn lemma_parse_null(s: Seq<u8>, i: int, fuel: nat)
    requires
        0 <= i,
        i + 4 <= s.len(),
        s[i] == 110,
        s[i + 1] == 117,
        s[i + 2] == 108,
        s[i + 3] == 108,
        fuel >= 1,
    ensures
        parse_value_spec(s, i, fuel) == Some((ValueV::Null, i + 4)),
{
}

proof fn lemma_parse_true(s: Seq<u8>, i: int, fuel: nat)
    requires
        0 <= i,
        i + 4 <= s.len(),
        s[i] == 116,
        s[i + 1] == 114,
        s[i + 2] == 117,
        s[i + 3] == 101,
        fuel >= 1,
    ensures
        parse_value_spec(s, i, fuel) == Some((ValueV::Bool(true), i + 4)),
{
}

proof fn lemma_parse_false(s: Seq<u8>, i: int, fuel: nat)
    requires
        0 <= i,
        i + 5 <= s.len(),
        s[i] == 102,
        s[i + 1] == 97,
        s[i + 2] == 108,
        s[i + 3] == 115,
        s[i + 4] == 101,
        fuel >= 1,
    ensures
        parse_value_spec(s, i, fuel) == Some((ValueV::Bool(false), i + 5)),
{
}

/// Round trip: writing any well-formed document as JSON text and parsing
/// that text back yields exactly the document.
pub proof fn lemma_write_parse_round_trip(v: ValueV)
    requires
        wf_doc(v),
    ensures
        parse_json_spec(json_bytes(v)) == Some(v),
{
    let s = json_bytes(v);
    assert(s.subrange(0, s.len() as int) =~= s);
    lemma_json_first_byte(v);
    lemma_skip_ws_at(s, 0);
    lemma_rt_value(s, 0, v, (s.len() + 2) as nat);
    lemma_skip_ws_at(s, s.len() as int);
}

} // verus!
