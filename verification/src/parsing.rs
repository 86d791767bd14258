//! Parsing utilities for the addressing parameters.
//!
//! This module provides the parsers for MAC addresses and for the raw
//! flags/fragment bitfield value, together with the specification of
//! exactly which strings they accept: an optional sign, then one or more
//! digits of the radix, with the value bounded by a byte.

use vstd::prelude::*;

verus! {

/// Error raised when a MAC address string cannot be parsed.
#[derive(Clone, Copy, Debug, PartialEq, Eq, Structural)]
pub enum MacParseError {
    /// The string does not hold exactly 6 colon-separated octets.
    WrongOctetCount {
        /// Number of colon-separated pieces the string holds.
        got: usize,
    },
    /// An octet is not a valid hexadecimal byte.
    InvalidOctet {
        /// Index of the first octet that failed to parse.
        index: usize,
    },
}

/// Error raised when a bitfield string cannot be parsed.
#[derive(Clone, Copy, Debug, PartialEq, Eq, Structural)]
pub enum BitfieldParseError {
    /// The string starts with `0x` but the rest is not a hexadecimal byte.
    InvalidHex,
    /// The string is not a decimal byte value.
    InvalidDecimal,
}

/// Numeric value of `c` as a digit, hexadecimal digits included; -1 when
/// `c` is no digit at all.
pub open spec fn spec_digit_val(c: char) -> int {
    if 48 <= c as int <= 57 {
        c as int - 48
    } else if 97 <= c as int <= 102 {
        c as int - 87
    } else if 65 <= c as int <= 70 {
        c as int - 55
    } else {
        -1
    }
}

/// Whether the token starts with an explicit plus sign, the one sign an
/// unsigned value can carry.
pub open spec fn spec_has_sign(tok: Seq<char>) -> bool {
    tok.len() > 0 && tok[0] == '+'
}

/// The digit characters of the token: everything after an optional sign.
pub open spec fn spec_token_digits(tok: Seq<char>) -> Seq<char> {
    if spec_has_sign(tok) {
        tok.drop_first()
    } else {
        tok
    }
}

/// Whether the digit sequence is non-empty and made of digits below the
/// radix only.
pub open spec fn spec_digits_valid(d: Seq<char>, radix: int) -> bool {
    d.len() > 0 && forall|i: int| 0 <= i < d.len() ==> 0 <= #[trigger] spec_digit_val(d[i]) < radix
}

/// The number the digit sequence denotes in the given radix.
pub open spec fn spec_digits_value(d: Seq<char>, radix: int) -> int
    decreases d.len(),
{
    if d.len() == 0 {
        0
    } else {
        spec_digits_value(d.drop_last(), radix) * radix + spec_digit_val(d.last())
    }
}

/// The byte a token denotes in the given radix, if any: an optional plus
/// sign, then one or more digits, with a value a byte can hold.
pub open spec fn spec_parse_u8(tok: Seq<char>, radix: int) -> Option<u8> {
    let d = spec_token_digits(tok);
    if spec_digits_valid(d, radix) && spec_digits_value(d, radix) <= 255 {
        Some(spec_digits_value(d, radix) as u8)
    } else {
        None
    }
}

proof fn lemma_digits_value_nonneg(d: Seq<char>, radix: int)
    requires
        radix >= 1,
        forall|i: int| 0 <= i < d.len() ==> 0 <= #[trigger] spec_digit_val(d[i]),
    ensures
        spec_digits_value(d, radix) >= 0,
    decreases d.len(),
{
    if d.len() > 0 {
        lemma_digits_value_nonneg(d.drop_last(), radix);
        vstd::arithmetic::mul::lemma_mul_nonnegative(spec_digits_value(d.drop_last(), radix), radix);
    }
}

/// A prefix of a digit sequence never denotes more than the whole: each
/// further digit multiplies the value up and adds a non-negative amount.
proof fn lemma_digits_value_monotone(d: Seq<char>, k: int, radix: int)
    requires
        radix >= 1,
        0 <= k <= d.len(),
        forall|i: int| 0 <= i < d.len() ==> 0 <= #[trigger] spec_digit_val(d[i]),
    ensures
        spec_digits_value(d.take(k), radix) <= spec_digits_value(d, radix),
    decreases d.len() - k,
{
    if k < d.len() {
        lemma_digits_value_monotone(d, k + 1, radix);
        let p = d.take(k + 1);
        let vk = spec_digits_value(d.take(k), radix);
        assert(p.drop_last() =~= d.take(k));
        assert(p.last() == d[k]);
        assert(0 <= spec_digit_val(d[k]));
        assert(p.len() == k + 1);
        assert(spec_digits_value(p, radix) == vk * radix + spec_digit_val(p.last()));
        lemma_digits_value_nonneg(d.take(k), radix);
        assert(vk <= vk * radix) by (nonlinear_arith)
            requires
                0 <= vk,
                1 <= radix,
        ;
        assert(spec_digits_value(d.take(k), radix) <= spec_digits_value(d.take(k + 1), radix));
    } else {
        assert(d.take(k) =~= d);
    }
}

/// Numeric value of `c` as a digit, hexadecimal digits included.
fn digit_val(c: char) -> (v: Option<u8>)
    ensures
        match v {
            Some(x) => spec_digit_val(c) == x,
            None => spec_digit_val(c) == -1,
        },
{
    let cv = c as u32;
    if 48 <= cv && cv <= 57 {
        Some((cv - 48) as u8)
    } else if 97 <= cv && cv <= 102 {
        Some((cv - 87) as u8)
    } else if 65 <= cv && cv <= 70 {
        Some((cv - 55) as u8)
    } else {
        None
    }
}

/// Collects the characters of a string into a vector.
pub(crate) fn collect_chars(s: &str) -> (v: Vec<char>)
    ensures
        v@ == s@,
{
    let n = s.unicode_len();
    let mut v: Vec<char> = Vec::new();
    let mut i: usize = 0;
    while i < n
        invariant
            n == s@.len(),
            i <= n,
            v@ == s@.take(i as int),
        decreases n - i,
    {
        v.push(s.get_char(i));
        proof {
            assert(v@ =~= s@.take(i + 1));
        }
        i = i + 1;
    }
    proof {
        assert(s@.take(n as int) =~= s@);
    }
    v
}

/// Parses `chars[start..end]` as a byte in the given radix, accepting an
/// optional leading sign, exactly as [`spec_parse_u8`] has it.
fn parse_u8_token(chars: &Vec<char>, start: usize, end: usize, radix: u8) -> (r: Option<u8>)
    requires
        start <= end <= chars@.len(),
        radix == 10 || radix == 16,
    ensures
        r == spec_parse_u8(chars@.subrange(start as int, end as int), radix as int),
{
    let ghost tok = chars@.subrange(start as int, end as int);
    if start == end {
        return None;
    }
    let first = chars[start];
    let has_sign = first == '+';
    let dstart = if has_sign {
        start + 1
    } else {
        start
    };
    let ghost d = chars@.subrange(dstart as int, end as int);
    proof {
        assert(spec_token_digits(tok) =~= d);
    }
    if dstart == end {
        return None;
    }
    let mut acc: u32 = 0;
    let mut i = dstart;
    while i < end
        invariant
            dstart <= i <= end,
            dstart < end,
            end <= chars@.len(),
            radix == 10 || radix == 16,
            tok == chars@.subrange(start as int, end as int),
            spec_token_digits(tok) == d,
            d == chars@.subrange(dstart as int, end as int),
            forall|j: int|
                0 <= j < i - dstart ==> 0 <= #[trigger] spec_digit_val(d[j]) < radix,
            acc == spec_digits_value(d.take(i - dstart), radix as int),
            acc <= 255,
        decreases end - i,
    {
        let c = chars[i];
        proof {
            assert(c == d[i - dstart]);
        }
        let dv: u8 = match digit_val(c) {
            Some(x) => x,
            None => {
                proof {
                    assert(spec_digit_val(d[i - dstart]) == -1);
                    assert(!spec_digits_valid(d, radix as int));
                    assert(spec_token_digits(tok) == d);
                    assert(spec_parse_u8(tok, radix as int) is None);
                }
                return None;
            },
        };
        if dv >= radix {
            proof {
                assert(spec_digit_val(d[i - dstart]) >= radix);
                assert(!spec_digits_valid(d, radix as int));
                assert(spec_token_digits(tok) == d);
                assert(spec_parse_u8(tok, radix as int) is None);
            }
            return None;
        }
        proof {
            let p = d.take(i - dstart + 1);
            assert(p.drop_last() =~= d.take(i - dstart));
            assert(p.last() == d[i - dstart]);
            assert(acc * (radix as u32) + (dv as u32) < 4096) by (nonlinear_arith)
                requires
                    acc <= 255,
                    radix <= 16,
                    dv < 16,
            ;
        }
        acc = acc * (radix as u32) + (dv as u32);
        i = i + 1;
        if acc > 255 {
            proof {
                if spec_digits_valid(d, radix as int) {
                    lemma_digits_value_monotone(d, i - dstart, radix as int);
                }
                assert(d.take(d.len() as int) =~= d);
            }
            return None;
        }
    }
    proof {
        assert(d.take(d.len() as int) =~= d);
    }
    Some(acc as u8)
}

/// The pieces of `s` between its colons, in order: one more piece than
/// there are colons, and a piece may be empty.
pub open spec fn spec_split_colons(s: Seq<char>) -> Seq<Seq<char>>
    decreases s.len(),
{
    if s.len() == 0 {
        seq![Seq::<char>::empty()]
    } else if s[0] == ':' {
        seq![Seq::<char>::empty()] + spec_split_colons(s.drop_first())
    } else {
        let rest = spec_split_colons(s.drop_first());
        seq![seq![s[0]] + rest[0]] + rest.drop_first()
    }
}

/// Splitting a string whose first colon stands at `k` yields the prefix
/// before `k` and then the pieces of what follows the colon.
proof fn lemma_split_at_first_colon(s: Seq<char>, k: int)
    requires
        0 <= k < s.len(),
        s[k] == ':',
        forall|j: int| 0 <= j < k ==> s[j] != ':',
    ensures
        spec_split_colons(s) == seq![s.take(k)] + spec_split_colons(s.skip(k + 1)),
    decreases k,
{
    if k == 0 {
        assert(s.take(0) =~= Seq::<char>::empty());
        assert(s.drop_first() =~= s.skip(1));
        assert(spec_split_colons(s) =~= seq![s.take(0)] + spec_split_colons(s.skip(1)));
    } else {
        let sd = s.drop_first();
        assert(s[0] != ':');
        assert forall|j: int| 0 <= j < k - 1 implies sd[j] != ':' by {
            assert(sd[j] == s[j + 1]);
        }
        lemma_split_at_first_colon(sd, k - 1);
        let rest = spec_split_colons(sd);
        assert(rest[0] == sd.take(k - 1));
        assert(seq![s[0]] + sd.take(k - 1) =~= s.take(k));
        assert(sd.skip(k) =~= s.skip(k + 1));
        assert(rest.drop_first() =~= spec_split_colons(s.skip(k + 1)));
        assert(spec_split_colons(s) =~= seq![s.take(k)] + spec_split_colons(s.skip(k + 1)));
    }
}

/// Splitting a string without a colon yields that string alone.
proof fn lemma_split_no_colon(s: Seq<char>)
    requires
        forall|j: int| 0 <= j < s.len() ==> s[j] != ':',
    ensures
        spec_split_colons(s) == seq![s],
    decreases s.len(),
{
    if s.len() == 0 {
        assert(Seq::<char>::empty() =~= s);
        assert(spec_split_colons(s) =~= seq![s]);
    } else {
        let sd = s.drop_first();
        assert forall|j: int| 0 <= j < sd.len() implies sd[j] != ':' by {
            assert(sd[j] == s[j + 1]);
        }
        lemma_split_no_colon(sd);
        let rest = spec_split_colons(sd);
        assert(seq![s[0]] + rest[0] =~= s);
        assert(rest.drop_first() =~= Seq::<Seq<char>>::empty());
        assert(spec_split_colons(s) =~= seq![s]);
    }
}

/// The six MAC octets a string denotes, if any: exactly six colon-separated
/// pieces, each a hexadecimal byte as [`spec_parse_u8`] has it.
pub open spec fn spec_parse_mac(s: Seq<char>) -> Option<Seq<u8>> {
    let pieces = spec_split_colons(s);
    if pieces.len() == 6 && (forall|i: int|
        0 <= i < 6 ==> (#[trigger] spec_parse_u8(pieces[i], 16)) is Some) {
        Some(Seq::new(6, |i: int| spec_parse_u8(pieces[i], 16)->0))
    } else {
        None
    }
}

/// The pieces of `s` cut out by a sequence of index ranges.
spec fn spec_bound_pieces(bounds: Seq<(usize, usize)>, s: Seq<char>) -> Seq<Seq<char>> {
    Seq::new(bounds.len(), |k: int| s.subrange(bounds[k].0 as int, bounds[k].1 as int))
}

/// Parses a MAC address string into a 6-byte array.
///
/// Accepts MAC addresses in the standard colon-separated format:
/// `aa:bb:cc:dd:ee:ff` where each octet is a hexadecimal byte, upper or
/// lower case. A string without exactly 6 octets, or with an octet that is
/// not a valid hexadecimal byte, is rejected, and the error says which of
/// the two happened.
pub fn parse_mac(mac: &str) -> (r: Result<[u8; 6], MacParseError>)
    ensures
        ({
            let pieces = spec_split_colons(mac@);
            match r {
                Ok(m) => spec_parse_mac(mac@) == Some(m@),
                Err(e) => spec_parse_mac(mac@) is None && match e {
                    MacParseError::WrongOctetCount { got } => pieces.len() != 6 && got
                        == pieces.len(),
                    MacParseError::InvalidOctet { index } => pieces.len() == 6 && index < 6
                        && spec_parse_u8(pieces[index as int], 16) is None && (forall|j: int|
                        0 <= j < index ==> (#[trigger] spec_parse_u8(pieces[j], 16)) is Some),
                },
            }
        }),
{
    let chars = collect_chars(mac);
    let n = chars.len();
    let mut bounds: Vec<(usize, usize)> = Vec::new();
    let mut piece_start: usize = 0;
    let mut i: usize = 0;
    proof {
        assert(mac@.skip(0) =~= mac@);
    }
    while i < n
        invariant
            piece_start <= i <= n,
            n == chars@.len(),
            chars@ == mac@,
            forall|j: int| piece_start <= j < i ==> mac@[j] != ':',
            forall|k: int|
                0 <= k < bounds@.len() ==> #[trigger] bounds@[k].0 <= bounds@[k].1 && bounds@[k].1
                    <= n,
            spec_split_colons(mac@) == spec_bound_pieces(bounds@, mac@) + spec_split_colons(
                mac@.skip(piece_start as int),
            ),
        decreases n - i,
    {
        if chars[i] == ':' {
            let ghost bs0 = bounds@;
            let ghost tail = spec_split_colons(mac@.skip(i + 1));
            proof {
                let sp = mac@.skip(piece_start as int);
                assert forall|j: int| 0 <= j < i - piece_start implies sp[j] != ':' by {
                    assert(sp[j] == mac@[piece_start + j]);
                }
                assert(sp[i - piece_start] == mac@[i as int]);
                lemma_split_at_first_colon(sp, i - piece_start);
                assert(sp.take(i - piece_start) =~= mac@.subrange(piece_start as int, i as int));
                assert(sp.skip(i - piece_start + 1) =~= mac@.skip(i + 1));
            }
            bounds.push((piece_start, i));
            proof {
                assert(spec_bound_pieces(bounds@, mac@) =~= spec_bound_pieces(bs0, mac@).push(
                    mac@.subrange(piece_start as int, i as int),
                ));
                assert(spec_bound_pieces(bs0, mac@) + (seq![
                    mac@.subrange(piece_start as int, i as int),
                ] + tail) =~= spec_bound_pieces(bounds@, mac@) + tail);
            }
            piece_start = i + 1;
        }
        i = i + 1;
    }
    let ghost bs0 = bounds@;
    proof {
        let sp = mac@.skip(piece_start as int);
        assert forall|j: int| 0 <= j < sp.len() implies sp[j] != ':' by {
            assert(sp[j] == mac@[piece_start + j]);
        }
        lemma_split_no_colon(sp);
        assert(sp =~= mac@.subrange(piece_start as int, n as int));
    }
    bounds.push((piece_start, n));
    proof {
        assert(spec_bound_pieces(bounds@, mac@) =~= spec_bound_pieces(bs0, mac@).push(
            mac@.subrange(piece_start as int, n as int),
        ));
        assert(spec_bound_pieces(bs0, mac@) + seq![
            mac@.subrange(piece_start as int, n as int),
        ] =~= spec_bound_pieces(bounds@, mac@));
        assert(spec_split_colons(mac@) == spec_bound_pieces(bounds@, mac@));
    }
    let ghost pieces = spec_split_colons(mac@);
    let count = bounds.len();
    if count != 6 {
        return Err(MacParseError::WrongOctetCount { got: count });
    }
    let mut vals: Vec<u8> = Vec::new();
    let mut k: usize = 0;
    while k < 6
        invariant
            k <= 6,
            n == chars@.len(),
            chars@ == mac@,
            vals@.len() == k,
            bounds@.len() == 6,
            forall|t: int|
                0 <= t < 6 ==> #[trigger] bounds@[t].0 <= bounds@[t].1 && bounds@[t].1 <= n,
            pieces == spec_split_colons(mac@),
            pieces == spec_bound_pieces(bounds@, mac@),
            forall|j: int|
                0 <= j < k ==> (#[trigger] spec_parse_u8(pieces[j], 16)) == Some(vals@[j]),
        decreases 6 - k,
    {
        let b = bounds[k];
        proof {
            assert(pieces[k as int] == mac@.subrange(b.0 as int, b.1 as int));
        }
        match parse_u8_token(&chars, b.0, b.1, 16) {
            Some(v) => {
                vals.push(v);
            },
            None => {
                return Err(MacParseError::InvalidOctet { index: k });
            },
        }
        k = k + 1;
    }
    let m: [u8; 6] = [vals[0], vals[1], vals[2], vals[3], vals[4], vals[5]];
    proof {
        assert(m@ =~= Seq::new(6, |i: int| spec_parse_u8(pieces[i], 16)->0));
    }
    Ok(m)
}

/// Parses a bitfield value from a string, supporting both decimal and
/// hexadecimal formats.
///
/// A string with a `0x` prefix is read as a hexadecimal byte, any other
/// string as a decimal byte; see [`spec_parse_u8`] for the exact grammar.
///
/// # Formats
///
/// - Decimal: `"4"`, `"255"`, `"0"`
/// - Hexadecimal: `"0x04"`, `"0xFF"`, `"0x00"`
pub fn parse_bitfield(s: &str) -> (r: Result<u8, BitfieldParseError>)
    ensures
        ({
            let hex = s@.len() >= 2 && s@[0] == '0' && s@[1] == 'x';
            let parsed = if hex {
                spec_parse_u8(s@.skip(2), 16)
            } else {
                spec_parse_u8(s@, 10)
            };
            match r {
                Ok(v) => parsed == Some(v),
                Err(e) => parsed is None && e == (if hex {
                    BitfieldParseError::InvalidHex
                } else {
                    BitfieldParseError::InvalidDecimal
                }),
            }
        }),
{
    let chars = collect_chars(s);
    let n = chars.len();
    if n >= 2 && chars[0] == '0' && chars[1] == 'x' {
        proof {
            assert(chars@.subrange(2, n as int) =~= s@.skip(2));
        }
        match parse_u8_token(&chars, 2, n, 16) {
            Some(v) => Ok(v),
            None => Err(BitfieldParseError::InvalidHex),
        }
    } else {
        proof {
            assert(chars@.subrange(0, n as int) =~= s@);
        }
        match parse_u8_token(&chars, 0, n, 10) {
            Some(v) => Ok(v),
            None => Err(BitfieldParseError::InvalidDecimal),
        }
    }
}

} // verus!
