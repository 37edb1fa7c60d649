//! Transfer encodings used by the composer and the dispatcher:
//! quoted-printable for text bodies, base64 for binary attachments, and
//! percent-decoding for object keys.

use vstd::prelude::*;

use crate::text::{byte_is_digit, digit_val, is_digit};

verus! {

/// Upper-case hexadecimal digit for `n`'s low nibble.
pub open spec fn hex_digit(n: nat) -> u8 {
    if n % 16 < 10 {
        (48 + n % 16) as u8
    } else {
        (55 + n % 16) as u8
    }
}

/// A byte quoted-printable may always carry literally: printable ASCII
/// except `=`, and the line-structure bytes CR and LF.
pub open spec fn qp_literal(b: u8) -> bool {
    (33 <= b <= 126 && b != 61) || b == 13 || b == 10
}

/// The three-byte `=XX` escape for one byte.
pub open spec fn qp_escape(b: u8) -> Seq<u8> {
    seq![61u8, hex_digit((b / 16) as nat), hex_digit(b as nat)]
}

/// Quoted-printable encoding.  Printable bytes pass through; a space or
/// tab passes through unless it would end a line (or the input), where it
/// must be escaped; everything else becomes `=XX`.
pub open spec fn qp_encode_spec(s: Seq<u8>) -> Seq<u8>
    decreases s.len(),
{
    if s.len() == 0 {
        Seq::empty()
    } else {
        let b = s[0];
        let rest = qp_encode_spec(s.drop_first());
        if qp_literal(b) {
            seq![b] + rest
        } else if (b == 32 || b == 9) && s.len() > 1 && s[1] != 13 && s[1] != 10 {
            seq![b] + rest
        } else {
            qp_escape(b) + rest
        }
    }
}

/// Executable upper-case hex digit of a nibble.
fn hex_digit_exec(n: u8) -> (r: u8)
    requires
        n < 16,
    ensures
        r == hex_digit(n as nat),
{
    if n < 10 {
        48 + n
    } else {
        55 + n
    }
}

/// Quoted-printable encode a byte string.
pub fn qp_encode(s: &Vec<u8>) -> (r: Vec<u8>)
    ensures
        r@ == qp_encode_spec(s@),
{
    let mut out: Vec<u8> = Vec::new();
    let mut i: usize = 0;
    proof {
        assert(s@.skip(0) =~= s@);
    }
    while i < s.len()
        invariant
            i <= s@.len(),
            qp_encode_spec(s@) == out@ + qp_encode_spec(s@.skip(i as int)),
        decreases s@.len() - i,
    {
        let b = s[i];
        proof {
            let suf = s@.skip(i as int);
            assert(suf[0] == s@[i as int]);
            if suf.len() > 1 {
                assert(suf[1] == s@[i as int + 1]);
            }
            assert(suf.drop_first() =~= s@.skip(i as int + 1));
        }
        let literal = if 33 <= b && b <= 126 && b != 61 || b == 13 || b == 10 {
            true
        } else if (b == 32 || b == 9) && i + 1 < s.len() {
            let nx = s[i + 1];
            nx != 13 && nx != 10
        } else {
            false
        };
        if literal {
            out.push(b);
        } else {
            out.push(61);
            out.push(hex_digit_exec(b / 16));
            out.push(hex_digit_exec(b % 16));
        }
        proof {
            assert(qp_encode_spec(s@) == out@ + qp_encode_spec(s@.skip(i as int + 1)));
        }
        i = i + 1;
    }
    proof {
        assert(s@.skip(s@.len() as int) =~= Seq::<u8>::empty());
    }
    out
}

/// The base64 alphabet character for a six-bit value.
pub open spec fn b64_char(n: nat) -> u8 {
    let m = n % 64;
    if m < 26 {
        (65 + m) as u8
    } else if m < 52 {
        (97 + (m - 26)) as u8
    } else if m < 62 {
        (48 + (m - 52)) as u8
    } else if m == 62 {
        43u8
    } else {
        47u8
    }
}

/// Standard base64 with `=` padding and no line breaks.
pub open spec fn base64_spec(s: Seq<u8>) -> Seq<u8>
    decreases s.len(),
{
    if s.len() == 0 {
        Seq::empty()
    } else if s.len() == 1 {
        let b0 = s[0];
        seq![b64_char((b0 / 4) as nat), b64_char(((b0 % 4) * 16) as nat), 61u8, 61u8]
    } else if s.len() == 2 {
        let b0 = s[0];
        let b1 = s[1];
        seq![
            b64_char((b0 / 4) as nat),
            b64_char(((b0 % 4) * 16 + b1 / 16) as nat),
            b64_char(((b1 % 16) * 4) as nat),
            61u8,
        ]
    } else {
        let b0 = s[0];
        let b1 = s[1];
        let b2 = s[2];
        seq![
            b64_char((b0 / 4) as nat),
            b64_char(((b0 % 4) * 16 + b1 / 16) as nat),
            b64_char(((b1 % 16) * 4 + b2 / 64) as nat),
            b64_char((b2 % 64) as nat),
        ] + base64_spec(s.skip(3))
    }
}

/// Executable base64 alphabet lookup.
fn b64_char_exec(n: u8) -> (r: u8)
    requires
        n < 64,
    ensures
        r == b64_char(n as nat),
{
    if n < 26 {
        65 + n
    } else if n < 52 {
        97 + (n - 26)
    } else if n < 62 {
        48 + (n - 52)
    } else if n == 62 {
        43
    } else {
        47
    }
}

/// Base64-encode a byte string.
pub fn base64_encode(s: &Vec<u8>) -> (r: Vec<u8>)
    ensures
        r@ == base64_spec(s@),
{
    let mut out: Vec<u8> = Vec::new();
    let mut i: usize = 0;
    proof {
        assert(s@.skip(0) =~= s@);
    }
    while i < s.len() && s.len() - i >= 3
        invariant
            i <= s@.len(),
            base64_spec(s@) == out@ + base64_spec(s@.skip(i as int)),
        decreases s@.len() - i,
    {
        let b0 = s[i];
        let b1 = s[i + 1];
        let b2 = s[i + 2];
        proof {
            let suf = s@.skip(i as int);
            assert(suf[0] == s@[i as int]);
            assert(suf[1] == s@[i as int + 1]);
            assert(suf[2] == s@[i as int + 2]);
            assert(suf.skip(3) =~= s@.skip(i as int + 3));
        }
        out.push(b64_char_exec(b0 / 4));
        out.push(b64_char_exec((b0 % 4) * 16 + b1 / 16));
        out.push(b64_char_exec((b1 % 16) * 4 + b2 / 64));
        out.push(b64_char_exec(b2 % 64));
        proof {
            assert(base64_spec(s@) == out@ + base64_spec(s@.skip(i as int + 3)));
        }
        i = i + 3;
    }
    let rem = s.len() - i;
    proof {
        let suf = s@.skip(i as int);
        assert(suf.len() == rem);
        if rem >= 1 {
            assert(suf[0] == s@[i as int]);
        }
        if rem >= 2 {
            assert(suf[1] == s@[i as int + 1]);
        }
    }
    if rem == 1 {
        let b0 = s[i];
        out.push(b64_char_exec(b0 / 4));
        out.push(b64_char_exec((b0 % 4) * 16));
        out.push(61);
        out.push(61);
    } else if rem == 2 {
        let b0 = s[i];
        let b1 = s[i + 1];
        out.push(b64_char_exec(b0 / 4));
        out.push(b64_char_exec((b0 % 4) * 16 + b1 / 16));
        out.push(b64_char_exec((b1 % 16) * 4));
        out.push(61);
    }
    proof {
        assert(base64_spec(s@) =~= out@);
    }
    out
}

/// Hexadecimal digit in either case.
pub open spec fn is_hex(b: u8) -> bool {
    is_digit(b) || (65 <= b <= 70) || (97 <= b <= 102)
}

/// Value of a hexadecimal digit byte.
pub open spec fn hex_val(b: u8) -> nat
    recommends
        is_hex(b),
{
    if is_digit(b) {
        digit_val(b)
    } else if 65 <= b <= 70 {
        (b - 55) as nat
    } else {
        (b - 87) as nat
    }
}

/// Percent-decoding: `%` followed by two hex digits becomes one byte;
/// anything else, a stray `%` included, passes through unchanged.
pub open spec fn pct_decode_spec(s: Seq<u8>) -> Seq<u8>
    decreases s.len(),
{
    if s.len() == 0 {
        Seq::empty()
    } else if s[0] == 37 && s.len() >= 3 && is_hex(s[1]) && is_hex(s[2]) {
        seq![(hex_val(s[1]) * 16 + hex_val(s[2])) as u8] + pct_decode_spec(s.skip(3))
    } else {
        seq![s[0]] + pct_decode_spec(s.drop_first())
    }
}

/// Executable hex-digit test.
fn byte_is_hex(b: u8) -> (r: bool)
    ensures
        r == is_hex(b),
{
    byte_is_digit(b) || (65 <= b && b <= 70) || (97 <= b && b <= 102)
}

/// Executable hex-digit value.
fn hex_val_exec(b: u8) -> (r: u8)
    requires
        is_hex(b),
    ensures
        r == hex_val(b),
        r < 16,
{
    if 48 <= b && b <= 57 {
        b - 48
    } else if 65 <= b && b <= 70 {
        b - 55
    } else {
        b - 87
    }
}

/// Percent-decode a byte string.
pub fn pct_decode(s: &Vec<u8>) -> (r: Vec<u8>)
    ensures
        r@ == pct_decode_spec(s@),
{
    let mut out: Vec<u8> = Vec::new();
    let mut i: usize = 0;
    proof {
        assert(s@.skip(0) =~= s@);
    }
    while i < s.len()
        invariant
            i <= s@.len(),
            pct_decode_spec(s@) == out@ + pct_decode_spec(s@.skip(i as int)),
        decreases s@.len() - i,
    {
        let b = s[i];
        proof {
            let suf = s@.skip(i as int);
            assert(suf[0] == s@[i as int]);
            if suf.len() >= 3 {
                assert(suf[1] == s@[i as int + 1]);
                assert(suf[2] == s@[i as int + 2]);
                assert(suf.skip(3) =~= s@.skip(i as int + 3));
            }
            assert(suf.drop_first() =~= s@.skip(i as int + 1));
        }
        if b == 37 && s.len() - i > 2 && byte_is_hex(s[i + 1]) && byte_is_hex(s[i + 2]) {
            let v = hex_val_exec(s[i + 1]) * 16 + hex_val_exec(s[i + 2]);
            out.push(v);
            proof {
                assert(pct_decode_spec(s@) == out@ + pct_decode_spec(s@.skip(i as int + 3)));
            }
            i = i + 3;
        } else {
            out.push(b);
            proof {
                assert(pct_decode_spec(s@) == out@ + pct_decode_spec(s@.skip(i as int + 1)));
            }
            i = i + 1;
        }
    }
    proof {
        assert(s@.skip(s@.len() as int) =~= Seq::<u8>::empty());
    }
    out
}

} // verus!
