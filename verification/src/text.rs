//! Byte-level text primitives shared by the record codec and the message
//! composer: ASCII character classes, whitespace trimming, splitting on a
//! separator byte, and decimal numerals.

use vstd::prelude::*;

verus! {

/// ASCII whitespace: space, tab, line feed, carriage return, vertical tab,
/// form feed.
pub open spec fn is_space(b: u8) -> bool {
    b == 32 || b == 9 || b == 10 || b == 13 || b == 11 || b == 12
}

/// ASCII decimal digit.
pub open spec fn is_digit(b: u8) -> bool {
    48 <= b <= 57
}

/// Numeric value of an ASCII decimal digit.
pub open spec fn digit_val(b: u8) -> nat
    recommends
        is_digit(b),
{
    (b - 48) as nat
}

/// The ASCII digit for `n`'s last decimal digit.
pub open spec fn digit_byte(n: nat) -> u8 {
    (48 + n % 10) as u8
}

/// Executable whitespace test, equal to the spec-level one.
pub fn byte_is_space(b: u8) -> (r: bool)
    ensures
        r == is_space(b),
{
    b == 32 || b == 9 || b == 10 || b == 13 || b == 11 || b == 12
}

/// Executable digit test, equal to the spec-level one.
pub fn byte_is_digit(b: u8) -> (r: bool)
    ensures
        r == is_digit(b),
{
    48 <= b && b <= 57
}

/// `s` with leading ASCII whitespace removed.
pub open spec fn trim_front(s: Seq<u8>) -> Seq<u8>
    decreases s.len(),
{
    if s.len() > 0 && is_space(s[0]) {
        trim_front(s.drop_first())
    } else {
        s
    }
}

/// `s` with trailing ASCII whitespace removed.
pub open spec fn trim_back(s: Seq<u8>) -> Seq<u8>
    decreases s.len(),
{
    if s.len() > 0 && is_space(s.last()) {
        trim_back(s.drop_last())
    } else {
        s
    }
}

/// `s` with both leading and trailing ASCII whitespace removed.
pub open spec fn trim(s: Seq<u8>) -> Seq<u8> {
    trim_back(trim_front(s))
}

/// Trimming the front does nothing when the first byte is not whitespace.
pub proof fn lemma_trim_front_id(s: Seq<u8>)
    requires
        s.len() == 0 || !is_space(s[0]),
    ensures
        trim_front(s) == s,
{
}

/// Trimming the back does nothing when the last byte is not whitespace.
pub proof fn lemma_trim_back_id(s: Seq<u8>)
    requires
        s.len() == 0 || !is_space(s.last()),
    ensures
        trim_back(s) == s,
{
}

/// A single trailing whitespace byte is removed by `trim_back`.
pub proof fn lemma_trim_back_drop(s: Seq<u8>, b: u8)
    requires
        is_space(b),
    ensures
        trim_back(s.push(b)) == trim_back(s),
{
    assert(s.push(b).last() == b);
    assert(s.push(b).drop_last() =~= s);
}

/// Copy of `s[a..b]` as a fresh vector.
pub fn sub_vec(s: &[u8], a: usize, b: usize) -> (r: Vec<u8>)
    requires
        a <= b <= s@.len(),
    ensures
        r@ == s@.subrange(a as int, b as int),
{
    let sub = vstd::slice::slice_subrange(s, a, b);
    vstd::slice::slice_to_vec(sub)
}

/// Strip leading and trailing ASCII whitespace.
pub fn trim_bytes(s: &[u8]) -> (r: Vec<u8>)
    ensures
        r@ == trim(s@),
{
    proof {
        assert(s@.skip(0) =~= s@);
    }
    let mut lo: usize = 0;
    while lo < s.len() && byte_is_space(s[lo])
        invariant
            lo <= s@.len(),
            trim_front(s@) == trim_front(s@.skip(lo as int)),
        decreases s@.len() - lo,
    {
        proof {
            assert(s@.skip(lo as int)[0] == s@[lo as int]);
            assert(s@.skip(lo as int).drop_first() =~= s@.skip(lo as int + 1));
        }
        lo = lo + 1;
    }
    proof {
        if lo < s@.len() {
            lemma_trim_front_id(s@.skip(lo as int));
        }
        assert(trim_front(s@) == s@.skip(lo as int));
    }
    let mut hi: usize = s.len();
    while hi > lo && byte_is_space(s[hi - 1])
        invariant
            lo <= hi <= s@.len(),
            trim_front(s@) == s@.skip(lo as int),
            trim_back(s@.skip(lo as int)) == trim_back(s@.subrange(lo as int, hi as int)),
        decreases hi,
    {
        proof {
            let cur = s@.subrange(lo as int, hi as int);
            assert(cur.last() == s@[hi - 1]);
            assert(cur.drop_last() =~= s@.subrange(lo as int, hi as int - 1));
        }
        hi = hi - 1;
    }
    proof {
        let cur = s@.subrange(lo as int, hi as int);
        if hi > lo {
            assert(cur.last() == s@[hi - 1]);
            lemma_trim_back_id(cur);
        } else {
            assert(cur.len() == 0);
            lemma_trim_back_id(cur);
        }
        assert(trim(s@) == s@.subrange(lo as int, hi as int));
    }
    sub_vec(s, lo, hi)
}

/// Split `s` on the separator byte `sep`.  The result always holds at least
/// one (possibly empty) field; the separator itself appears in none of them.
pub open spec fn split_on(s: Seq<u8>, sep: u8) -> Seq<Seq<u8>>
    decreases s.len(),
{
    if s.len() == 0 {
        seq![Seq::<u8>::empty()]
    } else {
        let rest = split_on(s.drop_first(), sep);
        if s[0] == sep {
            seq![Seq::<u8>::empty()] + rest
        } else {
            seq![seq![s[0]] + rest[0]] + rest.drop_first()
        }
    }
}

/// Splitting yields at least one field.
pub proof fn lemma_split_on_len(s: Seq<u8>, sep: u8)
    ensures
        split_on(s, sep).len() >= 1,
    decreases s.len(),
{
    if s.len() > 0 {
        lemma_split_on_len(s.drop_first(), sep);
    }
}

/// If the first `m` bytes of `s` are free of the separator and position `m`
/// is either the end of `s` or a separator, then the first field of the
/// split is exactly those `m` bytes.
pub proof fn lemma_split_on_first_field(s: Seq<u8>, sep: u8, m: int)
    requires
        0 <= m <= s.len(),
        forall|k: int| 0 <= k < m ==> s[k] != sep,
        m == s.len() || s[m] == sep,
    ensures
        m == s.len() ==> split_on(s, sep) == seq![s],
        m < s.len() ==> split_on(s, sep) == seq![s.take(m)] + split_on(s.skip(m + 1), sep),
    decreases m,
{
    lemma_split_on_len(s, sep);
    if m == 0 {
        if s.len() == 0 {
            assert(seq![Seq::<u8>::empty()] =~~= seq![s]);
        } else {
            assert(s[0] == sep);
            assert(s.take(0) =~= Seq::<u8>::empty());
            assert(s.skip(1) =~= s.drop_first());
            assert(split_on(s, sep) =~= seq![s.take(0)] + split_on(s.skip(1), sep));
        }
    } else {
        assert(s[0] != sep);
        let tail = s.drop_first();
        lemma_split_on_len(tail, sep);
        lemma_split_on_first_field(tail, sep, m - 1);
        let rest = split_on(tail, sep);
        if m == s.len() {
            assert(rest == seq![tail]);
            assert(seq![s[0]] + tail =~= s);
            assert(split_on(s, sep) =~= seq![s]);
        } else {
            assert(tail[m - 1] == s[m]);
            assert(rest == seq![tail.take(m - 1)] + split_on(tail.skip(m), sep));
            assert(rest[0] == tail.take(m - 1));
            assert(seq![s[0]] + tail.take(m - 1) =~= s.take(m));
            assert(rest.drop_first() =~= split_on(tail.skip(m), sep));
            assert(tail.skip(m) =~= s.skip(m + 1));
            assert(split_on(s, sep) =~= seq![s.take(m)] + split_on(s.skip(m + 1), sep));
        }
    }
}

/// The views of a sequence of byte vectors.
pub open spec fn seq_views(v: Seq<Vec<u8>>) -> Seq<Seq<u8>> {
    Seq::new(v.len(), |i: int| v[i]@)
}

/// Split a byte vector on a separator byte.
pub fn split_bytes(s: &Vec<u8>, sep: u8) -> (r: Vec<Vec<u8>>)
    ensures
        seq_views(r@) == split_on(s@, sep),
{
    let mut out: Vec<Vec<u8>> = Vec::new();
    let mut start: usize = 0;
    let mut i: usize = 0;
    proof {
        assert(s@.skip(0) =~= s@);
        assert(seq_views(out@) =~= Seq::<Seq<u8>>::empty());
    }
    while i < s.len()
        invariant
            start <= i <= s@.len(),
            forall|k: int| start <= k < i ==> s@[k] != sep,
            split_on(s@, sep) == seq_views(out@) + split_on(s@.skip(start as int), sep),
        decreases s@.len() - i,
    {
        if s[i] == sep {
            let field = sub_vec(s.as_slice(), start, i);
            proof {
                let suffix = s@.skip(start as int);
                let m = i - start;
                assert forall|k: int| 0 <= k < m implies suffix[k] != sep by {
                    assert(suffix[k] == s@[start + k]);
                }
                assert(suffix[m] == s@[i as int]);
                lemma_split_on_first_field(suffix, sep, m);
                assert(suffix.take(m) =~= s@.subrange(start as int, i as int));
                assert(suffix.skip(m + 1) =~= s@.skip(i as int + 1));
                assert(seq_views(out@.push(field)) =~= seq_views(out@) + seq![field@]);
                assert(seq_views(out@) + (seq![suffix.take(m)] + split_on(
                    s@.skip(i as int + 1),
                    sep,
                )) =~= (seq_views(out@) + seq![field@]) + split_on(s@.skip(i as int + 1), sep));
            }
            out.push(field);
            start = i + 1;
        }
        i = i + 1;
    }
    let field = sub_vec(s.as_slice(), start, s.len());
    proof {
        let suffix = s@.skip(start as int);
        let m = s@.len() - start;
        assert forall|k: int| 0 <= k < m implies suffix[k] != sep by {
            assert(suffix[k] == s@[start + k]);
        }
        lemma_split_on_first_field(suffix, sep, m);
        assert(suffix.take(m) =~= suffix);
        assert(field@ == suffix);
        assert(seq_views(out@.push(field)) =~= seq_views(out@) + seq![field@]);
        assert(seq_views(out@) + seq![suffix] =~= seq_views(out@) + split_on(suffix, sep));
    }
    out.push(field);
    out
}

/// Decimal numeral of `n`, most significant digit first, no leading zeros
/// (a single `0` for zero).
pub open spec fn dec_bytes(n: nat) -> Seq<u8>
    decreases n,
{
    if n < 10 {
        seq![digit_byte(n)]
    } else {
        dec_bytes(n / 10).push(digit_byte(n))
    }
}

/// Value of a digit string read as a decimal numeral.
pub open spec fn dec_val(s: Seq<u8>) -> nat
    decreases s.len(),
{
    if s.len() == 0 {
        0
    } else {
        dec_val(s.drop_last()) * 10 + digit_val(s.last())
    }
}

/// Every byte of `s` is an ASCII digit.
pub open spec fn all_digits(s: Seq<u8>) -> bool {
    forall|i: int| 0 <= i < s.len() ==> is_digit(#[trigger] s[i])
}

/// A rendered numeral consists of digits and is never empty.
pub proof fn lemma_dec_bytes_digits(n: nat)
    ensures
        dec_bytes(n).len() >= 1,
        all_digits(dec_bytes(n)),
    decreases n,
{
    if n >= 10 {
        lemma_dec_bytes_digits(n / 10);
        assert forall|i: int| 0 <= i < dec_bytes(n).len() implies is_digit(
            #[trigger] dec_bytes(n)[i],
        ) by {
            if i < dec_bytes(n / 10).len() {
                assert(dec_bytes(n)[i] == dec_bytes(n / 10)[i]);
            }
        }
    }
}

/// Reading back a rendered numeral gives the number.
pub proof fn lemma_dec_val_dec_bytes(n: nat)
    ensures
        dec_val(dec_bytes(n)) == n,
    decreases n,
{
    assert(n % 10 < 10);
    assert(digit_val(digit_byte(n)) == n % 10);
    if n < 10 {
        let s = seq![digit_byte(n)];
        assert(s.drop_last() =~= Seq::<u8>::empty());
        assert(s.last() == digit_byte(n));
        assert(dec_val(s.drop_last()) == 0);
        assert(dec_val(s) == dec_val(s.drop_last()) * 10 + digit_val(s.last()));
    } else {
        lemma_dec_val_dec_bytes(n / 10);
        assert(dec_bytes(n).drop_last() =~= dec_bytes(n / 10));
        assert(dec_bytes(n).last() == digit_byte(n));
    }
}

/// The value of a prefix never exceeds the value of the whole digit string.
pub proof fn lemma_dec_val_prefix_le(s: Seq<u8>, i: int)
    requires
        0 <= i <= s.len(),
    ensures
        dec_val(s.take(i)) <= dec_val(s),
    decreases s.len(),
{
    if i < s.len() {
        assert(s.drop_last().take(i) =~= s.take(i));
        lemma_dec_val_prefix_le(s.drop_last(), i);
    } else {
        assert(s.take(i) =~= s);
    }
}

/// Whether a byte string is a well-formed numeral for a `u32`: non-empty,
/// digits only, value within range.  Leading zeros are accepted.
pub open spec fn parse_u32_spec(s: Seq<u8>) -> Option<u32> {
    if s.len() >= 1 && all_digits(s) && dec_val(s) <= u32::MAX {
        Some(dec_val(s) as u32)
    } else {
        None
    }
}

/// Render a `u32` as its decimal numeral.
pub fn render_u32(n: u32) -> (r: Vec<u8>)
    ensures
        r@ == dec_bytes(n as nat),
    decreases n,
{
    if n < 10 {
        let mut v: Vec<u8> = Vec::new();
        v.push(48 + n as u8);
        proof {
            assert(v@ =~= seq![digit_byte(n as nat)]);
        }
        v
    } else {
        let mut v = render_u32(n / 10);
        v.push(48 + (n % 10) as u8);
        proof {
            assert(v@ =~= dec_bytes((n / 10) as nat).push(digit_byte(n as nat)));
            assert((n as nat) / 10 == (n / 10) as nat);
        }
        v
    }
}

/// Render a `usize` as its decimal numeral.
pub fn render_usize(n: usize) -> (r: Vec<u8>)
    ensures
        r@ == dec_bytes(n as nat),
    decreases n,
{
    if n < 10 {
        let mut v: Vec<u8> = Vec::new();
        v.push(48 + n as u8);
        proof {
            assert(v@ =~= seq![digit_byte(n as nat)]);
        }
        v
    } else {
        let mut v = render_usize(n / 10);
        v.push(48 + (n % 10) as u8);
        proof {
            assert(v@ =~= dec_bytes((n / 10) as nat).push(digit_byte(n as nat)));
            assert((n as nat) / 10 == (n / 10) as nat);
        }
        v
    }
}

/// Parse a decimal numeral as a `u32`; `None` on an empty string, a
/// non-digit byte, or overflow.
pub fn parse_u32_bytes(s: &Vec<u8>) -> (r: Option<u32>)
    ensures
        r == parse_u32_spec(s@),
{
    if s.len() == 0 {
        return None;
    }
    let mut acc: u64 = 0;
    let mut i: usize = 0;
    while i < s.len()
        invariant
            0 < s@.len(),
            i <= s@.len(),
            forall|k: int| 0 <= k < i ==> is_digit(#[trigger] s@[k]),
            acc == dec_val(s@.take(i as int)),
            acc <= u32::MAX,
        decreases s@.len() - i,
    {
        let b = s[i];
        if !byte_is_digit(b) {
            proof {
                assert(!all_digits(s@));
            }
            return None;
        }
        let d = (b - 48) as u64;
        let next: u64 = acc * 10 + d;
        proof {
            assert(s@.take(i as int + 1).drop_last() =~= s@.take(i as int));
            assert(s@.take(i as int + 1).last() == s@[i as int]);
            assert(next == dec_val(s@.take(i as int + 1)));
        }
        if next > 0xffff_ffff {
            proof {
                lemma_dec_val_prefix_le(s@, i as int + 1);
            }
            return None;
        }
        acc = next;
        i = i + 1;
    }
    proof {
        assert(s@.take(s@.len() as int) =~= s@);
    }
    Some(acc as u32)
}

/// Append the UTF-8 bytes of a string to a byte buffer.
pub fn push_str_bytes(out: &mut Vec<u8>, s: &str)
    ensures
        final(out)@ == old(out)@ + vstd::utf8::encode_utf8(s@),
{
    let mut v = vstd::slice::slice_to_vec(s.as_bytes());
    out.append(&mut v);
}

/// Byte-for-byte equality of a vector and a slice.
pub fn bytes_eq(a: &Vec<u8>, b: &[u8]) -> (r: bool)
    ensures
        r == (a@ == b@),
{
    if a.len() != b.len() {
        proof {
            assert(a@ != b@);
        }
        return false;
    }
    let mut i: usize = 0;
    while i < a.len()
        invariant
            i <= a@.len(),
            a@.len() == b@.len(),
            forall|k: int| 0 <= k < i ==> a@[k] == b@[k],
        decreases a@.len() - i,
    {
        if a[i] != b[i] {
            return false;
        }
        i = i + 1;
    }
    proof {
        assert(a@ =~= b@);
    }
    true
}

} // verus!
