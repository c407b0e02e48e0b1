//! Byte-string helpers shared by the codec and the command layer: equality,
//! ASCII case mapping, and decimal numerals on byte strings.
use vstd::prelude::*;

verus! {

/// Compare two byte strings for equality.
pub fn bytes_eq(a: &[u8], b: &[u8]) -> (r: bool)
    ensures
        r == (a@ == b@),
{
    if a.len() != b.len() {
        assert(a@.len() != b@.len());
        return false;
    }
    let mut i: usize = 0;
    while i < a.len()
        invariant
            0 <= i <= a.len(),
            a.len() == b.len(),
            forall|j: int| 0 <= j < i ==> a@[j] == b@[j],
        decreases a.len() - i,
    {
        if a[i] != b[i] {
            assert(a@[i as int] != b@[i as int]);
            return false;
        }
        i += 1;
    }
    assert(a@ =~= b@);
    true
}

/// The uppercase form of one ASCII byte; other bytes are unchanged.
pub open spec fn upper_byte(b: u8) -> u8 {
    if 0x61 <= b <= 0x7a {
        (b - 0x20) as u8
    } else {
        b
    }
}

/// A byte string mapped byte-for-byte through `upper_byte`.
pub open spec fn upper_bytes(s: Seq<u8>) -> Seq<u8> {
    s.map_values(|b: u8| upper_byte(b))
}

/// Uppercase an ASCII byte string, leaving non-letter bytes alone.
pub fn to_upper_ascii(s: &[u8]) -> (r: Vec<u8>)
    ensures
        r@ == upper_bytes(s@),
{
    let mut out: Vec<u8> = Vec::new();
    let mut i: usize = 0;
    while i < s.len()
        invariant
            0 <= i <= s.len(),
            out@ == upper_bytes(s@.take(i as int)),
        decreases s.len() - i,
    {
        let b = s[i];
        if 0x61 <= b && b <= 0x7a {
            out.push(b - 0x20);
        } else {
            out.push(b);
        }
        assert(s@.take(i + 1).drop_last() =~= s@.take(i as int));
        assert(upper_bytes(s@.take(i + 1)) =~= upper_bytes(s@.take(i as int)).push(
            upper_byte(s@[i as int]),
        ));
        i += 1;
    }
    assert(s@.take(s@.len() as int) =~= s@);
    out
}

/// The ASCII digit for one decimal value below ten.
pub open spec fn dec_digit(d: nat) -> u8
    recommends
        d < 10,
{
    (0x30 + d) as u8
}

/// The decimal numeral of a natural number, most significant digit first.
pub open spec fn dec_rep(n: nat) -> Seq<u8>
    decreases n,
{
    if n < 10 {
        seq![dec_digit(n)]
    } else {
        dec_rep(n / 10).push(dec_digit(n % 10))
    }
}

/// The decimal numeral of a signed number: a minus sign, then the magnitude.
pub open spec fn dec_rep_i64(i: int) -> Seq<u8> {
    if i < 0 {
        seq![0x2du8] + dec_rep((-i) as nat)
    } else {
        dec_rep(i as nat)
    }
}

/// Render an unsigned number as its decimal numeral.
pub fn u64_to_dec(n: u64) -> (r: Vec<u8>)
    ensures
        r@ == dec_rep(n as nat),
{
    let mut low: Vec<u8> = Vec::new();
    let mut m: u64 = n;
    while m >= 10
        invariant
            dec_rep(n as nat) == dec_rep(m as nat) + low@.reverse(),
        decreases m,
    {
        let d = (m % 10) as u8;
        low.push(0x30 + d);
        assert(low@.reverse() =~= seq![dec_digit((m % 10) as nat)] + low@.drop_last().reverse());
        assert(dec_rep((m / 10) as nat) + low@.reverse() =~= dec_rep(m as nat)
            + low@.drop_last().reverse());
        m = m / 10;
    }
    let mut out: Vec<u8> = Vec::new();
    out.push(0x30 + (m as u8));
    assert(out@ =~= dec_rep(m as nat));
    while low.len() > 0
        invariant
            dec_rep(n as nat) == out@ + low@.reverse(),
        decreases low.len(),
    {
        let ghost prev = low@;
        let d = low.pop().unwrap();
        assert(prev.reverse() =~= seq![d] + low@.reverse());
        out.push(d);
    }
    assert(low@.reverse() =~= Seq::<u8>::empty());
    assert(out@ =~= dec_rep(n as nat));
    out
}

/// Render a signed number as its decimal numeral.
pub fn i64_to_dec(i: i64) -> (r: Vec<u8>)
    ensures
        r@ == dec_rep_i64(i as int),
{
    if i >= 0 {
        u64_to_dec(i as u64)
    } else {
        let mag: u64 = if i == i64::MIN {
            9223372036854775808u64
        } else {
            (-i) as u64
        };
        let digits = u64_to_dec(mag);
        let mut out: Vec<u8> = Vec::new();
        out.push(0x2d);
        let mut j: usize = 0;
        while j < digits.len()
            invariant
                0 <= j <= digits.len(),
                out@ == seq![0x2du8] + digits@.take(j as int),
            decreases digits.len() - j,
        {
            out.push(digits[j]);
            assert(digits@.take(j + 1) =~= digits@.take(j as int).push(digits@[j as int]));
            j += 1;
        }
        assert(digits@.take(digits@.len() as int) =~= digits@);
        out
    }
}

/// Relies on std::time::SystemTime::now: the wall clock as milliseconds
/// since the epoch.  Nothing is promised of the value; callers state what
/// holds of every reading.
#[verifier::external_body]
pub fn now_millis() -> u64 {
    match std::time::SystemTime::now().duration_since(std::time::UNIX_EPOCH) {
        Ok(d) => d.as_millis() as u64,
        Err(_) => 0,
    }
}

/// True when every byte of `s` is an ASCII decimal digit and `s` is not empty.
pub open spec fn all_digits(s: Seq<u8>) -> bool {
    s.len() > 0 && forall|i: int| 0 <= i < s.len() ==> 0x30 <= #[trigger] s[i] <= 0x39
}

/// The value of a digit string, most significant digit first.
pub open spec fn dec_val(s: Seq<u8>) -> nat
    decreases s.len(),
{
    if s.len() == 0 {
        0
    } else {
        (dec_val(s.drop_last()) * 10 + (s.last() - 0x30)) as nat
    }
}

/// What an unsigned decimal parse of `s` yields: the value of the digit
/// string when it is one and fits, `None` otherwise.
pub open spec fn parse_u64_spec(s: Seq<u8>) -> Option<u64> {
    if all_digits(s) && dec_val(s) <= u64::MAX {
        Some(dec_val(s) as u64)
    } else {
        None
    }
}

/// What a signed decimal parse of `s` yields: an optional sign, then digits,
/// `None` when malformed or out of range.
pub open spec fn parse_i64_spec(s: Seq<u8>) -> Option<i64> {
    if s.len() > 0 && s[0] == 0x2du8 {
        if all_digits(s.skip(1)) && dec_val(s.skip(1)) <= 0x8000000000000000 {
            Some((-(dec_val(s.skip(1)) as int)) as i64)
        } else {
            None
        }
    } else if s.len() > 0 && s[0] == 0x2bu8 {
        if all_digits(s.skip(1)) && dec_val(s.skip(1)) <= i64::MAX {
            Some(dec_val(s.skip(1)) as i64)
        } else {
            None
        }
    } else {
        if all_digits(s) && dec_val(s) <= i64::MAX {
            Some(dec_val(s) as i64)
        } else {
            None
        }
    }
}

/// A longer digit string never has a smaller value.
proof fn lemma_dec_val_prefix(s: Seq<u8>, i: int)
    requires
        0 <= i <= s.len(),
        forall|j: int| 0 <= j < s.len() ==> 0x30 <= #[trigger] s[j] <= 0x39,
    ensures
        dec_val(s.take(i)) <= dec_val(s),
    decreases s.len() - i,
{
    if i < s.len() {
        lemma_dec_val_prefix(s, i + 1);
        assert(s.take(i + 1).drop_last() =~= s.take(i));
        assert(s.take(i + 1).last() == s[i]);
        assert(dec_val(s.take(i)) <= dec_val(s.take(i + 1))) by {
            assert(dec_val(s.take(i + 1)) == (dec_val(s.take(i)) * 10 + (s[i] - 0x30)) as nat);
            assert(dec_val(s.take(i)) * 10 >= dec_val(s.take(i))) by (nonlinear_arith);
        }
    } else {
        assert(s.take(i) =~= s);
    }
}

/// Parse an unbroken run of decimal digits; `None` on a malformed or
/// overlarge input, exactly as `parse_u64_spec` says.
pub fn parse_u64(s: &[u8]) -> (r: Option<u64>)
    ensures
        r == parse_u64_spec(s@),
{
    if s.len() == 0 {
        return None;
    }
    let mut acc: u128 = 0;
    let mut i: usize = 0;
    while i < s.len()
        invariant
            0 <= i <= s.len(),
            acc == dec_val(s@.take(i as int)),
            acc <= u64::MAX,
            forall|j: int| 0 <= j < i ==> 0x30 <= #[trigger] s@[j] <= 0x39,
        decreases s.len() - i,
    {
        let b = s[i];
        if b < 0x30 || b > 0x39 {
            assert(!all_digits(s@));
            return None;
        }
        assert(s@.take(i + 1).drop_last() =~= s@.take(i as int));
        acc = acc * 10 + (b - 0x30) as u128;
        i += 1;
        if acc > u64::MAX as u128 {
            proof {
                if all_digits(s@) {
                    lemma_dec_val_prefix(s@, i as int);
                    assert(dec_val(s@) > u64::MAX);
                }
            }
            return None;
        }
    }
    assert(s@.take(s@.len() as int) =~= s@);
    Some(acc as u64)
}

/// Parse a signed decimal numeral with an optional leading sign, exactly as
/// `parse_i64_spec` says.
pub fn parse_i64(s: &[u8]) -> (r: Option<i64>)
    ensures
        r == parse_i64_spec(s@),
{
    if s.len() > 0 && s[0] == 0x2d {
        let mut rest: Vec<u8> = Vec::new();
        let mut i: usize = 1;
        while i < s.len()
            invariant
                1 <= i <= s.len(),
                rest@ == s@.skip(1).take(i - 1),
            decreases s.len() - i,
        {
            rest.push(s[i]);
            assert(s@.skip(1).take(i as int) =~= s@.skip(1).take(i - 1).push(s@[i as int]));
            i += 1;
        }
        assert(rest@ =~= s@.skip(1));
        match parse_u64(rest.as_slice()) {
            Some(v) => {
                if v <= 9223372036854775808u64 {
                    if v == 9223372036854775808u64 {
                        Some(i64::MIN)
                    } else {
                        Some(-(v as i64))
                    }
                } else {
                    None
                }
            },
            None => None,
        }
    } else if s.len() > 0 && s[0] == 0x2b {
        let mut rest: Vec<u8> = Vec::new();
        let mut i: usize = 1;
        while i < s.len()
            invariant
                1 <= i <= s.len(),
                rest@ == s@.skip(1).take(i - 1),
            decreases s.len() - i,
        {
            rest.push(s[i]);
            assert(s@.skip(1).take(i as int) =~= s@.skip(1).take(i - 1).push(s@[i as int]));
            i += 1;
        }
        assert(rest@ =~= s@.skip(1));
        match parse_u64(rest.as_slice()) {
            Some(v) => if v <= i64::MAX as u64 {
                Some(v as i64)
            } else {
                None
            },
            None => None,
        }
    } else {
        match parse_u64(s) {
            Some(v) => if v <= i64::MAX as u64 {
                Some(v as i64)
            } else {
                None
            },
            None => None,
        }
    }
}

/// Every byte of a decimal numeral is a digit.
pub proof fn lemma_dec_rep_digits(n: nat)
    ensures
        all_digits(dec_rep(n)),
    decreases n,
{
    if n >= 10 {
        lemma_dec_rep_digits(n / 10);
    }
}

/// The value of the numeral of `n` is `n`.
proof fn lemma_dec_val_of_rep(n: nat)
    ensures
        dec_val(dec_rep(n)) == n,
    decreases n,
{
    if n < 10 {
        assert(dec_rep(n).drop_last() =~= Seq::<u8>::empty());
        assert(dec_rep(n).last() == dec_digit(n));
        assert(dec_val(dec_rep(n)) == (dec_val(Seq::<u8>::empty()) * 10 + (dec_digit(n)
            - 0x30)) as nat);
    } else {
        lemma_dec_val_of_rep(n / 10);
        assert(dec_rep(n).drop_last() =~= dec_rep(n / 10));
        assert(dec_rep(n).last() == dec_digit(n % 10));
        assert(dec_val(dec_rep(n)) == (dec_val(dec_rep(n / 10)) * 10 + (dec_digit(n % 10)
            - 0x30)) as nat);
        assert(n / 10 * 10 + n % 10 == n) by (nonlinear_arith);
    }
}

/// Round trip: the numeral of a signed number parses back to it.
pub proof fn lemma_i64_dec_round_trip(i: i64)
    ensures
        parse_i64_spec(dec_rep_i64(i as int)) == Some(i),
{
    if i >= 0 {
        lemma_dec_rep_digits(i as nat);
        lemma_dec_val_of_rep(i as nat);
        assert(dec_rep_i64(i as int)[0] != 0x2du8 && dec_rep_i64(i as int)[0] != 0x2bu8) by {
            lemma_dec_rep_digits(i as nat);
        }
    } else {
        let m = (-(i as int)) as nat;
        lemma_dec_rep_digits(m);
        lemma_dec_val_of_rep(m);
        assert(dec_rep_i64(i as int).skip(1) =~= dec_rep(m));
    }
}

} // verus!
