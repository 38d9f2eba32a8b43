//! Numbers as decimal text, and text from bytes.

use vstd::prelude::*;
use vstd::string::StringExecFns;
use vstd::utf8::{decode_utf8, encode_utf8, is_ascii_chars, is_ascii_chars_encode_utf8, valid_utf8};

verus! {

/// The character of the digit `d`.
pub open spec fn digit(d: int) -> char {
    if d == 0 {
        '0'
    } else if d == 1 {
        '1'
    } else if d == 2 {
        '2'
    } else if d == 3 {
        '3'
    } else if d == 4 {
        '4'
    } else if d == 5 {
        '5'
    } else if d == 6 {
        '6'
    } else if d == 7 {
        '7'
    } else if d == 8 {
        '8'
    } else {
        '9'
    }
}

/// The decimal digits of `n`, without leading zeros.
pub open spec fn decimal_nat(n: nat) -> Seq<char>
    decreases n,
{
    if n < 10 {
        seq![digit(n as int)]
    } else {
        decimal_nat(n / 10).push(digit((n % 10) as int))
    }
}

/// `v` in decimal, with a minus sign where it is negative.
pub open spec fn decimal(v: int) -> Seq<char> {
    if v < 0 {
        seq!['-'] + decimal_nat((-v) as nat)
    } else {
        decimal_nat(v as nat)
    }
}

/// `n` in decimal with at least two digits.
pub open spec fn decimal_two(n: nat) -> Seq<char> {
    if n < 10 {
        seq!['0'] + decimal_nat(n)
    } else {
        decimal_nat(n)
    }
}

/// `n` in decimal with at least three digits.
pub open spec fn decimal_three(n: nat) -> Seq<char> {
    if n < 10 {
        seq!['0', '0'] + decimal_nat(n)
    } else if n < 100 {
        seq!['0'] + decimal_nat(n)
    } else {
        decimal_nat(n)
    }
}

/// `v` in decimal.
/// Trusted: `itoa::Buffer::format` returns the decimal digits of a signed
/// 64-bit integer without leading zeros, after a minus sign where it is
/// negative.
#[verifier::external_body]
pub(crate) fn decimal_string(v: i64) -> (s: String)
    ensures
        s@ == decimal(v as int),
{
    itoa::Buffer::new().format(v).to_owned()
}

/// The text that `bytes` encode in UTF-8.
/// Trusted: `String::from_utf8` succeeds exactly on valid UTF-8 and then holds
/// the text that the bytes encode.
#[verifier::external_body]
pub(crate) fn string_from_utf8(bytes: Vec<u8>) -> (r: Option<String>)
    ensures
        r is Some <==> valid_utf8(bytes@),
        r matches Some(s) ==> s@ == decode_utf8(bytes@),
{
    String::from_utf8(bytes).ok()
}

/// Whether two texts are the same.
/// Trusted: `==` on `str` compares the two texts character by character.
#[verifier::external_body]
pub(crate) fn same_text(a: &str, b: &str) -> (r: bool)
    ensures
        r == (a@ == b@),
{
    a == b
}

/// Appends `v` in decimal to `out`.
pub fn push_decimal(out: &mut String, v: i64)
    ensures
        final(out)@ == old(out)@ + decimal(v as int),
{
    let digits: String = decimal_string(v);
    out.append(digits.as_str());
}

/// Appends `n` in decimal, with at least two digits, to `out`.
pub fn push_decimal_two(out: &mut String, n: u64)
    requires
        n <= i64::MAX,
    ensures
        final(out)@ == old(out)@ + decimal_two(n as nat),
{
    if n < 10 {
        proof {
            reveal_strlit("0");
        }
        out.append("0");
        assert("0"@ =~= seq!['0']);
    }
    push_decimal(out, n as i64);
    proof {
        assert(out@ =~= old(out)@ + decimal_two(n as nat));
    }
}

/// Appends `n` in decimal, with at least three digits, to `out`.
pub fn push_decimal_three(out: &mut String, n: u64)
    requires
        n <= i64::MAX,
    ensures
        final(out)@ == old(out)@ + decimal_three(n as nat),
{
    proof {
        reveal_strlit("0");
        assert("0"@ =~= seq!['0']);
    }
    if n < 100 {
        out.append("0");
    }
    if n < 10 {
        out.append("0");
    }
    push_decimal(out, n as i64);
    proof {
        assert(out@ =~= old(out)@ + decimal_three(n as nat));
    }
}

/// Appends `n` in decimal to `out`.
pub fn push_decimal_nat(out: &mut String, n: u64)
    ensures
        final(out)@ == old(out)@ + decimal_nat(n as nat),
{
    if n < 10 {
        push_decimal(out, n as i64);
    } else {
        push_decimal(out, (n / 10) as i64);
        push_decimal(out, (n % 10) as i64);
        proof {
            assert(decimal_nat((n % 10) as nat) =~= seq![digit((n % 10) as int)]);
            assert(out@ =~= old(out)@ + decimal_nat(n as nat));
        }
    }
}

/// The numbers `values` in decimal, with a comma and a space between two of
/// them.
pub open spec fn listed(values: Seq<u8>) -> Seq<char>
    decreases values.len(),
{
    if values.len() == 0 {
        Seq::empty()
    } else if values.len() == 1 {
        decimal_nat(values[0] as nat)
    } else {
        listed(values.drop_last()) + seq![',', ' '] + decimal_nat(values.last() as nat)
    }
}

/// The numbers `values` as a list in square brackets.
pub open spec fn list_text(values: Seq<u8>) -> Seq<char> {
    seq!['['] + listed(values) + seq![']']
}

/// Appends the list of `values` to `out`.
pub fn push_list(out: &mut String, values: &[u8])
    ensures
        final(out)@ == old(out)@ + list_text(values@),
{
    proof {
        reveal_strlit("[");
        reveal_strlit(", ");
        reveal_strlit("]");
        assert("["@ =~= seq!['[']);
        assert(", "@ =~= seq![',', ' ']);
        assert("]"@ =~= seq![']']);
    }
    out.append("[");
    let mut i: usize = 0;
    while i < values.len()
        invariant
            i <= values.len(),
            out@ == old(out)@ + seq!['['] + listed(values@.take(i as int)),
            ", "@ == seq![',', ' '],
        decreases values.len() - i,
    {
        if i > 0 {
            out.append(", ");
        }
        push_decimal(out, values[i] as i64);
        proof {
            let next = values@.take(i + 1);
            assert(next.drop_last() =~= values@.take(i as int));
            assert(next.last() == values[i as int]);
            assert(out@ =~= old(out)@ + seq!['['] + listed(next));
        }
        i += 1;
    }
    out.append("]");
    proof {
        assert(values@.take(i as int) =~= values@);
        assert(out@ =~= old(out)@ + list_text(values@));
    }
}

/// The decimal digits of `n` as ASCII bytes, without leading zeros.
pub open spec fn decimal_digits(n: nat) -> Seq<u8>
    decreases n,
{
    if n < 10 {
        seq![(48 + n) as u8]
    } else {
        decimal_digits(n / 10).push((48 + n % 10) as u8)
    }
}

/// The digits of a number are ASCII characters, and their bytes in UTF-8 are
/// those of `decimal_digits`.
pub proof fn lemma_decimal_bytes(n: nat)
    ensures
        is_ascii_chars(decimal_nat(n)),
        encode_utf8(decimal_nat(n)) == decimal_digits(n),
        decimal_nat(n).len() == decimal_digits(n).len(),
        1 <= decimal_digits(n).len(),
        n < 10 ==> decimal_digits(n).len() == 1,
        10 <= n < 100 ==> decimal_digits(n).len() == 2,
        100 <= n < 1000 ==> decimal_digits(n).len() == 3,
    decreases n,
{
    lemma_decimal_same(n);
    is_ascii_chars_encode_utf8(decimal_nat(n));
    assert(encode_utf8(decimal_nat(n)) =~= decimal_digits(n));
    if n >= 10 {
        lemma_decimal_bytes(n / 10);
    }
}

/// Digit by digit, the characters of a number are the bytes of
/// `decimal_digits`.
proof fn lemma_decimal_same(n: nat)
    ensures
        is_ascii_chars(decimal_nat(n)),
        decimal_nat(n).len() == decimal_digits(n).len(),
        forall|i: int|
            0 <= i < decimal_nat(n).len() ==> (#[trigger] decimal_nat(n)[i]) as u8
                == decimal_digits(n)[i],
    decreases n,
{
    if n >= 10 {
        lemma_decimal_same(n / 10);
    }
}

/// Appends the decimal digits of `v` to `out`.
pub fn push_decimal_bytes(out: &mut Vec<u8>, v: u8)
    ensures
        final(out)@ == old(out)@ + decimal_digits(v as nat),
{
    let digits: String = decimal_string(v as i64);
    proof {
        lemma_decimal_bytes(v as nat);
    }
    out.extend_from_slice(digits.as_str().as_bytes());
}

/// A time in microseconds, to be shown as hours, minutes, seconds and
/// milliseconds.
pub struct FormatDuration(pub u64);

impl FormatDuration {
    /// The text `HH:MM:SS.mmm` of the time `micros`: hours with at least two
    /// digits, minutes and seconds with two, milliseconds with three.
    pub open spec fn text(micros: u64) -> Seq<char> {
        let secs = (micros / 1_000_000) as nat;
        decimal_two(secs / 3600) + seq![':'] + decimal_two((secs / 60) % 60) + seq![':']
            + decimal_two(secs % 60) + seq!['.'] + decimal_three(
            ((micros / 1000) % 1000) as nat,
        )
    }

    /// The time as `HH:MM:SS.mmm`.
    pub fn to_string(&self) -> (s: String)
        ensures
            s@ == Self::text(self.0),
    {
        let secs: u64 = self.0 / 1_000_000;
        let seconds: u64 = secs % 60;
        let minutes: u64 = (secs / 60) % 60;
        let hours: u64 = (secs / 60) / 60;
        let millis: u64 = (self.0 / 1000) % 1000;
        proof {
            reveal_strlit(":");
            reveal_strlit(".");
            assert(":"@ =~= seq![':']);
            assert("."@ =~= seq!['.']);
            assert((secs / 60) / 60 == secs / 3600);
        }
        let mut s: String = String::new();
        push_decimal_two(&mut s, hours);
        s.append(":");
        push_decimal_two(&mut s, minutes);
        s.append(":");
        push_decimal_two(&mut s, seconds);
        s.append(".");
        push_decimal_three(&mut s, millis);
        proof {
            assert(s@ =~= Self::text(self.0));
        }
        s
    }
}

/// How many hundredths of a percent `time` is of `total`, rounded to the
/// nearest: all of them from `total` on, and none where `total` is nothing.
pub open spec fn share(time: u64, total: u64) -> int {
    if total == 0 {
        0
    } else if time >= total {
        10000
    } else {
        (2 * time * 10000 + total) / (2 * total)
    }
}

/// How many hundredths of a percent `time` is of `total`.
pub fn share_of(time: u64, total: u64) -> (h: u64)
    ensures
        h == share(time, total),
        h <= 10000,
{
    if total == 0 {
        0
    } else if time >= total {
        10000
    } else {
        let scaled: u128 = 20000 * (time as u128) + total as u128;
        let h: u128 = scaled / (2 * (total as u128));
        assert(2 * time * 10000 + total == 20000 * time + total) by (nonlinear_arith);
        assert(h <= 10000) by (nonlinear_arith)
            requires
                h == (20000 * time + total) / (2 * total),
                0 <= time < total,
        ;
        h as u64
    }
}

/// The line that shows how far encoding has come: the time reached, the whole
/// time, and the share in percent with two decimals.
pub open spec fn progress_text(time: u64, total: u64) -> Seq<char> {
    FormatDuration::text(time) + seq!['/'] + FormatDuration::text(total) + seq![' ', '(']
        + decimal_nat((share(time, total) / 100) as nat) + seq!['.'] + decimal_two(
        (share(time, total) % 100) as nat,
    ) + seq!['%', ')']
}

/// The line that shows how far encoding has come.
pub fn progress_line(time: u64, total: u64) -> (s: String)
    ensures
        s@ == progress_text(time, total),
{
    let hundredths: u64 = share_of(time, total);
    proof {
        reveal_strlit("/");
        reveal_strlit(" (");
        reveal_strlit(".");
        reveal_strlit("%)");
        assert("/"@ =~= seq!['/']);
        assert(" ("@ =~= seq![' ', '(']);
        assert("."@ =~= seq!['.']);
        assert("%)"@ =~= seq!['%', ')']);
    }
    let mut s: String = FormatDuration(time).to_string();
    s.append("/");
    let whole_time: String = FormatDuration(total).to_string();
    s.append(whole_time.as_str());
    s.append(" (");
    push_decimal(&mut s, (hundredths / 100) as i64);
    s.append(".");
    push_decimal_two(&mut s, hundredths % 100);
    s.append("%)");
    proof {
        assert(s@ =~= progress_text(time, total));
    }
    s
}

} // verus!
