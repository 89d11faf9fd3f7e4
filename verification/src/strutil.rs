use vstd::prelude::*;
use vstd::utf8::*;

verus! {

/// Relies on `String::from_utf8`: returns the string decoded from `bytes`
/// exactly when the bytes are a valid UTF-8 encoding, and nothing otherwise.
#[verifier::external_body]
pub fn utf8_string(bytes: &Vec<u8>) -> (r: Option<String>)
    ensures
        r is Some <==> valid_utf8(bytes@),
        r matches Some(s) ==> s@ == decode_utf8(bytes@),
{
    String::from_utf8(bytes.clone()).ok()
}

pub open spec fn byte_char(b: u8) -> char {
    b as char
}

/// Bytes below 0x80 are valid UTF-8 and decode to themselves.
pub proof fn lemma_ascii_utf8(bytes: Seq<u8>)
    requires
        forall|i: int| 0 <= i < bytes.len() ==> bytes[i] < 0x80,
    ensures
        valid_utf8(bytes),
        decode_utf8(bytes) =~= bytes.map_values(|b: u8| byte_char(b)),
    decreases bytes.len(),
{
    if bytes.len() > 0 {
        let b = bytes[0];
        assert(b < 0x80 ==> (b & 0x7f) == b) by (bit_vector);
        assert(pop_first_scalar(bytes) =~= bytes.drop_first());
        lemma_ascii_utf8(bytes.drop_first());
        assert(decode_utf8(bytes) =~= bytes.map_values(|x: u8| byte_char(x)));
    }
}

/// The decimal digit character for `d`.
pub open spec fn dec_digit(d: int) -> char
    recommends
        0 <= d <= 9,
{
    ((0x30 + d) as u8) as char
}

/// The decimal notation of a non-negative integer, most significant digit
/// first, with no leading zeros (a single `0` for zero).
pub open spec fn dec_nat(n: int) -> Seq<char>
    recommends
        n >= 0,
    decreases n,
{
    if n < 10 {
        seq![dec_digit(n)]
    } else {
        dec_nat(n / 10).push(dec_digit(n % 10))
    }
}

/// The decimal notation of an integer: a minus sign before the digits of the
/// magnitude when negative.
pub open spec fn dec_int(n: int) -> Seq<char> {
    if n >= 0 {
        dec_nat(n)
    } else {
        seq!['-'] + dec_nat(-n)
    }
}

/// The characters of `s` read back to front.
pub open spec fn rev_chars(s: Seq<u8>) -> Seq<char>
    decreases s,
{
    if s.len() == 0 {
        Seq::empty()
    } else {
        seq![byte_char(s.last())] + rev_chars(s.drop_last())
    }
}

/// The decimal digits of `m`, least significant first, as ASCII bytes.
fn dec_digits_rev(m: u64) -> (rev: Vec<u8>)
    ensures
        rev_chars(rev@) =~= dec_nat(m as int),
        forall|i: int| 0 <= i < rev@.len() ==> 0x30 <= #[trigger] rev@[i] <= 0x39,
        rev@.len() >= 1,
{
    let mut rev: Vec<u8> = Vec::new();
    let mut m: u64 = m;
    let ghost m0 = m as int;
    while m >= 10
        invariant
            0 <= m,
            dec_nat(m0) =~= dec_nat(m as int) + rev_chars(rev@),
            forall|i: int| 0 <= i < rev@.len() ==> 0x30 <= #[trigger] rev@[i] <= 0x39,
        decreases m,
    {
        let ghost prev = rev@;
        let d: u8 = (m % 10) as u8 + 0x30;
        rev.push(d);
        proof {
            assert(rev@.drop_last() =~= prev);
            assert(rev_chars(rev@) =~= seq![byte_char(d)] + rev_chars(prev));
            assert(byte_char(d) == dec_digit((m as int) % 10));
            assert(dec_nat(m as int) == dec_nat((m as int) / 10).push(dec_digit((m as int) % 10)));
            assert(dec_nat(m0) =~= dec_nat((m / 10) as int) + rev_chars(rev@));
        }
        m = m / 10;
    }
    let ghost prev = rev@;
    let d: u8 = m as u8 + 0x30;
    rev.push(d);
    proof {
        assert(rev@.drop_last() =~= prev);
        assert(rev_chars(rev@) =~= seq![byte_char(d)] + rev_chars(prev));
        assert(byte_char(d) == dec_digit(m as int));
        assert(dec_nat(m as int) == seq![dec_digit(m as int)]);
        assert(rev_chars(rev@) =~= dec_nat(m0));
    }
    rev
}

/// The decimal notation of `m` as a string.
pub fn u64_string(m: u64) -> (s: String)
    ensures
        s@ == dec_nat(m as int),
{
    let rev = dec_digits_rev(m);
    let mut out: Vec<u8> = Vec::new();
    let mut i: usize = rev.len();
    while i > 0
        invariant
            i <= rev.len(),
            forall|j: int| 0 <= j < rev@.len() ==> 0x30 <= #[trigger] rev@[j] <= 0x39,
            rev_chars(rev@) =~= dec_nat(m as int),
            out@.len() == rev@.len() - i,
            forall|j: int|
                0 <= j < out@.len() ==> #[trigger] out@[j] == rev@[rev@.len() - 1 - j],
        decreases i,
    {
        i = i - 1;
        out.push(rev[i]);
    }
    proof {
        lemma_rev_chars_index(rev@);
        assert(out@.map_values(|b: u8| byte_char(b)) =~= rev_chars(rev@));
        lemma_ascii_utf8(out@);
    }
    match utf8_string(&out) {
        Some(s) => s,
        None => {
            proof {
                assert(false);
            }
            String::new()
        },
    }
}

/// Reading a byte sequence back to front picks mirrored indexes.
proof fn lemma_rev_chars_index(s: Seq<u8>)
    ensures
        rev_chars(s).len() == s.len(),
        forall|j: int|
            0 <= j < s.len() ==> #[trigger] rev_chars(s)[j] == byte_char(s[s.len() - 1 - j]),
    decreases s,
{
    if s.len() > 0 {
        lemma_rev_chars_index(s.drop_last());
        assert forall|j: int| 0 <= j < s.len() implies #[trigger] rev_chars(s)[j] == byte_char(
            s[s.len() - 1 - j],
        ) by {
            if j > 0 {
                assert(rev_chars(s)[j] == rev_chars(s.drop_last())[j - 1]);
                assert(s.drop_last()[s.len() - 1 - j] == s[s.len() - 1 - j]);
            }
        }
    }
}

/// The decimal notation of `n` as a string, minus sign included.
pub fn i64_string(n: i64) -> (s: String)
    ensures
        s@ == dec_int(n as int),
{
    if n >= 0 {
        let s = u64_string(n as u64);
        s
    } else {
        let m: u64 = if n == i64::MIN {
            9223372036854775808u64
        } else {
            (-n) as u64
        };
        assert(m as int == -(n as int));
        let digits = u64_string(m);
        let mut s = String::from_str("-");
        proof {
            reveal_strlit("-");
        }
        s.append(digits.as_str());
        assert(s@ =~= dec_int(n as int));
        s
    }
}

} // verus!
