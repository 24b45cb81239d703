use vstd::prelude::*;
use vstd::arithmetic::div_mod::lemma_fundamental_div_mod;
use vstd::string::StrSliceExecFns;
use vstd::string::StringExecFns;

verus! {

/// The decimal digit character for `d`, defined for `d < 10`.
pub open spec fn digit_char(d: nat) -> char {
    if d == 0 {
        '0'
    } else if d == 1 {
        '1'
    } else if d == 2 {
        '2'
    } else if d == 3 {
        '3'
    } else if d == 4 {
        '4'
    } else if d == 5 {
        '5'
    } else if d == 6 {
        '6'
    } else if d == 7 {
        '7'
    } else if d == 8 {
        '8'
    } else {
        '9'
    }
}

pub open spec fn is_digit(c: char) -> bool {
    48 <= c as u32 <= 57
}

/// The numeric value of a digit character.
pub open spec fn digit_val(c: char) -> nat {
    (c as u32 - 48) as nat
}

/// The decimal digits of `n`, most significant first, with no leading
/// zeros (except for `n == 0`, written as the single digit `0`).
pub open spec fn spec_decimal(n: nat) -> Seq<char>
    decreases n,
{
    if n < 10 {
        seq![digit_char(n)]
    } else {
        spec_decimal(n / 10).push(digit_char(n % 10))
    }
}

/// The numeric value of a digit string, most significant digit first.
pub open spec fn spec_digits_value(s: Seq<char>) -> nat
    decreases s.len(),
{
    if s.len() == 0 {
        0
    } else {
        spec_digits_value(s.drop_last()) * 10 + digit_val(s.last())
    }
}

pub open spec fn all_digits(s: Seq<char>) -> bool {
    forall|i: int| 0 <= i < s.len() ==> is_digit(#[trigger] s[i])
}

/// The wire form of a whole-second time span: `PT`, one or more decimal
/// digits, then `S`.
pub open spec fn spec_encode_duration(n: nat) -> Seq<char> {
    seq!['P', 'T'] + spec_decimal(n) + seq!['S']
}

/// Whether `s` is a well-formed `PT<digits>S` duration text.
pub open spec fn spec_is_duration_text(s: Seq<char>) -> bool {
    &&& s.len() >= 4
    &&& s[0] == 'P'
    &&& s[1] == 'T'
    &&& s.last() == 'S'
    &&& all_digits(s.subrange(2, s.len() - 1))
}

/// The seconds named by a duration text, or `None` where the text is
/// malformed. Leading zeros in the digit run are accepted.
pub open spec fn spec_decode_duration(s: Seq<char>) -> Option<nat> {
    if spec_is_duration_text(s) {
        Some(spec_digits_value(s.subrange(2, s.len() - 1)))
    } else {
        None
    }
}

proof fn lemma_digit_char_val(d: nat)
    requires
        d < 10,
    ensures
        is_digit(digit_char(d)),
        digit_val(digit_char(d)) == d,
{
}

/// The digits of `n` are digits, and their value is `n` again.
proof fn lemma_decimal_value(n: nat)
    ensures
        all_digits(spec_decimal(n)),
        spec_digits_value(spec_decimal(n)) == n,
        spec_decimal(n).len() >= 1,
    decreases n,
{
    if n < 10 {
        lemma_digit_char_val(n);
        let s = spec_decimal(n);
        assert(s.drop_last() =~= Seq::<char>::empty());
        assert(spec_digits_value(Seq::<char>::empty()) == 0);
        assert(s.last() == digit_char(n));
        assert(spec_digits_value(s) == digit_val(digit_char(n)));
    } else {
        lemma_decimal_value(n / 10);
        lemma_digit_char_val(n % 10);
        lemma_fundamental_div_mod(n as int, 10);
        let s = spec_decimal(n);
        assert(s.drop_last() =~= spec_decimal(n / 10));
        assert(s.last() == digit_char(n % 10));
        assert(spec_digits_value(s) == spec_digits_value(spec_decimal(n / 10)) * 10 + digit_val(
            digit_char(n % 10),
        ));
        assert(spec_digits_value(s) == (n / 10) * 10 + (n % 10));
        assert forall|i: int| 0 <= i < s.len() implies is_digit(#[trigger] s[i]) by {
            if i < s.len() - 1 {
                assert(s[i] == spec_decimal(n / 10)[i]);
            }
        }
    }
}

/// Extending a digit string can only increase its value.
proof fn lemma_digits_value_prefix(s: Seq<char>, k: int)
    requires
        0 <= k <= s.len(),
    ensures
        spec_digits_value(s.subrange(0, k)) <= spec_digits_value(s),
    decreases s.len(),
{
    if k < s.len() {
        lemma_digits_value_prefix(s.drop_last(), k);
        assert(s.drop_last().subrange(0, k) =~= s.subrange(0, k));
    } else {
        assert(s.subrange(0, k) =~= s);
    }
}

fn digit_string(d: u64) -> (r: String)
    requires
        d < 10,
    ensures
        r@ =~= seq![digit_char(d as nat)],
{
    if d == 0 {
        proof { reveal_strlit("0"); }
        String::from_str("0")
    } else if d == 1 {
        proof { reveal_strlit("1"); }
        String::from_str("1")
    } else if d == 2 {
        proof { reveal_strlit("2"); }
        String::from_str("2")
    } else if d == 3 {
        proof { reveal_strlit("3"); }
        String::from_str("3")
    } else if d == 4 {
        proof { reveal_strlit("4"); }
        String::from_str("4")
    } else if d == 5 {
        proof { reveal_strlit("5"); }
        String::from_str("5")
    } else if d == 6 {
        proof { reveal_strlit("6"); }
        String::from_str("6")
    } else if d == 7 {
        proof { reveal_strlit("7"); }
        String::from_str("7")
    } else if d == 8 {
        proof { reveal_strlit("8"); }
        String::from_str("8")
    } else {
        proof { reveal_strlit("9"); }
        String::from_str("9")
    }
}

fn u64_digits(n: u64) -> (r: String)
    ensures
        r@ == spec_decimal(n as nat),
    decreases n,
{
    if n < 10 {
        let r = digit_string(n);
        proof {
            assert(r@ =~= spec_decimal(n as nat));
        }
        r
    } else {
        let mut s = u64_digits(n / 10);
        let d = digit_string(n % 10);
        s.append(d.as_str());
        proof {
            assert(s@ =~= spec_decimal(n as nat));
        }
        s
    }
}

/// Writes `secs` in the service's wire form for time spans: `PT<secs>S`.
pub fn encode_duration(secs: u64) -> (r: String)
    ensures
        r@ == spec_encode_duration(secs as nat),
{
    proof {
        reveal_strlit("PT");
        reveal_strlit("S");
    }
    let mut s = String::from_str("PT");
    let digits = u64_digits(secs);
    s.append(digits.as_str());
    s.append("S");
    proof {
        assert(s@ =~= spec_encode_duration(secs as nat));
    }
    s
}

/// Reads a `PT<digits>S` duration text back into whole seconds.
///
/// Returns `None` exactly where the text is malformed or its value does
/// not fit in a `u64`.
pub fn decode_duration(s: &str) -> (r: Option<u64>)
    ensures
        match r {
            Some(v) => spec_decode_duration(s@) == Some(v as nat),
            None => spec_decode_duration(s@) is None || (forall|n: nat|
                spec_decode_duration(s@) == Some(n) ==> n > u64::MAX),
        },
{
    proof {
        reveal_strlit("P");
        reveal_strlit("T");
        reveal_strlit("S");
    }
    let len = s.unicode_len();
    if len < 4 {
        return None;
    }
    if s.get_char(0) != 'P' || s.get_char(1) != 'T' {
        return None;
    }
    if s.get_char(len - 1) != 'S' {
        return None;
    }
    let ghost digits = s@.subrange(2, s@.len() - 1);
    let mut acc: u64 = 0;
    let mut i: usize = 2;
    while i < len - 1
        invariant
            2 <= i <= len - 1,
            len == s@.len(),
            4 <= len,
            digits == s@.subrange(2, s@.len() - 1),
            all_digits(s@.subrange(2, i as int)),
            acc as nat == spec_digits_value(s@.subrange(2, i as int)),
        decreases len - i,
    {
        let c = s.get_char(i);
        let cv = c as u32;
        if cv < 48 || cv > 57 {
            // a non-digit inside the digit run: the text is malformed
            proof {
                assert(digits[i - 2] == s@[i as int]);
                assert(!all_digits(digits));
            }
            return None;
        }
        let d = (cv - 48) as u64;
        proof {
            assert(s@.subrange(2, i + 1).drop_last() =~= s@.subrange(2, i as int));
            assert(s@.subrange(2, i + 1).last() == s@[i as int]);
        }
        let step = match acc.checked_mul(10) {
            Some(m) => m.checked_add(d),
            None => None,
        };
        match step {
            Some(next) => {
                acc = next;
            },
            None => {
                // the value overflows a u64: so does the whole digit run
                proof {
                    assert(spec_digits_value(s@.subrange(2, i + 1)) > u64::MAX);
                    lemma_digits_value_prefix(digits, i - 1);
                    assert(digits.subrange(0, i - 1) =~= s@.subrange(2, i + 1));
                }
                return None;
            },
        }
        proof {
            assert forall|j: int| 0 <= j < i + 1 - 2 implies is_digit(
                #[trigger] s@.subrange(2, i + 1)[j],
            ) by {
                if j < i - 2 {
                    assert(s@.subrange(2, i as int)[j] == s@.subrange(2, i + 1)[j]);
                }
            }
        }
        i = i + 1;
    }
    proof {
        assert(s@.subrange(2, i as int) =~= digits);
        assert(spec_is_duration_text(s@));
    }
    Some(acc)
}

/// Encoding never loses whole seconds: decoding the encoded text gives
/// the seconds back.
pub proof fn lemma_duration_round_trip(secs: u64)
    ensures
        spec_decode_duration(spec_encode_duration(secs as nat)) == Some(secs as nat),
{
    let s = spec_encode_duration(secs as nat);
    lemma_decimal_value(secs as nat);
    assert(s.subrange(2, s.len() - 1) =~= spec_decimal(secs as nat));
    assert(s.last() == 'S');
    assert(spec_is_duration_text(s));
}

} // verus!
