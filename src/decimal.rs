//! The decimal string form of `i54`, and its parser.
use vstd::prelude::*;

use crate::{checked, i54, i54Error, in_safe_range, model_of, MAX_SAFE_INTEGER};

verus! {

/// The character of the decimal digit `d`.
pub open spec fn digit_char(d: nat) -> char {
    seq!['0', '1', '2', '3', '4', '5', '6', '7', '8', '9'][d as int]
}

/// Whether `c` is an ASCII decimal digit.
pub open spec fn is_digit(c: char) -> bool {
    '0' <= c <= '9'
}

/// The digits of `m`, most significant first, with no leading zero.
pub open spec fn digits_of(m: nat) -> Seq<char>
    decreases m,
{
    if m < 10 {
        seq![digit_char(m)]
    } else {
        digits_of(m / 10).push(digit_char(m % 10))
    }
}

/// The canonical decimal form of `n`: a minus sign for negatives, no
/// leading zeros, no separators, no exponent.
pub open spec fn decimal(n: int) -> Seq<char> {
    if n < 0 {
        seq!['-'] + digits_of((-n) as nat)
    } else {
        digits_of(n as nat)
    }
}

/// The value of a sequence of digits read in base ten.
pub open spec fn digits_value(cs: Seq<char>) -> nat
    decreases cs.len(),
{
    if cs.len() == 0 {
        0
    } else {
        digits_value(cs.drop_last()) * 10 + (cs.last() as nat - '0' as nat) as nat
    }
}

/// One or more digits, with no leading zero unless the whole is `0`.
pub open spec fn is_digit_string(cs: Seq<char>) -> bool {
    &&& cs.len() >= 1
    &&& forall|i: int| 0 <= i < cs.len() ==> is_digit(#[trigger] cs[i])
    &&& (cs[0] == '0' ==> cs.len() == 1)
}

/// The integer a string denotes: an optional leading `-` followed by a digit
/// string; `None` for anything else.
pub open spec fn decimal_value(s: Seq<char>) -> Option<int> {
    if s.len() >= 1 && s[0] == '-' && is_digit_string(s.drop_first()) {
        Some(-digits_value(s.drop_first()))
    } else if is_digit_string(s) {
        Some(digits_value(s) as int)
    } else {
        None
    }
}

/// What parsing `s` yields.
pub open spec fn parsed(s: Seq<char>) -> Result<int, i54Error> {
    match decimal_value(s) {
        Some(n) => checked(n),
        None => Err(i54Error::ConversionFailed),
    }
}

proof fn lemma_digit_char(d: nat)
    requires
        d < 10,
    ensures
        is_digit(digit_char(d)),
        digit_char(d) as nat - '0' as nat == d,
        digit_char(d) == '0' <==> d == 0,
{
    let t = seq!['0', '1', '2', '3', '4', '5', '6', '7', '8', '9'];
    assert(t[0] == '0' && t[1] == '1' && t[2] == '2' && t[3] == '3' && t[4] == '4');
    assert(t[5] == '5' && t[6] == '6' && t[7] == '7' && t[8] == '8' && t[9] == '9');
}

proof fn lemma_digits_of(m: nat)
    ensures
        is_digit_string(digits_of(m)),
        digits_value(digits_of(m)) == m,
        (digits_of(m)[0] == '0') == (m == 0),
    decreases m,
{
    lemma_digit_char((m % 10) as nat);
    let cs = digits_of(m);
    if m >= 10 {
        lemma_digits_of(m / 10);
        let prev = digits_of(m / 10);
        assert(cs.drop_last() =~= prev);
        assert(cs[0] == prev[0]);
        assert(cs.last() == digit_char((m % 10) as nat));
        assert(digits_value(cs) == digits_value(prev) * 10 + (m % 10));
        assert forall|i: int| 0 <= i < cs.len() implies is_digit(#[trigger] cs[i]) by {
            if i < prev.len() {
                assert(cs[i] == prev[i]);
            }
        }
    } else {
        assert(cs.drop_last() =~= Seq::<char>::empty());
        assert(digits_value(Seq::<char>::empty()) == 0);
        assert(cs[0] == digit_char(m));
        assert(cs.last() == digit_char(m));
    }
}

/// Parsing the canonical decimal form of a value of the safe range gives the
/// same value back.
pub proof fn lemma_decimal_round_trip(n: int)
    requires
        in_safe_range(n),
    ensures
        decimal_value(decimal(n)) == Some(n),
        parsed(decimal(n)) == Ok::<int, i54Error>(n),
{
    if n < 0 {
        lemma_digits_of((-n) as nat);
        assert(decimal(n).drop_first() =~= digits_of((-n) as nat));
    } else {
        lemma_digits_of(n as nat);
        assert(digits_of(n as nat)[0] != '-');
    }
}

/// Within a digit sequence, a longer prefix never has a smaller value.
proof fn lemma_prefix_value(cs: Seq<char>, j: int, k: int)
    requires
        0 <= j <= k <= cs.len(),
        forall|i: int| 0 <= i < cs.len() ==> is_digit(#[trigger] cs[i]),
    ensures
        digits_value(cs.subrange(0, j)) <= digits_value(cs.subrange(0, k)),
    decreases k - j,
{
    if j < k {
        lemma_prefix_value(cs, j, k - 1);
        assert(cs.subrange(0, k).drop_last() =~= cs.subrange(0, k - 1));
    }
}

/// An ASCII character and its byte have the same value.
proof fn lemma_ascii_byte(c: char)
    requires
        '\0' <= c <= '\u{7f}',
    ensures
        c as u8 as int == c as int,
{
}

/// The string of one decimal digit.
fn digit_str(d: u64) -> (r: &'static str)
    requires
        d < 10,
    ensures
        r@ == seq![digit_char(d as nat)],
{
    if d == 0 {
        proof { reveal_strlit("0"); }
        "0"
    } else if d == 1 {
        proof { reveal_strlit("1"); }
        "1"
    } else if d == 2 {
        proof { reveal_strlit("2"); }
        "2"
    } else if d == 3 {
        proof { reveal_strlit("3"); }
        "3"
    } else if d == 4 {
        proof { reveal_strlit("4"); }
        "4"
    } else if d == 5 {
        proof { reveal_strlit("5"); }
        "5"
    } else if d == 6 {
        proof { reveal_strlit("6"); }
        "6"
    } else if d == 7 {
        proof { reveal_strlit("7"); }
        "7"
    } else if d == 8 {
        proof { reveal_strlit("8"); }
        "8"
    } else {
        proof { reveal_strlit("9"); }
        "9"
    }
}

/// Appends the digits of `m` to `out`.
fn push_digits(m: u64, out: &mut String)
    ensures
        final(out)@ == old(out)@ + digits_of(m as nat),
    decreases m,
{
    if m >= 10 {
        push_digits(m / 10, out);
    }
    out.append(digit_str(m % 10));
    proof {
        assert(final(out)@ =~= old(out)@ + digits_of(m as nat));
    }
}

impl i54 {
    /// The canonical decimal form of the value.
    pub fn to_decimal_string(&self) -> (r: String)
        ensures
            r@ == decimal(self@),
    {
        let v = self.as_i64();
        let mut out = String::new();
        if v < 0 {
            proof { reveal_strlit("-"); }
            out.append("-");
            push_digits((-v) as u64, &mut out);
        } else {
            push_digits(v as u64, &mut out);
        }
        proof {
            assert(out@ =~= decimal(self@));
        }
        out
    }

    /// Parses an optional `-` followed by ASCII digits, with no leading zero
    /// except in `0` itself. Empty, malformed and out-of-range input fails.
    pub fn parse_decimal(s: &str) -> (r: Result<i54, i54Error>)
        ensures
            model_of(r) == parsed(s@),
    {
        if !s.is_ascii() {
            proof {
                let k = choose|k: int| 0 <= k < s@.len() && !('\0' <= #[trigger] s@[k] <= '\u{7f}');
                assert(!is_digit(s@[k]));
                if k > 0 {
                    assert(s@.drop_first()[k - 1] == s@[k]);
                }
            }
            return Err(i54Error::ConversionFailed);
        }
        let bytes = s.as_bytes();
        let len = bytes.len();
        proof {
            vstd::string::is_ascii_spec_bytes(s);
        }
        let ghost cs = s@;
        let negative = len >= 1 && bytes[0] == 45u8;
        let start: usize = if negative { 1 } else { 0 };
        if start >= len {
            return Err(i54Error::ConversionFailed);
        }
        if bytes[start] == 48u8 && len - start > 1 {
            return Err(i54Error::ConversionFailed);
        }
        let ghost ds = cs.subrange(start as int, len as int);
        proof {
            lemma_ascii_byte(cs[0]);
            lemma_ascii_byte(cs[start as int]);
            if negative {
                assert(ds =~= cs.drop_first());
            } else {
                assert(ds =~= cs);
            }
        }
        let mut acc: u64 = 0;
        let mut i: usize = start;
        while i < len
            invariant
                start <= i <= len,
                cs == s@,
                len == cs.len(),
                bytes@.len() == len,
                forall|k: int| 0 <= k < len ==> bytes@[k] == cs[k] as u8,
                forall|k: int| 0 <= k < len ==> '\0' <= #[trigger] cs[k] <= '\u{7f}',
                ds == cs.subrange(start as int, len as int),
                forall|k: int| start <= k < i ==> is_digit(#[trigger] cs[k]),
                acc == digits_value(ds.subrange(0, i - start)),
                acc <= MAX_SAFE_INTEGER,
                negative == (cs[0] == '-'),
                start == (if negative { 1usize } else { 0usize }),
                start < len,
                decimal_value(cs) == (if negative && is_digit_string(ds) {
                    Some(-digits_value(ds))
                } else if !negative && is_digit_string(ds) {
                    Some(digits_value(ds) as int)
                } else {
                    None
                }),
                ds[0] == '0' ==> ds.len() == 1,
            decreases len - i,
        {
            let b = bytes[i];
            proof {
                lemma_ascii_byte(cs[i as int]);
            }
            if b < 48u8 || b > 57u8 {
                proof {
                    assert(!is_digit(ds[i - start]));
                    assert(!is_digit_string(ds));
                }
                return Err(i54Error::ConversionFailed);
            }
            acc = acc * 10 + (b - 48u8) as u64;
            i = i + 1;
            proof {
                assert(ds.subrange(0, i - start).drop_last() =~= ds.subrange(0, i - start - 1));
            }
            if acc > MAX_SAFE_INTEGER as u64 {
                proof {
                    if is_digit_string(ds) {
                        lemma_prefix_value(ds, i - start, len - start);
                        assert(ds.subrange(0, len - start) =~= ds);
                    }
                }
                return Err(i54Error::ConversionFailed);
            }
        }
        proof {
            assert(ds.subrange(0, len - start) =~= ds);
        }
        let v = acc as i64;
        if negative {
            Ok(i54::from_in_range(-v))
        } else {
            Ok(i54::from_in_range(v))
        }
    }
}

} // verus!
