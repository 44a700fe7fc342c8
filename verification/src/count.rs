//! Reading count arguments: a leading signed-digit run followed by an
//! optional multiplier suffix, as in `-c 2kB` or `-n -1`.

use vstd::prelude::*;

use crate::HeadError;

verus! {

/// A decimal digit, the only digits count arguments use.
pub open spec fn is_count_digit(c: char) -> bool {
    '0' as int <= c as int <= '9' as int
}

/// The numeric value of one decimal digit.
pub open spec fn digit_value(c: char) -> int {
    c as int - '0' as int
}

/// A character that may appear in the leading signed-digit run.
pub open spec fn is_num_char(c: char) -> bool {
    is_count_digit(c) || c == '-'
}

/// Length of the leading run of digits and minus signs, the part of a count
/// argument read as a number; the rest is the multiplier suffix.
pub open spec fn num_prefix_len(s: Seq<char>) -> int
    decreases s.len(),
{
    if s.len() == 0 {
        0
    } else if is_num_char(s[0]) {
        1 + num_prefix_len(s.skip(1))
    } else {
        0
    }
}

pub open spec fn all_count_digits(s: Seq<char>) -> bool {
    forall|i: int| 0 <= i < s.len() ==> is_count_digit(s[i])
}

/// The number a run of decimal digits denotes, most significant digit first.
pub open spec fn digits_value(s: Seq<char>) -> int
    decreases s.len(),
{
    if s.len() == 0 {
        0
    } else {
        10 * digits_value(s.drop_last()) + digit_value(s.last())
    }
}

/// The integer a signed-digit run denotes: an optional leading minus sign,
/// then at least one digit; anything else is not a valid count number.
pub open spec fn signed_value(s: Seq<char>) -> Option<int> {
    if s.len() >= 1 && s[0] == '-' {
        if s.len() >= 2 && all_count_digits(s.skip(1)) {
            Some(-digits_value(s.skip(1)))
        } else {
            None
        }
    } else if s.len() >= 1 && all_count_digits(s) {
        Some(digits_value(s))
    } else {
        None
    }
}

/// The factor a multiplier suffix scales the number by; an absent suffix
/// means no scaling.
pub open spec fn multiplier_value(s: Seq<char>) -> Option<int> {
    if s.len() == 0 {
        Some(1int)
    } else if s.len() == 1 {
        if s[0] == 'b' {
            Some(512int)
        } else if s[0] == 'K' {
            Some(1024int)
        } else if s[0] == 'M' {
            Some(1024int * 1024)
        } else if s[0] == 'G' {
            Some(1024int * 1024 * 1024)
        } else {
            None
        }
    } else if s.len() == 2 && s[1] == 'B' {
        if s[0] == 'k' {
            Some(1000int)
        } else if s[0] == 'M' {
            Some(1000int * 1000)
        } else if s[0] == 'G' {
            Some(1000int * 1000 * 1000)
        } else {
            None
        }
    } else {
        None
    }
}

pub open spec fn in_i64(v: int) -> bool {
    i64::MIN <= v <= i64::MAX
}

/// What a count argument resolves to: the leading signed-digit run is split
/// from the trailing suffix, read as an integer, and scaled by the suffix
/// factor. A run that is not a valid integer, or a count that does not fit
/// in 64 bits, is an invalid count; an unknown suffix is an unrecognized
/// multiplier.
pub open spec fn spec_parse_count(s: Seq<char>) -> Result<int, HeadError> {
    let k = num_prefix_len(s);
    match signed_value(s.take(k)) {
        None => Err(HeadError::InvalidCount),
        Some(v) => if !in_i64(v) {
            Err(HeadError::InvalidCount)
        } else {
            match multiplier_value(s.skip(k)) {
                None => Err(HeadError::UnrecognizedMultiplier),
                Some(m) => if in_i64(v * m) {
                    Ok(v * m)
                } else {
                    Err(HeadError::InvalidCount)
                },
            }
        },
    }
}

/// A scan that stops at the first character outside the signed-digit
/// alphabet has found exactly the leading run.
proof fn lemma_num_prefix_len_of_scan(s: Seq<char>, i: int)
    requires
        0 <= i <= s.len(),
        forall|j: int| 0 <= j < i ==> is_num_char(s[j]),
        i < s.len() ==> !is_num_char(s[i]),
    ensures
        num_prefix_len(s) == i,
    decreases s.len(),
{
    if s.len() == 0 {
    } else if i == 0 {
    } else {
        assert(is_num_char(s[0]));
        let t = s.skip(1);
        assert forall|j: int| 0 <= j < i - 1 implies is_num_char(t[j]) by {
            assert(t[j] == s[j + 1]);
        }
        if i - 1 < t.len() {
            assert(t[i - 1] == s[i]);
        }
        lemma_num_prefix_len_of_scan(t, i - 1);
    }
}

/// Every digit run denotes a non-negative number.
proof fn lemma_digits_value_nonneg(s: Seq<char>)
    requires
        all_count_digits(s),
    ensures
        digits_value(s) >= 0,
    decreases s.len(),
{
    if s.len() > 0 {
        let t = s.drop_last();
        assert(all_count_digits(t));
        lemma_digits_value_nonneg(t);
    }
}

/// Dropping trailing digits never makes the denoted number larger.
proof fn lemma_digits_value_prefix_le(s: Seq<char>, i: int)
    requires
        all_count_digits(s),
        0 <= i <= s.len(),
    ensures
        digits_value(s.take(i)) <= digits_value(s),
    decreases s.len() - i,
{
    if i == s.len() {
        assert(s.take(i) =~= s);
    } else {
        let a = s.take(i);
        let b = s.take(i + 1);
        assert(b.drop_last() =~= a);
        assert(b.last() == s[i]);
        assert(all_count_digits(a));
        lemma_digits_value_nonneg(a);
        assert(digits_value(b) == 10 * digits_value(a) + digit_value(s[i]));
        lemma_digits_value_prefix_le(s, i + 1);
    }
}

/// Splits a count argument at the end of its leading signed-digit run.
fn scan_num_prefix(s: &str) -> (idx: usize)
    ensures
        0 <= idx <= s@.len(),
        idx == num_prefix_len(s@),
        forall|j: int| 0 <= j < idx ==> is_num_char(s@[j]),
{
    let n = s.unicode_len();
    let mut i: usize = 0;
    loop
        invariant
            0 <= i <= n,
            n == s@.len(),
            forall|j: int| 0 <= j < i ==> is_num_char(s@[j]),
        ensures
            0 <= i <= n,
            forall|j: int| 0 <= j < i ==> is_num_char(s@[j]),
            i < n ==> !is_num_char(s@[i as int]),
        decreases n - i,
    {
        if i == n {
            break;
        }
        let c = s.get_char(i);
        let ok = (c as u32 >= '0' as u32 && c as u32 <= '9' as u32) || c == '-';
        if !ok {
            break;
        }
        i = i + 1;
    }
    proof {
        lemma_num_prefix_len_of_scan(s@, i as int);
    }
    i
}

/// Reads the digit run `s[from..to]` as a number, if every character is a
/// digit and the value fits in 64 bits.
fn parse_digit_run(s: &str, from: usize, to: usize) -> (r: Option<u64>)
    requires
        from <= to <= s@.len(),
    ensures
        match r {
            Some(v) => all_count_digits(s@.subrange(from as int, to as int)) && v
                == digits_value(s@.subrange(from as int, to as int)),
            None => !all_count_digits(s@.subrange(from as int, to as int)) || digits_value(
                s@.subrange(from as int, to as int),
            ) > u64::MAX,
        },
{
    let ghost sub = s@.subrange(from as int, to as int);
    let mut acc: u64 = 0;
    let mut j: usize = from;
    loop
        invariant
            from <= j <= to <= s@.len(),
            sub == s@.subrange(from as int, to as int),
            forall|k: int| 0 <= k < j - from ==> is_count_digit(sub[k]),
            acc == digits_value(sub.take(j - from)),
        ensures
            j == to,
            forall|k: int| 0 <= k < to - from ==> is_count_digit(sub[k]),
            acc == digits_value(sub.take(to - from)),
        decreases to - j,
    {
        if j == to {
            break;
        }
        let c = s.get_char(j);
        let is_digit = c as u32 >= '0' as u32 && c as u32 <= '9' as u32;
        proof {
            assert(sub[j - from] == s@[j as int]);
        }
        if !is_digit {
            assert(!is_count_digit(sub[j - from]));
            return None;
        }
        let d: u64 = (c as u32 - '0' as u32) as u64;
        assert(d == digit_value(sub[j - from]));
        if acc > (u64::MAX - d) / 10 {
            proof {
                let part = sub.take(j - from + 1);
                assert(part.drop_last() =~= sub.take(j - from));
                assert(part.last() == sub[j - from]);
                assert(digits_value(part) == 10 * acc + d);
                assert(digits_value(part) > u64::MAX);
                assert(all_count_digits(part));
                if all_count_digits(sub) {
                    lemma_digits_value_prefix_le(sub, j - from + 1);
                }
            }
            return None;
        }
        proof {
            let part = sub.take(j - from + 1);
            assert(part.drop_last() =~= sub.take(j - from));
            assert(part.last() == sub[j - from]);
        }
        acc = acc * 10 + d;
        j = j + 1;
    }
    proof {
        assert(sub.take(to - from) =~= sub);
    }
    Some(acc)
}

/// The factor the suffix `s[from..]` denotes, if it names a multiplier.
fn match_multiplier(s: &str, from: usize) -> (r: Option<i64>)
    requires
        from <= s@.len(),
    ensures
        match r {
            Some(m) => multiplier_value(s@.skip(from as int)) == Some(m as int) && 0 < m
                <= 0x40000000,
            None => multiplier_value(s@.skip(from as int)) is None,
        },
{
    let ghost suf = s@.skip(from as int);
    let n = s.unicode_len();
    let rem = n - from;
    if rem == 0 {
        proof {
            assert(suf.len() == 0);
        }
        Some(1)
    } else if rem == 1 {
        let c = s.get_char(from);
        proof {
            assert(suf[0] == s@[from as int]);
        }
        if c == 'b' {
            Some(512)
        } else if c == 'K' {
            Some(1024)
        } else if c == 'M' {
            Some(1024 * 1024)
        } else if c == 'G' {
            Some(1024 * 1024 * 1024)
        } else {
            None
        }
    } else if rem == 2 {
        let c0 = s.get_char(from);
        let c1 = s.get_char(from + 1);
        proof {
            assert(suf[0] == s@[from as int]);
            assert(suf[1] == s@[from as int + 1]);
        }
        if c1 != 'B' {
            None
        } else if c0 == 'k' {
            Some(1000)
        } else if c0 == 'M' {
            Some(1000 * 1000)
        } else if c0 == 'G' {
            Some(1000 * 1000 * 1000)
        } else {
            None
        }
    } else {
        None
    }
}

/// Resolves one count argument: the signed-digit run scaled by the suffix
/// factor, or the error `spec_parse_count` assigns to it.
pub fn parse_count(s: &str) -> (r: Result<i64, HeadError>)
    ensures
        match spec_parse_count(s@) {
            Ok(v) => r matches Ok(x) && x == v,
            Err(e) => r == Result::<i64, HeadError>::Err(e),
        },
{
    let idx = scan_num_prefix(s);
    let ghost prefix = s@.take(idx as int);
    let neg = idx > 0 && s.get_char(0) == '-';
    let dstart: usize = if neg {
        1
    } else {
        0
    };
    proof {
        if idx > 0 {
            assert(prefix[0] == s@[0]);
        }
    }
    if idx == dstart {
        // No digits at all: an empty run, or a bare minus sign.
        return Err(HeadError::InvalidCount);
    }
    let digits = parse_digit_run(s, dstart, idx);
    proof {
        if neg {
            assert(s@.subrange(dstart as int, idx as int) =~= prefix.skip(1));
        } else {
            assert(s@.subrange(dstart as int, idx as int) =~= prefix);
        }
    }
    let mag: u64 = match digits {
        None => {
            return Err(HeadError::InvalidCount);
        },
        Some(v) => v,
    };
    // The signed value of the run, exact in 128 bits.
    let sv: i128 = if neg {
        -(mag as i128)
    } else {
        mag as i128
    };
    if sv < i64::MIN as i128 || sv > i64::MAX as i128 {
        return Err(HeadError::InvalidCount);
    }
    let m: i64 = match match_multiplier(s, idx) {
        None => {
            return Err(HeadError::UnrecognizedMultiplier);
        },
        Some(m) => m,
    };
    proof {
        assert(-0x8000000000000000 * 0x40000000 <= (sv as int) * (m as int) <= 0x8000000000000000
            * 0x40000000) by (nonlinear_arith)
            requires
                -0x8000000000000000 <= sv as int <= 0x8000000000000000,
                0 < m as int <= 0x40000000,
        ;
    }
    let p: i128 = sv * (m as i128);
    if p < i64::MIN as i128 || p > i64::MAX as i128 {
        return Err(HeadError::InvalidCount);
    }
    Ok(p as i64)
}

/// Resolves an optional byte-count argument: absent means byte mode is off,
/// present means its count, read by `parse_count`.
pub fn parse_bytes(input: Option<&str>) -> (r: Result<Option<i64>, HeadError>)
    ensures
        match input {
            None => r == Result::<Option<i64>, HeadError>::Ok(None::<i64>),
            Some(s) => match spec_parse_count(s@) {
                Ok(v) => r matches Ok(o) && o matches Some(x) && x == v,
                Err(e) => r == Result::<Option<i64>, HeadError>::Err(e),
            },
        },
{
    match input {
        None => Ok(None),
        Some(s) => match parse_count(s) {
            Ok(v) => Ok(Some(v)),
            Err(e) => Err(e),
        },
    }
}

} // verus!
