use vstd::prelude::*;
use vstd::string::StrSliceExecFns;

verus! {

/// The unit of a duration as written on a command line.
#[derive(Clone, Copy, Debug, PartialEq, Eq, Structural)]
pub enum TimeUnit {
    Days,
    Hours,
    Minutes,
}

/// A duration as written on a command line: a signed count and a unit.
#[derive(Clone, Copy, Debug, PartialEq, Eq, Structural)]
pub struct DurationSpan {
    pub count: i64,
    pub unit: TimeUnit,
}

pub open spec fn is_digit(c: char) -> bool {
    48 <= c as int <= 57
}

pub open spec fn digit_val(c: char) -> int {
    c as int - 48
}

/// The value of a decimal digit string, most significant digit first.
pub open spec fn digits_val(s: Seq<char>) -> int
    decreases s.len(),
{
    if s.len() == 0 {
        0
    } else {
        10 * digits_val(s.drop_last()) + digit_val(s.last())
    }
}

pub open spec fn all_digits(s: Seq<char>) -> bool {
    forall|i: int| 0 <= i < s.len() ==> is_digit(#[trigger] s[i])
}

/// What a signed decimal literal parses to: `None` for an empty or
/// non-digit body and for a value outside the signed 64-bit range.
pub open spec fn parse_digits_signed(ds: Seq<char>, neg: bool) -> Option<i64> {
    if ds.len() == 0 || !all_digits(ds) {
        Option::None
    } else if neg {
        if -digits_val(ds) >= i64::MIN {
            Option::Some((-digits_val(ds)) as i64)
        } else {
            Option::None
        }
    } else {
        if digits_val(ds) <= i64::MAX {
            Option::Some(digits_val(ds) as i64)
        } else {
            Option::None
        }
    }
}

pub open spec fn spec_parse_i64(s: Seq<char>) -> Option<i64> {
    if s.len() > 0 && (s[0] == '-' || s[0] == '+') {
        parse_digits_signed(s.skip(1), s[0] == '-')
    } else {
        parse_digits_signed(s, false)
    }
}

/// What a duration literal parses to: a count followed by a one-letter
/// unit (`d`, `h` or `m`), `None` for any other text.
pub open spec fn spec_parse_duration(s: Seq<char>) -> Option<DurationSpan> {
    if s.last() == 'd' {
        match spec_parse_i64(s.drop_last()) {
            Option::Some(n) => Option::Some(DurationSpan { count: n, unit: TimeUnit::Days }),
            Option::None => Option::None,
        }
    } else if s.last() == 'h' {
        match spec_parse_i64(s.drop_last()) {
            Option::Some(n) => Option::Some(DurationSpan { count: n, unit: TimeUnit::Hours }),
            Option::None => Option::None,
        }
    } else if s.last() == 'm' {
        match spec_parse_i64(s.drop_last()) {
            Option::Some(n) => Option::Some(DurationSpan { count: n, unit: TimeUnit::Minutes }),
            Option::None => Option::None,
        }
    } else {
        Option::None
    }
}

proof fn lemma_digits_nonneg(s: Seq<char>)
    requires
        all_digits(s),
    ensures
        digits_val(s) >= 0,
    decreases s.len(),
{
    if s.len() > 0 {
        assert(all_digits(s.drop_last())) by {
            assert(forall|i: int| 0 <= i < s.len() - 1 ==> s.drop_last()[i] == s[i]);
        }
        lemma_digits_nonneg(s.drop_last());
        assert(is_digit(s.last()));
    }
}

/// Reading more digits never lowers the value.
proof fn lemma_digits_extend(s: Seq<char>, k: int)
    requires
        all_digits(s),
        0 <= k <= s.len(),
    ensures
        digits_val(s) >= digits_val(s.subrange(0, k)),
    decreases s.len() - k,
{
    if k == s.len() {
        assert(s.subrange(0, k) =~= s);
    } else {
        lemma_digits_extend(s, k + 1);
        let longer = s.subrange(0, k + 1);
        assert(longer.drop_last() =~= s.subrange(0, k));
        assert(all_digits(s.subrange(0, k))) by {
            assert(forall|i: int| 0 <= i < k ==> s.subrange(0, k)[i] == s[i]);
        }
        lemma_digits_nonneg(s.subrange(0, k));
        assert(is_digit(longer.last()));
        assert(digits_val(longer) >= digits_val(s.subrange(0, k)));
    }
}

/// Parse a signed decimal literal, rejecting any text that is not a
/// (possibly signed) digit string and any value outside the 64-bit range.
pub fn parse_i64(s: &str) -> (r: Option<i64>)
    ensures
        r == spec_parse_i64(s@),
{
    let n = s.unicode_len();
    let mut start: usize = 0;
    let mut neg: bool = false;
    if n > 0 {
        let c0 = s.get_char(0);
        if c0 == '-' || c0 == '+' {
            neg = c0 == '-';
            start = 1;
        }
    }
    let ghost ds = if start == 1 {
        s@.skip(1)
    } else {
        s@
    };
    proof {
        assert(spec_parse_i64(s@) == parse_digits_signed(ds, neg));
    }
    if start >= n {
        proof {
            assert(ds.len() == 0);
        }
        return None;
    }
    let mut acc: u64 = 0;
    let mut j: usize = start;
    while j < n
        invariant
            start <= j <= n,
            n == s@.len(),
            start == 0 || start == 1,
            (start == 1) ==> ds =~= s@.skip(1),
            (start == 0) ==> ds == s@,
            spec_parse_i64(s@) == parse_digits_signed(ds, neg),
            all_digits(s@.subrange(start as int, j as int)),
            acc as int == digits_val(s@.subrange(start as int, j as int)),
        decreases n - j,
    {
        let c = s.get_char(j);
        let cv = c as u32;
        proof {
            assert(ds =~= s@.subrange(start as int, n as int));
            assert(forall|i: int|
                0 <= i < ds.len() ==> ds[i] == s@[start as int + i]);
        }
        if cv < 48 || cv > 57 {
            proof {
                assert(ds[j as int - start as int] == s@[j as int]);
                assert(!is_digit(s@[j as int]));
                assert(!all_digits(ds));
            }
            return None;
        }
        let d = (cv - 48) as u64;
        if acc > (u64::MAX - d) / 10 {
            proof {
                let m: int = u64::MAX as int;
                let a: int = acc as int;
                let dd: int = d as int;
                assert(10 * a + dd > m) by (nonlinear_arith)
                    requires
                        a > (m - dd) / 10,
                        0 <= dd <= 9,
                        m == 0xffff_ffff_ffff_ffff,
                ;
                if all_digits(ds) {
                    let longer = s@.subrange(start as int, j as int + 1);
                    assert(longer.drop_last() =~= s@.subrange(start as int, j as int));
                    assert(longer.last() == s@[j as int]);
                    assert(digits_val(longer) == 10 * a + dd);
                    assert(all_digits(s@.subrange(start as int, n as int)));
                    lemma_digits_extend(s@.subrange(start as int, n as int), j as int + 1
                        - start as int);
                    assert(s@.subrange(start as int, n as int).subrange(
                        0,
                        j as int + 1 - start as int,
                    ) =~= longer);
                    assert(digits_val(ds) > m);
                }
            }
            return None;
        }
        acc = acc * 10 + d;
        proof {
            let longer = s@.subrange(start as int, j as int + 1);
            assert(longer.drop_last() =~= s@.subrange(start as int, j as int));
            assert(longer.last() == s@[j as int]);
        }
        j += 1;
    }
    proof {
        assert(s@.subrange(start as int, n as int) =~= ds);
        assert(all_digits(ds));
        assert(acc as int == digits_val(ds));
        assert(ds.len() > 0);
    }
    if neg {
        if acc > 9223372036854775808u64 {
            return None;
        }
        if acc == 9223372036854775808u64 {
            Some(i64::MIN)
        } else {
            Some(-(acc as i64))
        }
    } else {
        if acc > 9223372036854775807u64 {
            return None;
        }
        Some(acc as i64)
    }
}

/// Parse a duration such as `1d`, `5h` or `30m`: a signed count and a
/// one-letter unit, refusing any other text.
pub fn parse_duration(s: &str) -> (r: Option<DurationSpan>)
    requires
        s@.len() > 0,
    ensures
        r == spec_parse_duration(s@),
{
    let n = s.unicode_len();
    let unit_char = s.get_char(n - 1);
    let unit = if unit_char == 'd' {
        TimeUnit::Days
    } else if unit_char == 'h' {
        TimeUnit::Hours
    } else if unit_char == 'm' {
        TimeUnit::Minutes
    } else {
        return None;
    };
    let body = s.substring_char(0, n - 1);
    proof {
        assert(body@ =~= s@.drop_last());
    }
    match parse_i64(body) {
        Some(count) => Some(DurationSpan { count, unit }),
        None => None,
    }
}

} // verus!
