//! Decimal reading and rendering at the character level: magnitudes of digit
//! runs, the clamped integer-literal value used by the lexer, the `usize`
//! parse used by `slice` arguments, and decimal rendering of `i64`.

use vstd::prelude::*;
use vstd::string::StrSliceExecFns;
use crate::text::push_char;

verus! {

/// `c` is a decimal digit.
pub open spec fn is_ascii_digit_c(c: char) -> bool {
    48 <= c as u32 <= 57
}

/// Numeric value of a digit character.
pub open spec fn digit_val(c: char) -> int {
    c as u32 - 48
}

/// Every character of `s` is a decimal digit.
pub open spec fn all_digits(s: Seq<char>) -> bool {
    forall|i: int| 0 <= i < s.len() ==> is_ascii_digit_c(s[i])
}

/// Value of a digit run read as a decimal number (0 when empty).
pub open spec fn dec_mag(s: Seq<char>) -> int
    decreases s.len(),
{
    if s.len() == 0 {
        0
    } else {
        dec_mag(s.take(s.len() - 1)) * 10 + digit_val(s[s.len() - 1])
    }
}

pub proof fn lemma_dec_mag_nonneg(s: Seq<char>)
    requires
        all_digits(s),
    ensures
        dec_mag(s) >= 0,
    decreases s.len(),
{
    if s.len() > 0 {
        assert(all_digits(s.take(s.len() - 1)));
        lemma_dec_mag_nonneg(s.take(s.len() - 1));
    }
}

/// Value of an integer literal: an optional leading minus and a digit run,
/// clamped to zero when it does not fit an `i64`.
pub open spec fn int_token_val(text: Seq<char>) -> i64 {
    let neg = text.len() > 0 && text[0] == '-';
    let ds = if neg {
        text.subrange(1, text.len() as int)
    } else {
        text
    };
    let m = dec_mag(ds);
    let v: int = if neg {
        -m
    } else {
        m
    };
    if -0x8000_0000_0000_0000 <= v <= 0x7fff_ffff_ffff_ffff {
        v as i64
    } else {
        0
    }
}

/// What `str::parse::<usize>` accepts: an optional leading plus, then one or
/// more digits, with a value that fits.
pub open spec fn parse_usize_m(s: Seq<char>) -> Option<int> {
    let ds = if s.len() > 0 && s[0] == '+' {
        s.subrange(1, s.len() as int)
    } else {
        s
    };
    if ds.len() > 0 && all_digits(ds) && dec_mag(ds) <= usize::MAX {
        Some(dec_mag(ds))
    } else {
        None
    }
}

/// Decimal magnitude of the digit run `s[from..to]`; `None` when the value
/// exceeds `cap`.
pub(crate) fn dec_mag_upto(s: &str, from: usize, to: usize, cap: u128) -> (r: Option<u128>)
    requires
        from <= to <= s@.len(),
        forall|i: int| from <= i < to ==> is_ascii_digit_c(s@[i]),
        cap <= 0xffff_ffff_ffff_ffff_ffff_ffff,
    ensures
        match r {
            Some(m) => m == dec_mag(s@.subrange(from as int, to as int)) && m <= cap,
            None => dec_mag(s@.subrange(from as int, to as int)) > cap,
        },
{
    let n = s.unicode_len();
    let mut mag: u128 = 0;
    let mut over: bool = false;
    let mut j: usize = from;
    while j < to
        invariant
            n == s@.len(),
            from <= j <= to <= n,
            cap <= 0xffff_ffff_ffff_ffff_ffff_ffff,
            forall|i: int| from <= i < to ==> is_ascii_digit_c(s@[i]),
            !over ==> mag == dec_mag(s@.subrange(from as int, j as int)) && mag <= cap,
            over ==> dec_mag(s@.subrange(from as int, j as int)) > cap,
        decreases to - j,
    {
        let c = s.get_char(j);
        let d: u128 = (c as u32 - 48) as u128;
        proof {
            let pre = s@.subrange(from as int, j as int);
            let pre2 = s@.subrange(from as int, j + 1);
            assert(pre2.take(pre2.len() - 1) =~= pre);
            assert(pre2[pre2.len() - 1] == s@[j as int]);
            assert(dec_mag(pre2) == dec_mag(pre) * 10 + digit_val(s@[j as int]));
            assert(all_digits(pre));
            lemma_dec_mag_nonneg(pre);
        }
        if !over {
            let t: u128 = mag * 10 + d;
            if t > cap {
                over = true;
            } else {
                mag = t;
            }
        }
        j += 1;
    }
    if over {
        None
    } else {
        Some(mag)
    }
}

/// The `usize` parse used by `slice` arguments.
pub fn parse_usize_str(s: &str) -> (r: Option<usize>)
    ensures
        match r {
            Some(u) => parse_usize_m(s@) == Some(u as int),
            None => parse_usize_m(s@) is None,
        },
{
    let n = s.unicode_len();
    let start: usize = if n > 0 && s.get_char(0) == '+' {
        1
    } else {
        0
    };
    if start == n {
        return None;
    }
    let ghost ds = if s@.len() > 0 && s@[0] == '+' {
        s@.subrange(1, s@.len() as int)
    } else {
        s@
    };
    proof {
        if start == 1 {
            assert(ds =~= s@.subrange(1, n as int));
        } else {
            assert(ds =~= s@.subrange(0, n as int));
        }
    }
    let mut j: usize = start;
    while j < n
        invariant
            n == s@.len(),
            start <= j <= n,
            start <= 1,
            ds == s@.subrange(start as int, n as int),
            ds == (if s@.len() > 0 && s@[0] == '+' {
                s@.subrange(1, s@.len() as int)
            } else {
                s@
            }),
            ds.len() > 0,
            forall|i: int| start <= i < j ==> is_ascii_digit_c(s@[i]),
        decreases n - j,
    {
        let u = s.get_char(j) as u32;
        if !(48 <= u && u <= 57) {
            proof {
                assert(ds[j - start] == s@[j as int]);
                assert(!all_digits(ds));
            }
            return None;
        }
        j += 1;
    }
    proof {
        assert(forall|i: int| 0 <= i < ds.len() ==> ds[i] == s@[i + start] && is_ascii_digit_c(#[trigger] ds[i]));
        assert(all_digits(ds));
    }
    match dec_mag_upto(s, start, n, usize::MAX as u128) {
        Some(m) => {
            proof {
                assert(ds =~= s@.subrange(start as int, n as int));
            }
            Some(m as usize)
        },
        None => {
            proof {
                assert(ds =~= s@.subrange(start as int, n as int));
            }
            None
        },
    }
}

/// Digit character for a value in 0..=9.
pub open spec fn dec_digit_char(d: int) -> char {
    ((48 + d) as u8) as char
}

/// Decimal rendering of a non-negative number.
pub open spec fn u_dec_str(n: int) -> Seq<char>
    decreases n,
{
    if n < 10 {
        seq![dec_digit_char(n)]
    } else {
        u_dec_str(n / 10).push(dec_digit_char(n % 10))
    }
}

/// Decimal rendering of a signed number.
pub open spec fn i64_str(n: int) -> Seq<char> {
    if n >= 0 {
        u_dec_str(n)
    } else {
        seq!['-'] + u_dec_str(-n)
    }
}

/// Decimal rendering of an `i64`, as `i64::to_string` produces it.
pub fn int_to_string(n: i64) -> (r: String)
    ensures
        r@ == i64_str(n as int),
{
    let neg = n < 0;
    let mut mag: u64 = if n >= 0 {
        n as u64
    } else {
        (-(n as i128)) as u64
    };
    let ghost mag0 = mag as int;
    let mut digits: Vec<char> = Vec::new();
    if mag == 0 {
        digits.push('0');
        proof {
            assert(u_dec_str(0) =~= digits@);
        }
    } else {
        while mag > 0
            invariant
                mag >= 0,
                mag > 0 ==> u_dec_str(mag0) == u_dec_str(mag as int) + digits@,
                mag == 0 ==> digits@ == u_dec_str(mag0),
            decreases mag,
        {
            let d: u64 = mag % 10;
            let c: char = (48 + d as u8) as char;
            let next: u64 = mag / 10;
            proof {
                assert(c == dec_digit_char(d as int));
                if next > 0 {
                    assert(u_dec_str(mag as int) == u_dec_str(next as int).push(dec_digit_char(d as int)));
                    assert(u_dec_str(next as int).push(c) + digits@ =~= u_dec_str(next as int) + (seq![c] + digits@));
                } else {
                    assert(mag < 10);
                    assert(u_dec_str(mag as int) =~= seq![c]);
                    assert(seq![c] + digits@ =~= u_dec_str(mag as int) + digits@);
                }
            }
            digits.insert(0, c);
            mag = next;
        }
    }
    let mut out = String::new();
    if neg {
        push_char(&mut out, '-');
    }
    let ghost head = out@;
    let mut j: usize = 0;
    while j < digits.len()
        invariant
            j <= digits.len(),
            out@ == head + digits@.take(j as int),
        decreases digits.len() - j,
    {
        push_char(&mut out, digits[j]);
        proof {
            assert(head + digits@.take(j + 1) =~= (head + digits@.take(j as int)).push(digits@[j as int]));
        }
        j += 1;
    }
    proof {
        assert(digits@.take(digits@.len() as int) =~= digits@);
        if neg {
            assert(head =~= Seq::empty().push('-'));
            assert(head + digits@ =~= seq!['-'] + u_dec_str(-(n as int)));
        } else {
            assert(head + digits@ =~= digits@);
        }
    }
    out
}

} // verus!
