//! Decimal text: rendering integers as base-10 strings and reading them back.
//!
//! Tab references, array indices and scalar tokens all travel as decimal
//! text, so both directions carry exact specifications, plus the round-trip
//! lemma that ties them together.

use vstd::prelude::*;
use vstd::string::StrSliceExecFns;
use vstd::string::StringExecFns;

verus! {

/// The digit character for a value in `0..10`.
pub open spec fn digit_char(d: int) -> char {
    if d == 0 {
        '0'
    } else if d == 1 {
        '1'
    } else if d == 2 {
        '2'
    } else if d == 3 {
        '3'
    } else if d == 4 {
        '4'
    } else if d == 5 {
        '5'
    } else if d == 6 {
        '6'
    } else if d == 7 {
        '7'
    } else if d == 8 {
        '8'
    } else {
        '9'
    }
}

/// The decimal text of a natural number, without sign or leading zeros.
pub open spec fn dec_nat(n: nat) -> Seq<char>
    decreases n,
{
    if n < 10 {
        seq![digit_char(n as int)]
    } else {
        dec_nat(n / 10).push(digit_char((n % 10) as int))
    }
}

/// The decimal text of an integer: a `-` sign for negatives, then digits.
pub open spec fn dec_int(i: int) -> Seq<char> {
    if i < 0 {
        seq!['-'] + dec_nat((-i) as nat)
    } else {
        dec_nat(i as nat)
    }
}

pub open spec fn is_digit(c: char) -> bool {
    48 <= c as u32 <= 57
}

/// The numeric value of a digit character.
pub open spec fn digit_val(c: char) -> int {
    c as u32 - 48
}

pub open spec fn all_digits(s: Seq<char>) -> bool {
    forall|i: int| 0 <= i < s.len() ==> is_digit(#[trigger] s[i])
}

/// The value of a non-empty digit string, most significant digit first.
pub open spec fn digits_val(s: Seq<char>) -> nat
    decreases s.len(),
{
    if s.len() == 0 {
        0
    } else {
        digits_val(s.drop_last()) * 10 + (if is_digit(s.last()) {
            digit_val(s.last()) as nat
        } else {
            0
        })
    }
}

/// The integer denoted by a string of an optional sign and base-10 digits,
/// or `None` where the string has any other shape.
pub open spec fn int_of_text(s: Seq<char>) -> Option<int> {
    if s.len() >= 2 && (s[0] == '+' || s[0] == '-') && all_digits(s.drop_first()) {
        if s[0] == '-' {
            Some(-(digits_val(s.drop_first()) as int))
        } else {
            Some(digits_val(s.drop_first()) as int)
        }
    } else if s.len() >= 1 && all_digits(s) {
        Some(digits_val(s) as int)
    } else {
        None
    }
}

/// What `i64` parsing accepts: the signed grammar, within the type's range.
pub open spec fn i64_of_text(s: Seq<char>) -> Option<int> {
    match int_of_text(s) {
        Some(v) => if i64::MIN <= v <= i64::MAX {
            Some(v)
        } else {
            None
        },
        None => None,
    }
}

/// What `usize` parsing accepts: an optional `+`, digits, within range.
pub open spec fn usize_of_text(s: Seq<char>) -> Option<int> {
    let body = if s.len() >= 1 && s[0] == '+' {
        s.drop_first()
    } else {
        s
    };
    if body.len() >= 1 && all_digits(body) && digits_val(body) <= usize::MAX {
        Some(digits_val(body) as int)
    } else {
        None
    }
}

/// A one-character string slice for a digit value.
fn digit_str(d: u64) -> (s: &'static str)
    requires
        d < 10,
    ensures
        s@ =~= seq![digit_char(d as int)],
{
    proof {
        reveal_strlit("0");
        reveal_strlit("1");
        reveal_strlit("2");
        reveal_strlit("3");
        reveal_strlit("4");
        reveal_strlit("5");
        reveal_strlit("6");
        reveal_strlit("7");
        reveal_strlit("8");
        reveal_strlit("9");
    }
    if d == 0 {
        "0"
    } else if d == 1 {
        "1"
    } else if d == 2 {
        "2"
    } else if d == 3 {
        "3"
    } else if d == 4 {
        "4"
    } else if d == 5 {
        "5"
    } else if d == 6 {
        "6"
    } else if d == 7 {
        "7"
    } else if d == 8 {
        "8"
    } else {
        "9"
    }
}

/// Appends the decimal text of `n` to `out`.
pub fn push_dec_u64(out: &mut String, n: u64)
    ensures
        final(out)@ == old(out)@ + dec_nat(n as nat),
    decreases n,
{
    if n >= 10 {
        push_dec_u64(out, n / 10);
    }
    let ds = digit_str(n % 10);
    out.append(ds);
    proof {
        if n < 10 {
            assert(final(out)@ =~= old(out)@ + dec_nat(n as nat));
        } else {
            assert(final(out)@ =~= old(out)@ + dec_nat(n as nat));
        }
    }
}

/// Renders a signed integer, matching `dec_int`.
pub fn i64_to_string(v: i64) -> (r: String)
    ensures
        r@ == dec_int(v as int),
{
    let mut out = String::new();
    if v >= 0 {
        push_dec_u64(&mut out, v as u64);
        proof {
            assert(out@ =~= dec_int(v as int));
        }
    } else {
        out.append("-");
        let mag: u64 = (-(v as i128)) as u64;
        push_dec_u64(&mut out, mag);
        proof {
            reveal_strlit("-");
            assert(out@ =~= dec_int(v as int));
        }
    }
    out
}

fn digit_of_char(c: char) -> (r: Option<u64>)
    ensures
        r matches Some(d) ==> is_digit(c) && d == digit_val(c) && d < 10,
        r is None ==> !is_digit(c),
{
    let code = c as u32;
    if 48 <= code && code <= 57 {
        Some((code - 48) as u64)
    } else {
        None
    }
}

/// Appending digits never shrinks the value a digit string denotes.
proof fn lemma_digits_val_prefix(s: Seq<char>, i: int)
    requires
        0 <= i <= s.len(),
    ensures
        digits_val(s.subrange(0, i)) <= digits_val(s),
    decreases s.len() - i,
{
    if i < s.len() {
        let t = s.subrange(0, i + 1);
        assert(t.drop_last() =~= s.subrange(0, i));
        lemma_digits_val_prefix(s, i + 1);
        assert(s.subrange(0, s.len() as int) =~= s);
    } else {
        assert(s.subrange(0, i) =~= s);
    }
}

/// Reads an unbroken run of digits from position `from` to the end of `s`;
/// `None` where a non-digit occurs or the value exceeds `u64`.
fn parse_u64_digits(s: &str, from: usize) -> (r: Option<u64>)
    requires
        from <= s@.len(),
    ensures
        ({
            let body = s@.skip(from as int);
            match r {
                Some(v) => body.len() >= 1 && all_digits(body) && digits_val(body) == v,
                None => body.len() == 0 || !all_digits(body) || digits_val(body) > u64::MAX,
            }
        }),
{
    let n = s.unicode_len();
    if from >= n {
        return None;
    }
    let ghost body = s@.skip(from as int);
    let mut acc: u64 = 0;
    let mut i: usize = from;
    while i < n
        invariant
            from <= i <= n,
            n == s@.len(),
            body == s@.skip(from as int),
            acc == digits_val(body.subrange(0, i - from)),
            all_digits(body.subrange(0, i - from)),
        decreases n - i,
    {
        let c = s.get_char(i);
        proof {
            assert(body[i - from] == s@[i as int]);
        }
        match digit_of_char(c) {
            None => {
                proof {
                    assert(!is_digit(body[i - from]));
                }
                return None;
            },
            Some(d) => {
                let next = match acc.checked_mul(10) {
                    Some(m) => m.checked_add(d),
                    None => None,
                };
                match next {
                    Some(v) => {
                        proof {
                            let pre = body.subrange(0, i - from);
                            let pre2 = body.subrange(0, i + 1 - from);
                            assert(pre2.drop_last() =~= pre);
                            assert(pre2.last() == body[i - from]);
                        }
                        acc = v;
                        i += 1;
                    },
                    None => {
                        // The prefix already exceeds u64, so the whole run does.
                        proof {
                            let pre = body.subrange(0, i - from);
                            let pre2 = body.subrange(0, i + 1 - from);
                            assert(pre2.drop_last() =~= pre);
                            assert(pre2.last() == body[i - from]);
                            assert(digits_val(pre2) > u64::MAX);
                            if all_digits(body) {
                                lemma_digits_val_prefix(body, i + 1 - from);
                            }
                        }
                        return None;
                    },
                }
            },
        }
    }
    proof {
        assert(body.subrange(0, n - from) =~= body);
    }
    Some(acc)
}

/// Parses a signed base-10 integer, exactly as `i64_of_text` describes.
pub fn parse_i64(s: &str) -> (r: Option<i64>)
    ensures
        match r {
            Some(v) => i64_of_text(s@) == Some(v as int),
            None => i64_of_text(s@) is None,
        },
{
    let n = s.unicode_len();
    if n == 0 {
        return None;
    }
    let c0 = s.get_char(0);
    let (neg, start): (bool, usize) = if c0 == '-' {
        (true, 1)
    } else if c0 == '+' {
        (false, 1)
    } else {
        (false, 0)
    };
    proof {
        if start == 1 {
            assert(s@.skip(1) =~= s@.drop_first());
        } else {
            assert(s@.skip(0) =~= s@);
        }
    }
    match parse_u64_digits(s, start) {
        None => None,
        Some(mag) => {
            if neg {
                if mag <= 9223372036854775807u64 {
                    Some(-(mag as i64))
                } else if mag == 9223372036854775808u64 {
                    Some(i64::MIN)
                } else {
                    None
                }
            } else {
                if mag <= 9223372036854775807u64 {
                    Some(mag as i64)
                } else {
                    None
                }
            }
        },
    }
}

/// Parses an unsigned base-10 integer, exactly as `usize_of_text` describes.
pub fn parse_usize(s: &str) -> (r: Option<usize>)
    ensures
        match r {
            Some(v) => usize_of_text(s@) == Some(v as int),
            None => usize_of_text(s@) is None,
        },
{
    let n = s.unicode_len();
    if n == 0 {
        return None;
    }
    let c0 = s.get_char(0);
    let start: usize = if c0 == '+' {
        1
    } else {
        0
    };
    proof {
        if start == 1 {
            assert(s@.skip(1) =~= s@.drop_first());
        } else {
            assert(s@.skip(0) =~= s@);
        }
    }
    match parse_u64_digits(s, start) {
        None => None,
        Some(mag) => {
            if mag <= usize::MAX as u64 {
                Some(mag as usize)
            } else {
                None
            }
        },
    }
}

/// Decimal rendering and parsing are inverse: the text of `n` reads back as `n`.
pub proof fn lemma_dec_nat_round_trip(n: nat)
    ensures
        dec_nat(n).len() >= 1,
        all_digits(dec_nat(n)),
        digits_val(dec_nat(n)) == n,
        dec_nat(n)[0] != '+' && dec_nat(n)[0] != '-',
    decreases n,
{
    if n < 10 {
        let c = digit_char(n as int);
        let s = dec_nat(n);
        assert(s =~= seq![c]);
        assert(s.drop_last() =~= Seq::<char>::empty());
        assert(s.last() == c);
        assert(is_digit(c) && digit_val(c) == n);
        assert(digits_val(s) == digits_val(s.drop_last()) * 10 + digit_val(c));
    } else {
        lemma_dec_nat_round_trip(n / 10);
        let pre = dec_nat(n / 10);
        let whole = pre.push(digit_char((n % 10) as int));
        assert(whole.drop_last() =~= pre);
        assert(whole.last() == digit_char((n % 10) as int));
        assert(digits_val(whole) == digits_val(pre) * 10 + (n % 10));
    }
}

} // verus!
