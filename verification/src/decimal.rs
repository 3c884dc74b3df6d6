//! Decimal text for signed 64-bit integers: the encoder used by dump and
//! the exact decoder used by apply.

use vstd::prelude::*;

verus! {

/// The ten ASCII digit characters.
pub open spec fn is_digit_char(c: char) -> bool {
    48 <= c as int <= 57
}

/// Numeric value of a digit character.
pub open spec fn digit_value(c: char) -> int {
    c as int - 48
}

/// Digit character of a value between 0 and 9.
pub open spec fn digit_char(d: int) -> char {
    if d == 0 {
        '0'
    } else if d == 1 {
        '1'
    } else if d == 2 {
        '2'
    } else if d == 3 {
        '3'
    } else if d == 4 {
        '4'
    } else if d == 5 {
        '5'
    } else if d == 6 {
        '6'
    } else if d == 7 {
        '7'
    } else if d == 8 {
        '8'
    } else {
        '9'
    }
}

pub open spec fn all_digits(s: Seq<char>) -> bool {
    forall|i: int| 0 <= i < s.len() ==> is_digit_char(#[trigger] s[i])
}

/// Value of a sequence of digit characters read in base ten.
pub open spec fn digits_value(s: Seq<char>) -> int
    decreases s.len(),
{
    if s.len() == 0 {
        0
    } else {
        digits_value(s.drop_last()) * 10 + digit_value(s.last())
    }
}

/// The decimal digit string of a nonnegative integer, without sign and
/// without leading zeros.
pub open spec fn digits_of(n: int) -> Seq<char>
    decreases n,
{
    if n < 10 {
        seq![digit_char(n)]
    } else {
        digits_of(n / 10).push(digit_char(n % 10))
    }
}

/// The textual form of a signed integer: a minus sign for a negative
/// value, then its digits.
pub open spec fn int_literal_of(v: int) -> Seq<char> {
    if v < 0 {
        seq!['-'] + digits_of(-v)
    } else {
        digits_of(v)
    }
}

/// An integer literal as the decoder accepts it: an optional sign, then
/// one or more digit characters.
pub open spec fn is_int_literal(s: Seq<char>) -> bool {
    s.len() > 0 && if s[0] == '-' || s[0] == '+' {
        s.len() > 1 && all_digits(s.skip(1))
    } else {
        all_digits(s)
    }
}

/// The value an integer literal denotes.
pub open spec fn int_literal_value(s: Seq<char>) -> int {
    if s.len() > 0 && s[0] == '-' {
        -digits_value(s.skip(1))
    } else if s.len() > 0 && s[0] == '+' {
        digits_value(s.skip(1))
    } else {
        digits_value(s)
    }
}

/// A literal that denotes a signed 64-bit value.
pub open spec fn is_i64_literal(s: Seq<char>) -> bool {
    is_int_literal(s) && i64::MIN <= int_literal_value(s) <= i64::MAX
}

pub proof fn lemma_digits_value_nonneg(s: Seq<char>)
    requires
        all_digits(s),
    ensures
        digits_value(s) >= 0,
    decreases s.len(),
{
    if s.len() > 0 {
        assert(all_digits(s.drop_last()));
        lemma_digits_value_nonneg(s.drop_last());
        assert(is_digit_char(s.last()));
    }
}

/// Appending further digits can only grow the denoted value.
pub proof fn lemma_digits_value_extend(t: Seq<char>, u: Seq<char>)
    requires
        all_digits(t),
        all_digits(u),
    ensures
        digits_value(t) <= digits_value(t + u),
    decreases u.len(),
{
    if u.len() == 0 {
        assert(t + u =~= t);
    } else {
        assert(all_digits(u.drop_last()));
        lemma_digits_value_extend(t, u.drop_last());
        assert((t + u).drop_last() =~= t + u.drop_last());
        assert(all_digits(t + u.drop_last()));
        lemma_digits_value_nonneg(t + u.drop_last());
        assert(is_digit_char((t + u).last()));
    }
}

/// The digit string of a nonnegative integer is made of digits and reads
/// back to the same value.
pub proof fn lemma_digits_of_correct(n: int)
    requires
        n >= 0,
    ensures
        all_digits(digits_of(n)),
        digits_value(digits_of(n)) == n,
        digits_of(n).len() >= 1,
    decreases n,
{
    if n < 10 {
        let s = digits_of(n);
        assert(s =~= seq![digit_char(n)]);
        assert(s.len() == 1);
        assert(s.last() == digit_char(n));
        assert(s.drop_last() =~= Seq::<char>::empty());
        assert(digits_value(s.drop_last()) == 0);
        assert(digits_value(s) == digit_value(digit_char(n)));
    } else {
        lemma_digits_of_correct(n / 10);
        let s = digits_of(n / 10).push(digit_char(n % 10));
        assert(s.drop_last() =~= digits_of(n / 10));
        assert(digit_value(digit_char(n % 10)) == n % 10);
        assert(digits_value(s) == (n / 10) * 10 + n % 10);
    }
}

/// Every character of an integer literal the encoder writes is a digit
/// or the minus sign.
pub proof fn lemma_int_literal_chars(v: int, i: int)
    requires
        0 <= i < int_literal_of(v).len(),
    ensures
        is_digit_char(int_literal_of(v)[i]) || int_literal_of(v)[i] == '-',
{
    if v < 0 {
        lemma_digits_of_correct(-v);
        if i > 0 {
            assert(int_literal_of(v)[i] == digits_of(-v)[i - 1]);
        }
    } else {
        lemma_digits_of_correct(v);
    }
}

/// What the encoder writes, the decoder reads back to the same value.
pub proof fn lemma_int_literal_round_trip(v: int)
    requires
        i64::MIN <= v <= i64::MAX,
    ensures
        is_i64_literal(int_literal_of(v)),
        int_literal_value(int_literal_of(v)) == v,
{
    if v < 0 {
        lemma_digits_of_correct(-v);
        let s = seq!['-'] + digits_of(-v);
        assert(s[0] == '-');
        assert(s.skip(1) =~= digits_of(-v));
    } else {
        lemma_digits_of_correct(v);
        let s = digits_of(v);
        assert(is_digit_char(s[0]));
        assert(s[0] != '-' && s[0] != '+');
    }
}

fn digit_char_exec(d: u64) -> (c: char)
    requires
        d < 10,
    ensures
        c == digit_char(d as int),
{
    if d == 0 {
        '0'
    } else if d == 1 {
        '1'
    } else if d == 2 {
        '2'
    } else if d == 3 {
        '3'
    } else if d == 4 {
        '4'
    } else if d == 5 {
        '5'
    } else if d == 6 {
        '6'
    } else if d == 7 {
        '7'
    } else if d == 8 {
        '8'
    } else {
        '9'
    }
}

fn push_digits(n: u64, out: &mut Vec<char>)
    ensures
        final(out)@ == old(out)@ + digits_of(n as int),
    decreases n,
{
    if n < 10 {
        let c = digit_char_exec(n);
        out.push(c);
        assert(out@ =~= old(out)@ + digits_of(n as int));
    } else {
        push_digits(n / 10, out);
        let c = digit_char_exec(n % 10);
        out.push(c);
        assert(out@ =~= old(out)@ + digits_of(n as int));
    }
}

/// Renders a signed 64-bit value as decimal text, as dump writes it.
pub fn int_to_chars(v: i64) -> (r: Vec<char>)
    ensures
        r@ == int_literal_of(v as int),
{
    let mut out: Vec<char> = Vec::new();
    if v < 0 {
        out.push('-');
        let mag: u64 = ((-(v + 1)) as u64) + 1;
        assert(mag as int == -(v as int));
        push_digits(mag, &mut out);
        assert(out@ =~= seq!['-'] + digits_of(-(v as int)));
    } else {
        push_digits(v as u64, &mut out);
        assert(out@ =~= digits_of(v as int));
    }
    out
}

/// Decodes decimal text to a signed 64-bit value. Returns the value
/// exactly when the text is an integer literal in range, as the stream
/// decoder demands of every field.
pub fn parse_i64(s: &Vec<char>) -> (r: Option<i64>)
    ensures
        (r is Some) == is_i64_literal(s@),
        r matches Some(v) ==> v as int == int_literal_value(s@),
{
    let n = s.len();
    if n == 0 {
        return None;
    }
    let c0: char = s[0];
    let neg = c0 == '-';
    let signed = neg || c0 == '+';
    let start: usize = if signed {
        1
    } else {
        0
    };
    if start >= n {
        // a sign alone is not a literal
        return None;
    }
    let ghost body = s@.subrange(start as int, n as int);
    let mut i: usize = start;
    let mut acc: u64 = 0;
    while i < n
        invariant
            start <= i <= n,
            n == s@.len(),
            start == if signed { 1int } else { 0int },
            signed == (s@[0] == '-' || s@[0] == '+'),
            neg == (s@[0] == '-'),
            body == s@.subrange(start as int, n as int),
            all_digits(s@.subrange(start as int, i as int)),
            acc as int == digits_value(s@.subrange(start as int, i as int)),
        decreases n - i,
    {
        let c: char = s[i];
        if !(c >= '0' && c <= '9') {
            proof {
                assert(s@[i as int] == body[i - start]);
                assert(!is_digit_char(body[i - start]));
                assert(!all_digits(body));
                if signed {
                    assert(body =~= s@.skip(1));
                }
            }
            return None;
        }
        let d: u64 = ((c as u32) - 48) as u64;
        let ghost pre = s@.subrange(start as int, i as int);
        let ghost cur = s@.subrange(start as int, i as int + 1);
        proof {
            assert(cur.drop_last() =~= pre);
            assert(cur.last() == s@[i as int]);
            assert(is_digit_char(cur.last()));
            assert(digits_value(cur) == digits_value(pre) * 10 + digit_value(cur.last()));
        }
        let step = match acc.checked_mul(10) {
            Some(a10) => a10.checked_add(d),
            None => None,
        };
        match step {
            Some(next) => {
                acc = next;
            },
            None => {
                proof {
                    // the digits read so far already exceed every 64-bit
                    // value, so no suffix can bring the literal in range
                    assert(digits_value(cur) > u64::MAX);
                    if is_i64_literal(s@) {
                        if signed {
                            assert(body =~= s@.skip(1));
                        }
                        assert(all_digits(body));
                        assert forall|k: int| 0 <= k < cur.len() implies is_digit_char(
                            cur[k],
                        ) by {
                            assert(cur[k] == body[k]);
                        }
                        let tail = s@.subrange(i as int + 1, n as int);
                        assert forall|k: int| 0 <= k < tail.len() implies is_digit_char(
                            tail[k],
                        ) by {
                            assert(tail[k] == body[k + (i + 1 - start)]);
                        }
                        assert(cur + tail =~= body);
                        lemma_digits_value_extend(cur, tail);
                        assert(digits_value(body) > u64::MAX);
                        if neg {
                            assert(int_literal_value(s@) == -digits_value(body));
                            assert(int_literal_value(s@) < i64::MIN);
                        } else {
                            if signed {
                                assert(int_literal_value(s@) == digits_value(body));
                            } else {
                                assert(body =~= s@);
                            }
                            assert(int_literal_value(s@) > i64::MAX);
                        }
                    }
                }
                return None;
            },
        }
        i = i + 1;
    }
    proof {
        assert(s@.subrange(start as int, n as int) =~= body);
        assert(all_digits(body));
        assert(acc as int == digits_value(body));
        if signed {
            assert(body =~= s@.skip(1));
        } else {
            assert(body =~= s@);
        }
        assert(is_int_literal(s@));
    }
    if neg {
        if acc > 9223372036854775808u64 {
            proof {
                assert(int_literal_value(s@) == -digits_value(body));
                assert(int_literal_value(s@) < i64::MIN);
            }
            None
        } else if acc == 9223372036854775808u64 {
            assert(int_literal_value(s@) == i64::MIN);
            Some(i64::MIN)
        } else {
            Some(-(acc as i64))
        }
    } else {
        if acc > 9223372036854775807u64 {
            proof {
                assert(int_literal_value(s@) == digits_value(body));
                assert(int_literal_value(s@) > i64::MAX);
            }
            None
        } else {
            Some(acc as i64)
        }
    }
}

} // verus!
