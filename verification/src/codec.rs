//! Decimal text primitives for the persisted event format: unsigned and
//! signed integers are written as ASCII digit runs and read back exactly.

use vstd::prelude::*;

verus! {

/// ASCII code of the minus sign.
pub const MINUS: u8 = 45;

pub open spec fn is_digit(b: u8) -> bool {
    48 <= b <= 57
}

pub open spec fn all_digits(s: Seq<u8>) -> bool {
    forall|i: int| 0 <= i < s.len() ==> is_digit(#[trigger] s[i])
}

/// The decimal digit bytes of `n`, most significant first, no leading zeros
/// (except for `n == 0`, written as a single `0`).
pub open spec fn dec_digits(n: nat) -> Seq<u8>
    decreases n,
{
    if n < 10 {
        seq![(n + 48) as u8]
    } else {
        dec_digits(n / 10).push(((n % 10) + 48) as u8)
    }
}

/// The value of a digit run, read left to right.
pub open spec fn dec_val(s: Seq<u8>) -> int
    decreases s.len(),
{
    if s.len() == 0 {
        0
    } else {
        dec_val(s.drop_last()) * 10 + s.last() - 48
    }
}

/// The decimal bytes of a signed integer: a minus sign, if any, then digits.
pub open spec fn dec_int(n: int) -> Seq<u8> {
    if n < 0 {
        seq![MINUS] + dec_digits((-n) as nat)
    } else {
        dec_digits(n as nat)
    }
}

pub proof fn lemma_dec_digits_are_digits(n: nat)
    ensures
        all_digits(dec_digits(n)),
        dec_digits(n).len() >= 1,
    decreases n,
{
    if n >= 10 {
        lemma_dec_digits_are_digits(n / 10);
    }
}

pub proof fn lemma_dec_val_of_digits(n: nat)
    ensures
        dec_val(dec_digits(n)) == n,
    decreases n,
{
    if n < 10 {
        let s = dec_digits(n);
        assert(s.len() == 1);
        assert(s.drop_last() =~= Seq::<u8>::empty());
        assert(dec_val(s.drop_last()) == 0);
        assert(s.last() == (n + 48) as u8);
        assert(dec_val(s) == n);
    } else {
        lemma_dec_val_of_digits(n / 10);
        let s = dec_digits(n);
        assert(s == dec_digits(n / 10).push(((n % 10) + 48) as u8));
        assert(s.drop_last() =~= dec_digits(n / 10));
        assert(s.last() == ((n % 10) + 48) as u8);
        assert(dec_val(s) == dec_val(s.drop_last()) * 10 + s.last() - 48);
        assert(dec_val(s) == (n / 10) * 10 + n % 10);
        assert(n == (n / 10) * 10 + n % 10) by (nonlinear_arith);
    }
}

/// Where the run of consecutive digits that starts at `pos` ends.
pub open spec fn run_end(s: Seq<u8>, pos: int) -> int
    decreases s.len() - pos,
{
    if 0 <= pos < s.len() && is_digit(s[pos]) {
        run_end(s, pos + 1)
    } else {
        pos
    }
}

pub proof fn lemma_run_end_bounds(s: Seq<u8>, pos: int)
    requires
        0 <= pos <= s.len(),
    ensures
        pos <= run_end(s, pos) <= s.len(),
        all_digits(s.subrange(pos, run_end(s, pos))),
        run_end(s, pos) < s.len() ==> !is_digit(s[run_end(s, pos)]),
    decreases s.len() - pos,
{
    if pos < s.len() && is_digit(s[pos]) {
        lemma_run_end_bounds(s, pos + 1);
        assert forall|i: int| pos <= i < run_end(s, pos) implies is_digit(s[i]) by {
            if i > pos {
                assert(is_digit(s.subrange(pos + 1, run_end(s, pos + 1))[i - pos - 1]));
            }
        }
        assert(all_digits(s.subrange(pos, run_end(s, pos)))) by {
            assert(forall|i: int| 0 <= i < run_end(s, pos) - pos
                ==> is_digit(#[trigger] s.subrange(pos, run_end(s, pos))[i]));
        }
    } else {
        assert(s.subrange(pos, pos) =~= Seq::<u8>::empty());
    }
}

/// A digit run that is followed by a non-digit (or by the end of the
/// sequence) is exactly where `run_end` stops.
pub proof fn lemma_run_end_exact(s: Seq<u8>, pos: int, e: int)
    requires
        0 <= pos <= e <= s.len(),
        all_digits(s.subrange(pos, e)),
        e < s.len() ==> !is_digit(s[e]),
    ensures
        run_end(s, pos) == e,
    decreases e - pos,
{
    if pos < e {
        assert(is_digit(s[pos])) by {
            assert(is_digit(s.subrange(pos, e)[0]));
        }
        assert(s.subrange(pos + 1, e) =~= s.subrange(pos, e).drop_first());
        lemma_run_end_exact(s, pos + 1, e);
    }
}

pub proof fn lemma_dec_val_nonneg(t: Seq<u8>)
    requires
        all_digits(t),
    ensures
        dec_val(t) >= 0,
    decreases t.len(),
{
    if t.len() > 0 {
        assert(all_digits(t.drop_last()));
        lemma_dec_val_nonneg(t.drop_last());
    }
}

/// Extending a digit run never shrinks its value.
pub proof fn lemma_dec_val_prefix(t: Seq<u8>, m: int)
    requires
        all_digits(t),
        0 <= m <= t.len(),
    ensures
        dec_val(t.take(m)) <= dec_val(t),
    decreases t.len() - m,
{
    if m < t.len() {
        assert(all_digits(t.drop_last()));
        assert(t.take(m) =~= t.drop_last().take(m));
        lemma_dec_val_prefix(t.drop_last(), m);
        lemma_dec_val_nonneg(t.drop_last());
    } else {
        assert(t.take(m) =~= t);
    }
}

/// Appends the decimal digits of `n`.
pub fn push_dec_u128(out: &mut Vec<u8>, n: u128)
    ensures
        final(out)@ == old(out)@ + dec_digits(n as nat),
    decreases n,
{
    if n < 10 {
        out.push(48 + n as u8);
        assert(final(out)@ =~= old(out)@ + dec_digits(n as nat));
    } else {
        push_dec_u128(out, n / 10);
        out.push(48 + (n % 10) as u8);
        assert(final(out)@ =~= old(out)@ + dec_digits(n as nat));
    }
}

/// Appends the decimal form of `n`, a minus sign first if it is negative.
pub fn push_dec_i64(out: &mut Vec<u8>, n: i64)
    ensures
        final(out)@ == old(out)@ + dec_int(n as int),
{
    if n < 0 {
        out.push(MINUS);
        let m: u128 = (-(n as i128)) as u128;
        assert(m == -(n as int));
        push_dec_u128(out, m);
        assert(final(out)@ =~= old(out)@ + dec_int(n as int));
    } else {
        push_dec_u128(out, n as u128);
    }
}

/// Reads the digit run that starts at `pos`; the result is exactly the run's
/// value and the position just past it, or `None` if there is no digit at
/// `pos` or the run's value does not fit.
pub fn read_u128(s: &Vec<u8>, pos: usize) -> (r: Option<(u128, usize)>)
    requires
        pos <= s.len(),
    ensures
        pos as int <= run_end(s@, pos as int) <= s@.len(),
        ({
            let e = run_end(s@, pos as int);
            let v = dec_val(s@.subrange(pos as int, e));
            if e > pos && v <= u128::MAX {
                r == Some((v as u128, e as usize))
            } else {
                r is None
            }
        }),
{
    proof {
        lemma_run_end_bounds(s@, pos as int);
    }
    let ghost e = run_end(s@, pos as int);
    let len = s.len();
    if pos == len || !(48 <= s[pos] && s[pos] <= 57) {
        return None;
    }
    let mut i = pos;
    let mut acc: u128 = 0;
    while i < len && 48 <= s[i] && s[i] <= 57
        invariant
            pos <= i <= len,
            len == s.len(),
            e == run_end(s@, pos as int) == run_end(s@, i as int),
            acc == dec_val(s@.subrange(pos as int, i as int)),
        decreases len - i,
    {
        let d = s[i] - 48;
        if acc > (u128::MAX - d as u128) / 10 {
            proof {
                let full = s@.subrange(pos as int, e);
                let next = s@.subrange(pos as int, i + 1);
                lemma_run_end_bounds(s@, i as int);
                assert(next.drop_last() =~= s@.subrange(pos as int, i as int));
                assert(dec_val(next) == acc * 10 + d);
                let x = u128::MAX - d;
                vstd::arithmetic::div_mod::lemma_fundamental_div_mod(x as int, 10);
                assert(acc * 10 >= (x / 10 + 1) * 10) by (nonlinear_arith)
                    requires acc >= x / 10 + 1;
                assert(dec_val(next) > u128::MAX);
                assert(e >= i + 1);
                assert(all_digits(full)) by {
                    lemma_run_end_bounds(s@, pos as int);
                }
                assert(next =~= full.take(i + 1 - pos));
                lemma_dec_val_prefix(full, i + 1 - pos);
            }
            return None;
        }
        proof {
            let next = s@.subrange(pos as int, i + 1);
            assert(next.drop_last() =~= s@.subrange(pos as int, i as int));
            let x = u128::MAX - d;
            vstd::arithmetic::div_mod::lemma_fundamental_div_mod(x as int, 10);
            assert(acc * 10 <= (x / 10) * 10) by (nonlinear_arith)
                requires acc <= x / 10;
        }
        acc = acc * 10 + d as u128;
        i += 1;
    }
    Some((acc, i))
}

/// Where the decimal form of `n` is laid out at `pos`, followed by a
/// non-digit or the end, reading a signed decimal at `pos` finds exactly `n`.
pub proof fn lemma_int_at(s: Seq<u8>, pos: int, n: int)
    requires
        0 <= pos,
        pos + dec_int(n).len() <= s.len(),
        s.subrange(pos, pos + dec_int(n).len()) == dec_int(n),
        pos + dec_int(n).len() < s.len() ==> !is_digit(s[pos + dec_int(n).len()]),
    ensures
        int_present(s, pos),
        int_val(s, pos) == n,
        int_end(s, pos) == pos + dec_int(n).len(),
{
    let l = dec_int(n).len() as int;
    if n < 0 {
        let m = (-n) as nat;
        lemma_dec_digits_are_digits(m);
        assert(s[pos] == MINUS) by {
            assert(s.subrange(pos, pos + l)[0] == dec_int(n)[0]);
        }
        assert(s.subrange(pos + 1, pos + l) =~= dec_int(n).subrange(1, l));
        assert(dec_int(n).subrange(1, l) =~= dec_digits(m));
        lemma_run_end_exact(s, pos + 1, pos + l);
        lemma_dec_val_of_digits(m);
    } else {
        let m = n as nat;
        lemma_dec_digits_are_digits(m);
        assert(s.subrange(pos, pos + l) =~= dec_digits(m));
        assert(is_digit(s[pos]) && s[pos] != MINUS) by {
            assert(is_digit(s.subrange(pos, pos + l)[0]));
        }
        lemma_run_end_exact(s, pos, pos + l);
        lemma_dec_val_of_digits(m);
    }
}

/// Reads a signed decimal (an optional minus sign, then a digit run).
pub open spec fn int_end(s: Seq<u8>, pos: int) -> int {
    if pos < s.len() && s[pos] == MINUS {
        run_end(s, pos + 1)
    } else {
        run_end(s, pos)
    }
}

pub open spec fn int_val(s: Seq<u8>, pos: int) -> int {
    if pos < s.len() && s[pos] == MINUS {
        -dec_val(s.subrange(pos + 1, run_end(s, pos + 1)))
    } else {
        dec_val(s.subrange(pos, run_end(s, pos)))
    }
}

pub open spec fn int_present(s: Seq<u8>, pos: int) -> bool {
    if pos < s.len() && s[pos] == MINUS {
        run_end(s, pos + 1) > pos + 1
    } else {
        run_end(s, pos) > pos
    }
}

pub fn read_i64(s: &Vec<u8>, pos: usize) -> (r: Option<(i64, usize)>)
    requires
        pos <= s.len(),
    ensures
        pos as int <= int_end(s@, pos as int) <= s@.len(),
        ({
            let e = int_end(s@, pos as int);
            let v = int_val(s@, pos as int);
            if int_present(s@, pos as int) && i64::MIN <= v <= i64::MAX {
                r == Some((v as i64, e as usize))
            } else {
                r is None
            }
        }),
{
    if pos < s.len() && s[pos] == MINUS {
        proof {
            lemma_run_end_bounds(s@, pos + 1);
            lemma_dec_val_nonneg(s@.subrange(pos + 1, run_end(s@, pos + 1)));
        }
        match read_u128(s, pos + 1) {
            Some((m, p)) => {
                if m > 9223372036854775808u128 {
                    None
                } else if m == 9223372036854775808u128 {
                    Some((i64::MIN, p))
                } else {
                    Some((-(m as i64), p))
                }
            },
            None => None,
        }
    } else {
        proof {
            if pos < s.len() {
                lemma_run_end_bounds(s@, pos as int);
                lemma_dec_val_nonneg(s@.subrange(pos as int, run_end(s@, pos as int)));
            }
        }
        match read_u128(s, pos) {
            Some((m, p)) => {
                if m > i64::MAX as u128 {
                    None
                } else {
                    Some((m as i64, p))
                }
            },
            None => None,
        }
    }
}

} // verus!
