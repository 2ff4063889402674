//! Deciding whether a decimal literal lies above the 32-bit float range, exactly.
use vstd::prelude::*;
use crate::grammar::{
    exceeds_at, at, digits, digit_value, digits_value, exceeds_f32, f32_max, float_exponent, float_frac_part,
    float_int_part, is_digit, pow10,
};
use crate::scanner::{count_digits, lemma_digit_run};
use crate::text::vec_of;

verus! {

pub open spec fn all_digits(d: Seq<char>) -> bool {
    forall|j: int| 0 <= j < d.len() ==> is_digit(#[trigger] d[j])
}

proof fn lemma_pow10_add(a: nat, b: nat)
    ensures
        pow10(a + b) == pow10(a) * pow10(b),
    decreases b,
{
    if b == 0 {
        assert(pow10(0) == 1);
        assert(a + b == a);
    } else {
        let b1 = (b - 1) as nat;
        lemma_pow10_add(a, b1);
        let pa = pow10(a);
        let pb1 = pow10(b1);
        assert(pow10(a + b1) == pa * pb1);
        assert((a + b1) as nat == (a + b - 1) as nat);
        assert(pow10(a + b) == 10 * pow10(a + b1));
        assert(pow10(b) == 10 * pb1);
        assert(pa * (10 * pb1) == 10 * (pa * pb1)) by (nonlinear_arith);
    }
}

proof fn lemma_pow10_positive(n: nat)
    ensures
        pow10(n) >= 1,
    decreases n,
{
    if n > 0 {
        lemma_pow10_positive((n - 1) as nat);
    }
}

proof fn lemma_pow10_mono(a: nat, b: nat)
    requires
        a <= b,
    ensures
        pow10(a) <= pow10(b),
{
    lemma_pow10_add(a, (b - a) as nat);
    lemma_pow10_positive((b - a) as nat);
    lemma_pow10_positive(a);
    assert(pow10(a) * pow10((b - a) as nat) >= pow10(a)) by (nonlinear_arith)
        requires
            pow10((b - a) as nat) >= 1,
            pow10(a) >= 1,
    ;
}

proof fn lemma_pow10_39()
    ensures
        pow10(39) > f32_max(),
{
    reveal_with_fuel(pow10, 40);
}

/// Appending digits shifts the value left by their count.
proof fn lemma_value_concat(a: Seq<char>, b: Seq<char>)
    ensures
        digits_value(a + b) == digits_value(a) * pow10(b.len()) + digits_value(b),
    decreases b.len(),
{
    if b.len() == 0 {
        assert(a + b =~= a);
        assert(pow10(0) == 1);
        assert(digits_value(b) == 0);
    } else {
        let b1 = b.drop_last();
        assert((a + b).drop_last() =~= a + b1);
        assert((a + b).last() == b.last());
        lemma_value_concat(a, b1);
        let x = digits_value(a);
        let p = pow10(b1.len());
        let y = digits_value(b1);
        let d = digit_value(b.last());
        assert(pow10(b.len()) == 10 * p);
        assert(digits_value(a + b) == digits_value(a + b1) * 10 + d);
        assert(digits_value(b) == y * 10 + d);
        assert((x * p + y) * 10 + d == x * (10 * p) + (y * 10 + d)) by (nonlinear_arith);
    }
}

proof fn lemma_value_bound(d: Seq<char>)
    requires
        all_digits(d),
    ensures
        digits_value(d) < pow10(d.len()),
    decreases d.len(),
{
    if d.len() > 0 {
        let d1 = d.drop_last();
        assert(all_digits(d1)) by {
            assert forall|j: int| 0 <= j < d1.len() implies is_digit(#[trigger] d1[j]) by {
                assert(d1[j] == d[j]);
            }
        }
        lemma_value_bound(d1);
        assert(is_digit(d[d.len() - 1]));
        let v = digits_value(d1);
        let p = pow10(d1.len());
        assert(v * 10 + digit_value(d.last()) < 10 * p) by (nonlinear_arith)
            requires
                v < p,
                digit_value(d.last()) <= 9,
        ;
    }
}

proof fn lemma_value_zero(d: Seq<char>)
    requires
        all_digits(d),
    ensures
        digits_value(d) == 0 <==> (forall|j: int| 0 <= j < d.len() ==> #[trigger] d[j] == '0'),
    decreases d.len(),
{
    if d.len() > 0 {
        let d1 = d.drop_last();
        assert(all_digits(d1)) by {
            assert forall|j: int| 0 <= j < d1.len() implies is_digit(#[trigger] d1[j]) by {
                assert(d1[j] == d[j]);
            }
        }
        lemma_value_zero(d1);
        assert(is_digit(d[d.len() - 1]));
        if digits_value(d) == 0 {
            assert forall|j: int| 0 <= j < d.len() implies #[trigger] d[j] == '0' by {
                if j < d.len() - 1 {
                    assert(d1[j] == d[j]);
                }
            }
        }
        if forall|j: int| 0 <= j < d.len() ==> #[trigger] d[j] == '0' {
            assert forall|j: int| 0 <= j < d1.len() implies #[trigger] d1[j] == '0' by {
                assert(d1[j] == d[j]);
            }
            assert(d[d.len() - 1] == '0');
        }
    }
}

/// The value of the digits `d[from..to]`, or `None` once it passes `cap`.
fn value_capped(d: &Vec<char>, from: usize, to: usize, cap: u128) -> (r: Option<u128>)
    requires
        from <= to <= d@.len(),
        forall|k: int| from <= k < to ==> is_digit(#[trigger] d@[k]),
        cap >= 9,
    ensures
        match r {
            Some(v) => v == digits_value(d@.subrange(from as int, to as int)) && v <= cap,
            None => digits_value(d@.subrange(from as int, to as int)) > cap,
        },
{
    let mut acc: u128 = 0;
    let mut j: usize = from;
    while j < to
        invariant
            from <= j <= to <= d@.len(),
            forall|k: int| from <= k < to ==> is_digit(#[trigger] d@[k]),
            acc == digits_value(d@.subrange(from as int, j as int)),
            acc <= cap,
            cap >= 9,
        decreases to - j,
    {
        assert(d@.subrange(from as int, j + 1).drop_last() =~= d@.subrange(from as int, j as int));
        assert(is_digit(d@[j as int]));
        let x = (d[j] as u32 - '0' as u32) as u128;
        assert(x <= 9);
        assert(x == digit_value(d@[j as int]));
        if acc > (cap - x) / 10 {
            assert(acc * 10 + x > cap) by (nonlinear_arith)
                requires
                    acc > (cap - x) / 10,
                    x <= 9,
                    x <= cap || acc > 0,
            ;
            let ghost whole = d@.subrange(from as int, to as int);
            let ghost head = d@.subrange(from as int, j + 1);
            let ghost tail = d@.subrange(j + 1, to as int);
            proof {
                assert(whole =~= head + tail);
                lemma_value_concat(head, tail);
                lemma_pow10_positive(tail.len());
                assert(digits_value(head) * pow10(tail.len()) >= digits_value(head))
                    by (nonlinear_arith)
                    requires
                        pow10(tail.len()) >= 1,
                ;
            }
            return None;
        }
        assert(acc * 10 + x <= cap) by (nonlinear_arith)
            requires
                acc <= (cap - x) / 10,
                x <= 9,
                x <= cap,
        ;
        acc = acc * 10 + x;
        j = j + 1;
    }
    Some(acc)
}

/// Whether some digit of `d[from..to]` is not `0`.
fn any_nonzero(d: &Vec<char>, from: usize, to: usize) -> (b: bool)
    requires
        from <= to <= d@.len(),
    ensures
        b == (exists|j: int| from <= j < to && #[trigger] d@[j] != '0'),
{
    let mut j: usize = from;
    while j < to
        invariant
            from <= j <= to <= d@.len(),
            forall|k: int| from <= k < j ==> #[trigger] d@[k] == '0',
        decreases to - j,
    {
        if d[j] != '0' {
            return true;
        }
        j = j + 1;
    }
    false
}

/// Above this an exponent is certain to put any non-zero literal beyond every bound used here.
const EXPONENT_CAP: u128 = 1267650600228229401496703205376;

const F32_MAX: u128 = 340282346638528859811704183484516925440;

/// Whether the decimal number written `t` exceeds the largest 32-bit float.
pub fn exceeds_f32_max(t: &Vec<char>) -> (b: bool)
    ensures
        b == exceeds_f32(t@),
{
    let ghost s = t@;
    let a = count_digits(t, 0);
    let has_frac = a < t.len() && t[a] == '.';
    let fl: usize = if has_frac { count_digits(t, a + 1) } else { 0 };
    let mut mant = vec_of(t, 0, a);
    if has_frac {
        let mut frac = vec_of(t, a + 1, a + 1 + fl);
        mant.append(&mut frac);
    }
    assert(mant@ =~= float_int_part(s) + float_frac_part(s));
    assert(all_digits(mant@)) by {
        assert forall|j: int| 0 <= j < mant@.len() implies is_digit(#[trigger] mant@[j]) by {
            if j < a {
                lemma_digit_run(s, 0, j);
            } else {
                lemma_digit_run(s, a + 1, a + 1 + (j - a));
            }
        }
    }
    let ghost m = digits_value(mant@);
    let len = mant.len();
    assert(len <= t.len());
    let r: usize = if has_frac { a + 1 + fl } else { a };
    // The exponent: its sign, and where its digits start.
    let has_exp = r < t.len() && (t[r] == 'e' || t[r] == 'E');
    let neg = has_exp && r + 1 < t.len() && t[r + 1] == '-';
    let start: usize = if !has_exp {
        r
    } else if r + 1 < t.len() && (t[r + 1] == '-' || t[r + 1] == '+') {
        r + 2
    } else {
        r + 1
    };
    let el: usize = if has_exp { count_digits(t, start) } else { 0 };
    assert forall|k: int| start <= k < start + el implies is_digit(#[trigger] t@[k]) by {
        lemma_digit_run(s, start as int, k);
    }
    let ghost ev = digits_value(s.subrange(start as int, start + el));
    assert(float_exponent(s) == if neg { -ev } else { ev as int });
    assert(float_frac_part(s).len() == fl);
    let ghost e_spec = float_exponent(s) - fl;
    assert(len < EXPONENT_CAP - 100);
    proof {
        lemma_value_bound(mant@);
        lemma_value_zero(mant@);
        lemma_pow10_39();
    }
    match value_capped(t, start, start + el, EXPONENT_CAP) {
        None => {
            if neg {
                proof {
                    let k = (-e_spec) as nat;
                    lemma_pow10_mono(len as nat, k);
                    assert(m < f32_max() * pow10(k)) by (nonlinear_arith)
                        requires
                            m < pow10(len as nat),
                            pow10(len as nat) <= pow10(k),
                    ;
                }
                false
            } else {
                let b = any_nonzero(&mant, 0, len);
                proof {
                    if b {
                        let e = e_spec as nat;
                        lemma_pow10_mono(39, e);
                        assert(m * pow10(e) > f32_max()) by (nonlinear_arith)
                            requires
                                m >= 1,
                                pow10(e) >= pow10(39),
                                pow10(39) > f32_max(),
                        ;
                    } else {
                        assert forall|j: int| 0 <= j < mant@.len() implies #[trigger] mant@[j] == '0' by {
                            if mant@[j] != '0' {
                                assert(0 <= j < len && mant@[j] != '0');
                            }
                        }
                        assert(m == 0);
                        assert(m * pow10(e_spec as nat) == 0) by (nonlinear_arith)
                            requires
                                m == 0,
                        ;
                    }
                }
                b
            }
        },
        Some(ev_exec) => {
            let e: i128 = if neg { -(ev_exec as i128) } else { ev_exec as i128 } - fl as i128;
            assert(e == e_spec);
            if e >= 0 {
                exceeds_shifted_left(&mant, e as u128)
            } else {
                exceeds_shifted_right(&mant, (-e) as u128)
            }
        },
    }
}

/// Whether `value(mant) * 10^e` exceeds the largest 32-bit float.
fn exceeds_shifted_left(mant: &Vec<char>, e: u128) -> (b: bool)
    requires
        all_digits(mant@),
    ensures
        b == exceeds_at(digits_value(mant@), e as int),
{
    let ghost m = digits_value(mant@);
    let len = mant.len();
    assert(mant@.subrange(0, len as int) =~= mant@);
    match value_capped(mant, 0, len, F32_MAX) {
        None => {
            proof {
                lemma_pow10_positive(e as nat);
                assert(m * pow10(e as nat) >= m) by (nonlinear_arith)
                    requires
                        pow10(e as nat) >= 1,
                ;
            }
            true
        },
        Some(mv) => {
            if mv == 0 {
                assert(m * pow10(e as nat) == 0);
                return false;
            }
            scaled_exceeds(mv, e)
        },
    }
}

/// Whether `value(mant)` exceeds the largest 32-bit float times `10^k`, for `k >= 1`.
fn exceeds_shifted_right(mant: &Vec<char>, k: u128) -> (b: bool)
    requires
        all_digits(mant@),
        k >= 1,
    ensures
        b == exceeds_at(digits_value(mant@), -(k as int)),
{
    let ghost m = digits_value(mant@);
    let len = mant.len();
    let ghost pw = pow10(k as nat);
    proof {
        lemma_value_bound(mant@);
        lemma_pow10_positive(k as nat);
    }
    if k >= len as u128 {
        proof {
            lemma_pow10_mono(len as nat, k as nat);
            assert(m < f32_max() * pw) by (nonlinear_arith)
                requires
                    m < pow10(len as nat),
                    pow10(len as nat) <= pw,
            ;
        }
        return false;
    }
    let cut: usize = len - k as usize;
    let ghost head = mant@.subrange(0, cut as int);
    let ghost tail = mant@.subrange(cut as int, len as int);
    proof {
        assert(mant@ =~= head + tail);
        lemma_value_concat(head, tail);
        assert(all_digits(tail)) by {
            assert forall|j: int| 0 <= j < tail.len() implies is_digit(#[trigger] tail[j]) by {
                assert(tail[j] == mant@[cut + j]);
            }
        }
        lemma_value_bound(tail);
        lemma_value_zero(tail);
        assert(tail.len() == k);
    }
    match value_capped(mant, 0, cut, F32_MAX) {
        None => {
            proof {
                let hv = digits_value(head);
                assert(hv * pw + digits_value(tail) > f32_max() * pw) by (nonlinear_arith)
                    requires
                        hv > f32_max(),
                        pw >= 1,
                ;
            }
            true
        },
        Some(p) => {
            if p < F32_MAX {
                proof {
                    assert(p * pw + digits_value(tail) < f32_max() * pw) by (nonlinear_arith)
                        requires
                            p < f32_max(),
                            digits_value(tail) < pw,
                    ;
                }
                false
            } else {
                let b = any_nonzero(mant, cut, len);
                proof {
                    if b {
                        let j = choose|j: int| cut <= j < len && mant@[j] != '0';
                        assert(tail[j - cut] != '0');
                    } else {
                        assert forall|j: int| 0 <= j < tail.len() implies #[trigger] tail[j] == '0' by {
                            assert(tail[j] == mant@[cut + j]);
                        }
                    }
                }
                b
            }
        },
    }
}

/// Whether `v * 10^e` exceeds the largest 32-bit float, for `1 <= v <= F32_MAX`.
fn scaled_exceeds(v: u128, e: u128) -> (b: bool)
    requires
        1 <= v <= F32_MAX,
    ensures
        b == (v * pow10(e as nat) > f32_max()),
{
    let mut acc: u128 = v;
    let mut k: u128 = 0;
    assert(pow10(0) == 1);
    while k < e
        invariant
            k <= e,
            acc == v * pow10(k as nat),
            1 <= acc <= F32_MAX,
        decreases e - k,
    {
        if acc > F32_MAX / 10 {
            proof {
                let rest = (e - k) as nat;
                lemma_pow10_add(k as nat, rest);
                assert(pow10(rest) == 10 * pow10((rest - 1) as nat));
                lemma_pow10_positive((rest - 1) as nat);
                assert(v * pow10(e as nat) == acc * pow10(rest)) by (nonlinear_arith)
                    requires
                        acc == v * pow10(k as nat),
                        pow10(e as nat) == pow10(k as nat) * pow10(rest),
                ;
                assert(acc * pow10(rest) > f32_max()) by (nonlinear_arith)
                    requires
                        acc > f32_max() / 10,
                        pow10(rest) >= 10,
                ;
            }
            return true;
        }
        proof {
            assert(pow10((k + 1) as nat) == 10 * pow10(k as nat));
            assert(v * (10 * pow10(k as nat)) == (v * pow10(k as nat)) * 10) by (nonlinear_arith);
        }
        acc = acc * 10;
        k = k + 1;
    }
    acc > F32_MAX
}

} // verus!
