//! Floating-point numbers as serde describes them in its errors: the text that serde_json
//! writes for a number, with an exponent, turned into plain decimal notation.
use vstd::prelude::*;
use crate::text::{chars_of, string_of, push_char};
use crate::date::{zeros, all_digits, unsigned_part, signed_value, digits_value, is_digit};

verus! {

broadcast use vstd::string::group_string_axioms;

/// The position of the first `a` or `b` in `s`, or the length of `s` when there is none.
pub open spec fn index_of2(s: Seq<char>, a: char, b: char) -> nat
    decreases s.len(),
{
    if s.len() == 0 || s[0] == a || s[0] == b {
        0
    } else {
        1 + index_of2(s.drop_first(), a, b)
    }
}

/// The parts of a number written with an exponent, as serde_json writes one: an optional
/// `-`, one or more digits, optionally `.` and more digits, then `e` or `E`, an optional
/// sign and one to three digits. The parts are the sign, the digits without the point, the
/// number of digits before the point, and the exponent.
pub open spec fn exponent_parts(t: Seq<char>) -> Option<(bool, Seq<char>, int, int)> {
    let neg = t.len() > 0 && t[0] == '-';
    let body = if neg {
        t.drop_first()
    } else {
        t
    };
    let k = index_of2(body, 'e', 'E') as int;
    if k >= body.len() {
        None
    } else {
        let mant = body.take(k);
        let ex = body.skip(k + 1);
        let p = index_of2(mant, '.', '.') as int;
        let ds = if p < mant.len() {
            mant.take(p) + mant.skip(p + 1)
        } else {
            mant
        };
        let exd = unsigned_part(ex);
        if 1 <= p && (p < mant.len() ==> p + 1 < mant.len()) && all_digits(ds) && 1 <= exd.len()
            <= 3 && all_digits(exd) {
            Some((neg, ds, p, signed_value(ex)))
        } else {
            None
        }
    }
}

/// Digits with the decimal point after the first `q` of them, in plain notation: `0.`
/// and zeros before them when `q` is not positive, zeros after them and `.0` when `q` is
/// at least their number.
pub open spec fn plain_digits(ds: Seq<char>, q: int) -> Seq<char> {
    if q <= 0 {
        seq!['0', '.'] + zeros((-q) as nat) + ds
    } else if q < ds.len() {
        ds.take(q) + seq!['.'] + ds.skip(q)
    } else {
        ds + zeros((q - ds.len()) as nat) + seq!['.', '0']
    }
}

/// A floating-point number as serde describes it: serde_json's text of it, in plain
/// decimal notation when that text has an exponent, and as it is otherwise.
pub open spec fn float_text(t: Seq<char>) -> Seq<char> {
    match exponent_parts(t) {
        Some((neg, ds, p, e)) => (if neg {
            seq!['-']
        } else {
            Seq::empty()
        }) + plain_digits(ds, p + e),
        None => t,
    }
}

fn index_of2_exec(s: &[char], a: char, b: char) -> (k: usize)
    ensures
        k == index_of2(s@, a, b),
        k <= s@.len(),
{
    let mut k: usize = 0;
    assert(s@.skip(0) == s@);
    while k < s.len() && s[k] != a && s[k] != b
        invariant
            k <= s@.len(),
            index_of2(s@, a, b) == k + index_of2(s@.skip(k as int), a, b),
        decreases s@.len() - k,
    {
        assert(s@.skip(k as int).drop_first() == s@.skip(k + 1));
        k = k + 1;
    }
    k
}

fn all_digits_exec(s: &[char]) -> (r: bool)
    ensures
        r == all_digits(s@),
{
    let mut i: usize = 0;
    while i < s.len()
        invariant
            i <= s@.len(),
            forall|j: int| 0 <= j < i ==> is_digit(#[trigger] s@[j]),
        decreases s@.len() - i,
    {
        if !('0' <= s[i] && s[i] <= '9') {
            return false;
        }
        i = i + 1;
    }
    true
}

fn push_zeros(out: &mut String, n: usize)
    ensures
        final(out)@ == old(out)@ + zeros(n as nat),
{
    let ghost before = out@;
    let mut k: usize = 0;
    while k < n
        invariant
            k <= n,
            out@ == before + zeros(k as nat),
        decreases n - k,
    {
        push_char(out, '0');
        k = k + 1;
    }
}

fn push_all_chars(out: &mut String, s: &[char])
    ensures
        final(out)@ == old(out)@ + s@,
{
    let ghost before = out@;
    let mut i: usize = 0;
    while i < s.len()
        invariant
            i <= s@.len(),
            out@ == before + s@.take(i as int),
        decreases s@.len() - i,
    {
        push_char(out, s[i]);
        i = i + 1;
        assert(out@ == before + s@.take(i as int));
    }
    assert(s@.take(s@.len() as int) == s@);
}

/// The value of one to three digits.
fn small_value(d: &[char]) -> (v: usize)
    requires
        1 <= d@.len() <= 3,
        all_digits(d@),
    ensures
        v == digits_value(d@),
        v < 1000,
{
    let mut v: usize = 0;
    let mut i: usize = 0;
    assert(d@.take(0) =~= Seq::<char>::empty());
    while i < d.len()
        invariant
            i <= d@.len() <= 3,
            all_digits(d@),
            v == digits_value(d@.take(i as int)),
            i == 0 ==> v == 0,
            i == 1 ==> v < 10,
            i == 2 ==> v < 100,
            i == 3 ==> v < 1000,
        decreases d@.len() - i,
    {
        assert(is_digit(d@[i as int]));
        let c = d[i] as u32 - '0' as u32;
        assert(d@.take(i + 1).drop_last() == d@.take(i as int));
        assert(d@.take(i + 1).last() == d@[i as int]);
        v = v * 10 + c as usize;
        i = i + 1;
    }
    assert(d@.take(i as int) == d@);
    v
}

/// The parts of a number written with an exponent (see `exponent_parts`), the exponent as
/// its sign and its size.
fn exponent_parts_exec(t: &str) -> (r: Option<(bool, Vec<char>, usize, bool, usize)>)
    ensures
        match r {
            Some((neg, ds, p, eneg, ea)) => {
                &&& ea < 1000
                &&& 1 <= p <= ds@.len()
                &&& exponent_parts(t@) == Some((neg, ds@, p as int, if eneg {
                    -(ea as int)
                } else {
                    ea as int
                }))
            },
            None => exponent_parts(t@) is None,
        },
{
    let cs = chars_of(t);
    let neg = cs.len() > 0 && cs[0] == '-';
    let body: &[char] = if neg {
        vstd::slice::slice_subrange(cs.as_slice(), 1, cs.len())
    } else {
        cs.as_slice()
    };
    assert(body@ == (if neg {
        t@.drop_first()
    } else {
        t@
    }));
    let k = index_of2_exec(body, 'e', 'E');
    if k >= body.len() {
        return None;
    }
    let mant = vstd::slice::slice_subrange(body, 0, k);
    let ex = vstd::slice::slice_subrange(body, k + 1, body.len());
    assert(mant@ == body@.take(k as int));
    assert(ex@ == body@.skip(k + 1));
    let p = index_of2_exec(mant, '.', '.');
    let mut ds: Vec<char> = vstd::slice::slice_to_vec(vstd::slice::slice_subrange(mant, 0, p));
    if p < mant.len() {
        let rest = vstd::slice::slice_subrange(mant, p + 1, mant.len());
        let mut j: usize = 0;
        let ghost d0 = ds@;
        while j < rest.len()
            invariant
                j <= rest@.len(),
                ds@ == d0 + rest@.take(j as int),
            decreases rest@.len() - j,
        {
            ds.push(rest[j]);
            j = j + 1;
            assert(ds@ == d0 + rest@.take(j as int));
        }
        assert(rest@.take(j as int) == rest@);
        assert(ds@ == mant@.take(p as int) + mant@.skip(p + 1));
    } else {
        assert(mant@.take(p as int) == mant@);
    }
    let signed = ex.len() > 0 && (ex[0] == '-' || ex[0] == '+');
    let exd = if signed {
        vstd::slice::slice_subrange(ex, 1, ex.len())
    } else {
        ex
    };
    assert(exd@ == unsigned_part(ex@));
    let shaped = 1 <= p && (p >= mant.len() || p + 1 < mant.len()) && all_digits_exec(ds.as_slice())
        && 1 <= exd.len() && exd.len() <= 3 && all_digits_exec(exd);
    if !shaped {
        return None;
    }
    let ea = small_value(exd);
    let eneg = ex[0] == '-';
    Some((neg, ds, p, eneg, ea))
}

/// Digits in plain notation with the point after the first `p + e` of them, where `e` is
/// `-ea` or `ea` (see `plain_digits`).
fn push_plain_digits(out: &mut String, ds: &[char], p: usize, eneg: bool, ea: usize)
    requires
        1 <= p <= ds@.len(),
        ea < 1000,
    ensures
        final(out)@ == old(out)@ + plain_digits(ds@, p + if eneg {
            -(ea as int)
        } else {
            ea as int
        }),
{
    let ghost q: int = p + if eneg {
        -(ea as int)
    } else {
        ea as int
    };
    let ghost start = out@;
    if eneg && p <= ea {
        push_char(out, '0');
        push_char(out, '.');
        push_zeros(out, ea - p);
        push_all_chars(out, ds);
        assert(out@ =~= start + plain_digits(ds@, q));
        return;
    }
    let lead = ds.len() - p;
    let split: Option<usize> = if eneg {
        if p - ea < ds.len() {
            Some(p - ea)
        } else {
            None
        }
    } else if ea < lead {
        Some(p + ea)
    } else {
        None
    };
    match split {
        Some(at) => {
            assert(at as int == q);
            let a = vstd::slice::slice_subrange(ds, 0, at);
            let b = vstd::slice::slice_subrange(ds, at, ds.len());
            push_all_chars(out, a);
            push_char(out, '.');
            push_all_chars(out, b);
            assert(out@ =~= start + plain_digits(ds@, q));
        },
        None => {
            let extra: usize = if eneg {
                0
            } else {
                ea - lead
            };
            assert(extra as int == q - ds@.len());
            push_all_chars(out, ds);
            push_zeros(out, extra);
            push_char(out, '.');
            push_char(out, '0');
            assert(out@ =~= start + plain_digits(ds@, q));
        },
    }
}

/// A floating-point number as serde describes it (see `float_text`).
pub fn plain_float_text(t: &str) -> (r: String)
    ensures
        r@ == float_text(t@),
{
    match exponent_parts_exec(t) {
        None => t.to_string(),
        Some((neg, ds, p, eneg, ea)) => {
            let mut out = String::new();
            if neg {
                push_char(&mut out, '-');
            }
            push_plain_digits(&mut out, ds.as_slice(), p, eneg, ea);
            out
        },
    }
}

} // verus!
