use vstd::prelude::*;

verus! {

/// Decimal digits of `n`, most significant first, without leading zeros.
pub open spec fn dec(n: nat) -> Seq<u8>
    decreases n,
{
    if n < 10 {
        seq![(n + 48) as u8]
    } else {
        dec(n / 10).push((n % 10 + 48) as u8)
    }
}

/// Decimal text of an integer, with a leading `-` when it is negative.
pub open spec fn int_text(i: int) -> Seq<u8> {
    if i < 0 {
        seq![45u8] + dec((-i) as nat)
    } else {
        dec(i as nat)
    }
}

pub open spec fn is_digit(b: u8) -> bool {
    48 <= b <= 57
}

pub open spec fn all_digits(s: Seq<u8>) -> bool {
    forall|k: int| 0 <= k < s.len() ==> is_digit(#[trigger] s[k])
}

/// Value of a string of decimal digits.
pub open spec fn digits_value(s: Seq<u8>) -> nat
    decreases s.len(),
{
    if s.len() == 0 {
        0
    } else {
        digits_value(s.drop_last()) * 10 + (s.last() - 48) as nat
    }
}

/// The number that a non-empty string of decimal digits denotes.
pub open spec fn decimal_value(s: Seq<u8>) -> Option<nat> {
    if s.len() > 0 && all_digits(s) {
        Some(digits_value(s))
    } else {
        None
    }
}

pub proof fn lemma_dec_digits(n: nat)
    ensures
        all_digits(dec(n)),
        dec(n).len() > 0,
        digits_value(dec(n)) == n,
    decreases n,
{
    if n >= 10 {
        lemma_dec_digits(n / 10);
        let d = dec(n);
        assert(d.drop_last() =~= dec(n / 10));
        assert(d.last() == (n % 10 + 48) as u8);
        assert((n / 10) * 10 + n % 10 == n) by (nonlinear_arith);
        assert((d.last() - 48) as nat == n % 10);
        assert(digits_value(d) == digits_value(dec(n / 10)) * 10 + (d.last() - 48) as nat);
        assert forall|k: int| 0 <= k < d.len() implies is_digit(#[trigger] d[k]) by {
            if k < d.len() - 1 {
                assert(d[k] == dec(n / 10)[k]);
            }
        }
    } else {
        let d = dec(n);
        assert(d.drop_last() =~= Seq::<u8>::empty());
        assert(digits_value(Seq::<u8>::empty()) == 0);
        assert(digits_value(d) == digits_value(d.drop_last()) * 10 + (d.last() - 48) as nat);
    }
}

/// Prepends one byte to a vector.
fn prepend(b: u8, v: Vec<u8>) -> (r: Vec<u8>)
    ensures
        r@ == seq![b] + v@,
{
    let mut r: Vec<u8> = Vec::new();
    r.push(b);
    let mut j: usize = 0;
    while j < v.len()
        invariant
            j <= v@.len(),
            r@ == seq![b] + v@.take(j as int),
        decreases v@.len() - j,
    {
        r.push(v[j]);
        j = j + 1;
        proof {
            assert(v@.take(j as int) =~= v@.take(j - 1).push(v@[j - 1]));
        }
    }
    proof {
        assert(v@.take(j as int) =~= v@);
    }
    r
}

/// Decimal digits of `n`.
pub fn nat_text(n: u64) -> (r: Vec<u8>)
    ensures
        r@ == dec(n as nat),
{
    let mut m: u64 = n;
    let mut acc: Vec<u8> = Vec::new();
    while m >= 10
        invariant
            dec(n as nat) == dec(m as nat) + acc@,
        decreases m,
    {
        let ghost old_acc = acc@;
        let d: u8 = (m % 10) as u8 + 48;
        acc = prepend(d, acc);
        proof {
            assert(dec(m as nat) == dec((m / 10) as nat).push(d));
            assert(dec((m / 10) as nat).push(d) + old_acc =~= dec((m / 10) as nat) + acc@);
        }
        m = m / 10;
    }
    let r = prepend((m as u8) + 48, acc);
    proof {
        assert(dec(m as nat) =~= seq![(m + 48) as u8]);
    }
    r
}

/// Appends the decimal text of `v` to `out`.
pub fn push_int_text(out: &mut Vec<u8>, v: i64)
    ensures
        final(out)@ == old(out)@ + int_text(v as int),
{
    let m: u64 = if v < 0 {
        ((-(v + 1)) as u64) + 1
    } else {
        v as u64
    };
    if v < 0 {
        out.push(45);
    }
    let t = nat_text(m);
    let ghost mid = out@;
    let mut j: usize = 0;
    while j < t.len()
        invariant
            j <= t@.len(),
            out@ == mid + t@.take(j as int),
        decreases t@.len() - j,
    {
        out.push(t[j]);
        j = j + 1;
        proof {
            assert(t@.take(j as int) =~= t@.take(j - 1).push(t@[j - 1]));
        }
    }
    proof {
        assert(t@.take(j as int) =~= t@);
        if v < 0 {
            assert(mid == old(out)@.push(45u8));
            assert(old(out)@.push(45u8) + t@ =~= old(out)@ + (seq![45u8] + t@));
        } else {
            assert(mid == old(out)@);
        }
    }
}

/// Decimal text of `v`.
pub fn int_to_text(v: i64) -> (r: Vec<u8>)
    ensures
        r@ == int_text(v as int),
{
    let mut r: Vec<u8> = Vec::new();
    push_int_text(&mut r, v);
    proof {
        assert(Seq::<u8>::empty() + int_text(v as int) =~= int_text(v as int));
    }
    r
}

/// Reads `s[lo..hi]` as a decimal number no larger than `max`.
pub fn parse_decimal(s: &[u8], lo: usize, hi: usize, max: u64) -> (r: Option<u64>)
    requires
        lo <= hi <= s@.len(),
    ensures
        match decimal_value(s@.subrange(lo as int, hi as int)) {
            Some(n) => if n <= max {
                r == Some(n as u64)
            } else {
                r is None
            },
            None => r is None,
        },
{
    if lo == hi {
        return None;
    }
    let ghost t = s@.subrange(lo as int, hi as int);
    let mut acc: u64 = 0;
    let mut i: usize = lo;
    while i < hi
        invariant
            lo <= i <= hi <= s@.len(),
            t == s@.subrange(lo as int, hi as int),
            all_digits(t.take(i - lo)),
            acc as nat == digits_value(t.take(i - lo)),
            acc <= max,
        decreases hi - i,
    {
        let b = s[i];
        if b < 48 || b > 57 {
            proof {
                assert(t[i - lo] == b);
            }
            return None;
        }
        let d: u64 = (b - 48) as u64;
        if d > max || acc > (max - d) / 10 {
            proof {
                let k = t.take(i + 1 - lo);
                assert(k.drop_last() =~= t.take(i - lo));
                lemma_value_grows(t, (i + 1 - lo) as int);
                assert(digits_value(k) == acc * 10 + d) by (nonlinear_arith)
                    requires
                        digits_value(k) == digits_value(k.drop_last()) * 10 + d,
                        digits_value(k.drop_last()) == acc,
                ;
                if d <= max {
                    assert(acc * 10 + d > max) by (nonlinear_arith)
                        requires
                            acc > (max - d) / 10,
                            d <= max,
                    ;
                }
            }
            return None;
        }
        proof {
            assert((max - d) / 10 * 10 + d <= max) by (nonlinear_arith)
                requires
                    d <= max,
            ;
            assert(acc * 10 + d <= max) by (nonlinear_arith)
                requires
                    acc <= (max - d) / 10,
                    (max - d) / 10 * 10 + d <= max,
            ;
        }
        acc = acc * 10 + d;
        i = i + 1;
        proof {
            let k = t.take(i - lo);
            assert(k.drop_last() =~= t.take(i - 1 - lo));
            assert(k.last() == b);
            assert forall|j: int| 0 <= j < k.len() implies is_digit(#[trigger] k[j]) by {
                if j < k.len() - 1 {
                    assert(k[j] == t.take(i - 1 - lo)[j]);
                }
            }
        }
    }
    proof {
        assert(t.take(i - lo) =~= t);
    }
    Some(acc)
}

/// The value of a digit string is at least that of any prefix of it.
proof fn lemma_value_grows(t: Seq<u8>, k: int)
    requires
        0 <= k <= t.len(),
    ensures
        all_digits(t) ==> digits_value(t.take(k)) <= digits_value(t),
    decreases t.len() - k,
{
    if k < t.len() && all_digits(t) {
        lemma_value_grows(t, k + 1);
        let a = t.take(k + 1);
        assert(a.drop_last() =~= t.take(k));
        assert(digits_value(a) >= digits_value(t.take(k))) by (nonlinear_arith)
            requires
                digits_value(a) == digits_value(a.drop_last()) * 10 + (a.last() - 48) as nat,
                a.drop_last() == t.take(k),
        ;
    } else if k == t.len() {
        assert(t.take(k) =~= t);
    }
}

} // verus!
