use vstd::prelude::*;

use crate::error::Error;
use crate::timeutil::{format_decimal_pad, spec_decimal, spec_decimal_pad, spec_zeros};

verus! {

/// An ASCII decimal digit.
pub open spec fn is_dec_digit(b: u8) -> bool {
    0x30 <= b <= 0x39
}

/// Every byte of `s` is a decimal digit.
pub open spec fn all_dec_digits(s: Seq<u8>) -> bool {
    forall|i: int| 0 <= i < s.len() ==> is_dec_digit(#[trigger] s[i])
}

/// A non-empty run of decimal digits.
pub open spec fn dec_digits(s: Seq<u8>) -> bool {
    s.len() > 0 && all_dec_digits(s)
}

/// Numeric value of a decimal digit string; leading zeros are allowed.
pub open spec fn dec_val(s: Seq<u8>) -> nat
    decreases s.len(),
{
    if s.len() == 0 {
        0
    } else {
        dec_val(s.drop_last()) * 10 + if is_dec_digit(s.last()) {
            (s.last() - 0x30) as nat
        } else {
            0
        }
    }
}

/// Ten to the `k`.
pub open spec fn pow10(k: nat) -> nat
    decreases k,
{
    if k == 0 {
        1
    } else {
        10 * pow10((k - 1) as nat)
    }
}

pub proof fn lemma_pow10_positive(k: nat)
    ensures
        pow10(k) >= 1,
    decreases k,
{
    if k > 0 {
        lemma_pow10_positive((k - 1) as nat);
    }
}

pub proof fn lemma_pow10_adds(a: nat, b: nat)
    ensures
        pow10(a + b) == pow10(a) * pow10(b),
    decreases a,
{
    if a == 0 {
        assert(pow10(b) == 1 * pow10(b));
    } else {
        lemma_pow10_adds((a - 1) as nat, b);
        assert(pow10(a + b) == 10 * pow10((a - 1) as nat + b));
        assert(10 * (pow10((a - 1) as nat) * pow10(b)) == (10 * pow10((a - 1) as nat)) * pow10(
            b,
        )) by (nonlinear_arith);
    }
}

/// The value of a concatenation: the left part shifted by the length
/// of the right part, plus the right part.
pub proof fn lemma_dec_val_append(x: Seq<u8>, y: Seq<u8>)
    ensures
        dec_val(x + y) == dec_val(x) * pow10(y.len()) + dec_val(y),
    decreases y.len(),
{
    if y.len() == 0 {
        assert(x + y =~= x);
        assert(pow10(0nat) == 1);
        assert(dec_val(y) == 0);
    } else {
        lemma_dec_val_append(x, y.drop_last());
        assert((x + y).drop_last() =~= x + y.drop_last());
        assert((x + y).last() == y.last());
        let d: nat = if is_dec_digit(y.last()) {
            (y.last() - 0x30) as nat
        } else {
            0
        };
        assert(dec_val(x + y) == dec_val(x + y.drop_last()) * 10 + d);
        assert(dec_val(y) == dec_val(y.drop_last()) * 10 + d);
        assert((dec_val(x) * pow10((y.len() - 1) as nat) + dec_val(y.drop_last())) * 10 == dec_val(
            x,
        ) * (pow10((y.len() - 1) as nat) * 10) + dec_val(y.drop_last()) * 10) by (nonlinear_arith);
        assert(pow10(y.len()) == pow10((y.len() - 1) as nat + 1));
        lemma_pow10_adds((y.len() - 1) as nat, 1);
        assert(pow10(0nat) == 1);
        assert(pow10(1nat) == 10 * pow10(0nat));
    }
}

/// The digits of `n` in decimal denote `n` and are decimal digits.
pub proof fn lemma_dec_val_decimal(n: nat)
    ensures
        dec_val(spec_decimal(n)) == n,
        dec_digits(spec_decimal(n)),
    decreases n,
{
    if n < 10 {
        let e = spec_decimal(n);
        assert(e =~= seq![(0x30 + n) as u8]);
        assert(e.drop_last() =~= Seq::<u8>::empty());
        assert(dec_val(Seq::<u8>::empty()) == 0);
        assert(is_dec_digit((0x30 + n) as u8));
        assert(e.last() == (0x30 + n) as u8);
        assert(dec_val(e) == 0 * 10 + n);
    } else {
        lemma_dec_val_decimal(n / 10);
        let e = spec_decimal(n);
        assert(e == spec_decimal(n / 10) + seq![(0x30 + n % 10) as u8]);
        assert(e.drop_last() =~= spec_decimal(n / 10));
        assert(e.last() == (0x30 + n % 10) as u8);
        assert(dec_val(e) == (n / 10) * 10 + n % 10);
        assert((n / 10) * 10 + n % 10 == n);
        assert(forall|i: int|
            0 <= i < e.len() ==> is_dec_digit(#[trigger] e[i]));
    }
}

/// Zero-padding does not change the denoted value.
#[verifier::rlimit(50)]
pub proof fn lemma_dec_val_pad(n: nat, w: nat)
    ensures
        dec_val(spec_decimal_pad(n, w)) == n,
        dec_digits(spec_decimal_pad(n, w)),
        spec_decimal_pad(n, w).len() == if spec_decimal(n).len() >= w {
            spec_decimal(n).len() as int
        } else {
            w as int
        },
    decreases w,
{
    lemma_dec_val_decimal(n);
    let d = spec_decimal(n);
    if d.len() >= w {
        assert(spec_decimal_pad(n, w) == d);
    } else {
        lemma_dec_val_pad(n, (w - 1) as nat);
        let p = spec_decimal_pad(n, (w - 1) as nat);
        let q = seq![0x30u8] + p;
        assert(spec_decimal_pad(n, w) == q);
        lemma_dec_val_append(seq![0x30u8], p);
        assert(dec_val(seq![0x30u8]) == 0) by {
            assert((seq![0x30u8]).drop_last() =~= Seq::<u8>::empty());
            assert(dec_val(Seq::<u8>::empty()) == 0);
            assert((seq![0x30u8]).last() == 0x30u8);
        }
        assert(dec_val(q) == 0 * pow10(p.len()) + dec_val(p));
        assert(dec_val(spec_decimal_pad(n, w)) == n);
        assert(forall|i: int|
            0 <= i < q.len() ==> is_dec_digit(#[trigger] q[i]));
        assert(dec_digits(spec_decimal_pad(n, w)));
        assert(q.len() == 1 + p.len());
        assert(spec_decimal_pad(n, w).len() == w);
    }
}

/// The value of a digit run is bounded by ten to its length.
pub proof fn lemma_dec_val_bound(s: Seq<u8>)
    requires
        all_dec_digits(s),
    ensures
        dec_val(s) < pow10(s.len() as nat),
    decreases s.len(),
{
    if s.len() == 0 {
    } else {
        assert(all_dec_digits(s.drop_last())) by {
            assert(forall|i: int|
                0 <= i < s.len() - 1 ==> s.drop_last()[i] == #[trigger] s[i]);
        }
        lemma_dec_val_bound(s.drop_last());
        assert(is_dec_digit(s[s.len() - 1]));
        lemma_pow10_adds((s.len() - 1) as nat, 1);
        assert(dec_val(s.drop_last()) * 10 + 9 < pow10((s.len() - 1) as nat) * 10) by (
        nonlinear_arith)
            requires
                dec_val(s.drop_last()) < pow10((s.len() - 1) as nat),
        ;
    }
}

/// A digit run denotes zero exactly when every digit is `0`.
pub proof fn lemma_dec_val_zero_iff(s: Seq<u8>)
    requires
        all_dec_digits(s),
    ensures
        (dec_val(s) == 0) <==> (forall|i: int| 0 <= i < s.len() ==> s[i] == 0x30u8),
    decreases s.len(),
{
    if s.len() > 0 {
        assert(all_dec_digits(s.drop_last())) by {
            assert(forall|i: int|
                0 <= i < s.len() - 1 ==> s.drop_last()[i] == #[trigger] s[i]);
        }
        lemma_dec_val_zero_iff(s.drop_last());
        assert(is_dec_digit(s[s.len() - 1]));
        if dec_val(s) == 0 {
            assert(dec_val(s.drop_last()) == 0);
            assert forall|i: int| 0 <= i < s.len() implies s[i] == 0x30u8 by {
                if i < s.len() - 1 {
                    assert(s.drop_last()[i] == s[i]);
                }
            }
        } else {
            if forall|i: int| 0 <= i < s.len() ==> s[i] == 0x30u8 {
                assert(forall|i: int|
                    0 <= i < s.drop_last().len() ==> #[trigger] s.drop_last()[i] == s[i]);
                assert(dec_val(s.drop_last()) == 0);
                assert(s.last() == s[s.len() - 1]);
                assert(dec_val(s) == 0);
            }
        }
    }
}

/// Does a digit string denote a nonzero value?
pub fn dec_nonzero(s: &[u8]) -> (r: bool)
    requires
        all_dec_digits(s@),
    ensures
        r == (dec_val(s@) > 0),
{
    let mut i: usize = 0;
    let mut any = false;
    while i < s.len()
        invariant
            i <= s@.len(),
            any == exists|j: int| 0 <= j < i && s@[j] != 0x30u8,
        decreases s@.len() - i,
    {
        if s[i] != 0x30 {
            any = true;
        }
        i = i + 1;
    }
    proof {
        lemma_dec_val_zero_iff(s@);
    }
    any
}

/// An arbitrary-precision positive rational, held as decimal digit
/// strings for its numerator and denominator.
#[derive(Clone, Debug)]
pub struct Weight {
    pub num: Vec<u8>,
    pub den: Vec<u8>,
}

/// A well-formed weight: digit strings denoting a finite, nonzero,
/// positive rational.
pub open spec fn weight_wf(w: Weight) -> bool {
    &&& dec_digits(w.num@)
    &&& dec_digits(w.den@)
    &&& dec_val(w.num@) > 0
    &&& dec_val(w.den@) > 0
}

/// Rational order, by cross multiplication.
pub open spec fn weight_lt(a: Weight, b: Weight) -> bool {
    dec_val(a.num@) * dec_val(b.den@) < dec_val(b.num@) * dec_val(a.den@)
}

/// Rational order or equality, by cross multiplication.
pub open spec fn weight_le(a: Weight, b: Weight) -> bool {
    dec_val(a.num@) * dec_val(b.den@) <= dec_val(b.num@) * dec_val(a.den@)
}

/// `r` denotes the rational sum of `a` and `b`.
pub open spec fn weight_is_sum(r: Weight, a: Weight, b: Weight) -> bool {
    dec_val(r.num@) * (dec_val(a.den@) * dec_val(b.den@)) == (dec_val(a.num@) * dec_val(b.den@)
        + dec_val(b.num@) * dec_val(a.den@)) * dec_val(r.den@)
}

/// Relies on fraction::GenericFraction (over big integers): `+` on two
/// finite rationals is exact rational addition, and the numerator and
/// denominator of the reduced sum print as decimal digit strings.
#[verifier::external_body]
pub(crate) fn frac_add(an: &Vec<u8>, ad: &Vec<u8>, bn: &Vec<u8>, bd: &Vec<u8>) -> (r: (Vec<u8>, Vec<u8>))
    requires
        dec_digits(an@),
        dec_digits(ad@),
        dec_digits(bn@),
        dec_digits(bd@),
        dec_val(ad@) > 0,
        dec_val(bd@) > 0,
    ensures
        dec_digits(r.0@),
        dec_digits(r.1@),
        dec_val(r.1@) > 0,
        dec_val(r.0@) * (dec_val(ad@) * dec_val(bd@)) == (dec_val(an@) * dec_val(bd@) + dec_val(
            bn@,
        ) * dec_val(ad@)) * dec_val(r.1@),
{
    let a = fraction::BigFraction::new(
        fraction::BigUint::parse_bytes(an.as_slice(), 10).unwrap(),
        fraction::BigUint::parse_bytes(ad.as_slice(), 10).unwrap(),
    );
    let b = fraction::BigFraction::new(
        fraction::BigUint::parse_bytes(bn.as_slice(), 10).unwrap(),
        fraction::BigUint::parse_bytes(bd.as_slice(), 10).unwrap(),
    );
    let s = a + b;
    let num = s.numer().unwrap().to_string().into_bytes();
    let den = s.denom().unwrap().to_string().into_bytes();
    (num, den)
}

/// Relies on fraction::GenericFraction's `Ord`: two finite rationals
/// compare by their numeric values.
#[verifier::external_body]
pub(crate) fn frac_cmp(an: &Vec<u8>, ad: &Vec<u8>, bn: &Vec<u8>, bd: &Vec<u8>) -> (r: i8)
    requires
        dec_digits(an@),
        dec_digits(ad@),
        dec_digits(bn@),
        dec_digits(bd@),
        dec_val(ad@) > 0,
        dec_val(bd@) > 0,
    ensures
        -1 <= r <= 1,
        (r == -1) == (dec_val(an@) * dec_val(bd@) < dec_val(bn@) * dec_val(ad@)),
        (r == 0) == (dec_val(an@) * dec_val(bd@) == dec_val(bn@) * dec_val(ad@)),
{
    let a = fraction::BigFraction::new(
        fraction::BigUint::parse_bytes(an.as_slice(), 10).unwrap(),
        fraction::BigUint::parse_bytes(ad.as_slice(), 10).unwrap(),
    );
    let b = fraction::BigFraction::new(
        fraction::BigUint::parse_bytes(bn.as_slice(), 10).unwrap(),
        fraction::BigUint::parse_bytes(bd.as_slice(), 10).unwrap(),
    );
    match a.cmp(&b) {
        core::cmp::Ordering::Less => -1,
        core::cmp::Ordering::Equal => 0,
        core::cmp::Ordering::Greater => 1,
    }
}

impl Weight {
    /// An identical copy of this weight.
    pub fn duplicate(&self) -> (r: Weight)
        ensures
            r.num@ == self.num@,
            r.den@ == self.den@,
    {
        let num = crate::textutil::copy_range(self.num.as_slice(), 0, self.num.len());
        let den = crate::textutil::copy_range(self.den.as_slice(), 0, self.den.len());
        proof {
            assert(num@ =~= self.num@);
            assert(den@ =~= self.den@);
        }
        Weight { num, den }
    }

    /// The rational sum of two weights.
    pub fn add(&self, other: &Weight) -> (r: Weight)
        requires
            weight_wf(*self),
            weight_wf(*other),
        ensures
            weight_wf(r),
            weight_is_sum(r, *self, *other),
    {
        let (num, den) = frac_add(&self.num, &self.den, &other.num, &other.den);
        let r = Weight { num, den };
        proof {
            assert(dec_val(r.num@) > 0) by (nonlinear_arith)
                requires
                    dec_val(r.num@) * (dec_val(self.den@) * dec_val(other.den@)) == (dec_val(
                        self.num@,
                    ) * dec_val(other.den@) + dec_val(other.num@) * dec_val(self.den@)) * dec_val(
                        r.den@,
                    ),
                    dec_val(self.num@) > 0,
                    dec_val(self.den@) > 0,
                    dec_val(other.num@) > 0,
                    dec_val(other.den@) > 0,
                    dec_val(r.den@) > 0,
            ;
        }
        r
    }

    /// Is this weight at most the other, as rationals?
    pub fn le(&self, other: &Weight) -> (r: bool)
        requires
            weight_wf(*self),
            weight_wf(*other),
        ensures
            r == weight_le(*self, *other),
    {
        let c = frac_cmp(&self.num, &self.den, &other.num, &other.den);
        c <= 0
    }
}

/// Rational order is total on weights.
pub proof fn lemma_weight_le_total(a: Weight, b: Weight)
    ensures
        weight_le(a, b) || weight_le(b, a),
{
}

/// Rational order is transitive on well-formed weights.
pub proof fn lemma_weight_le_trans(a: Weight, b: Weight, c: Weight)
    requires
        weight_wf(a),
        weight_wf(b),
        weight_wf(c),
        weight_le(a, b),
        weight_le(b, c),
    ensures
        weight_le(a, c),
{
    let an = dec_val(a.num@);
    let ad = dec_val(a.den@);
    let bn = dec_val(b.num@);
    let bd = dec_val(b.den@);
    let cn = dec_val(c.num@);
    let cd = dec_val(c.den@);
    assert(an * cd <= cn * ad) by (nonlinear_arith)
        requires
            an * bd <= bn * ad,
            bn * cd <= cn * bd,
            ad > 0,
            bd > 0,
            cd > 0,
    ;
}

/// Strict order composes with order on well-formed weights.
pub proof fn lemma_weight_lt_le_trans(a: Weight, b: Weight, c: Weight)
    requires
        weight_wf(a),
        weight_wf(b),
        weight_wf(c),
        weight_lt(a, b),
        weight_le(b, c),
    ensures
        weight_lt(a, c),
{
    let an = dec_val(a.num@);
    let ad = dec_val(a.den@);
    let bn = dec_val(b.num@);
    let bd = dec_val(b.den@);
    let cn = dec_val(c.num@);
    let cd = dec_val(c.den@);
    assert(an * cd < cn * ad) by (nonlinear_arith)
        requires
            an * bd < bn * ad,
            bn * cd <= cn * bd,
            ad > 0,
            bd > 0,
            cd > 0,
    ;
}

/// How many bytes the leading byte of a UTF-8 encoded scalar claims.
pub open spec fn spec_group_len(b: u8) -> int {
    if b < 0xc0 {
        1
    } else if b < 0xe0 {
        2
    } else if b < 0xf0 {
        3
    } else {
        4
    }
}

/// The little-endian 32-bit value of a group of one to four bytes.
pub open spec fn spec_block_val(g: Seq<u8>) -> nat {
    (g[0] as nat) + (if g.len() > 1 {
        g[1] as nat * 0x100
    } else {
        0
    }) + (if g.len() > 2 {
        g[2] as nat * 0x10000
    } else {
        0
    }) + (if g.len() > 3 {
        g[3] as nat * 0x1000000
    } else {
        0
    })
}

/// The fractional digit expansion of a string's alphabet weight: for
/// each UTF-8 encoded character, the little-endian 32-bit value of its
/// bytes, as ten decimal digits.
pub open spec fn spec_weight_digits(s: Seq<u8>) -> Seq<u8>
    decreases s.len(),
{
    if s.len() == 0 {
        Seq::empty()
    } else {
        let k = if spec_group_len(s[0]) <= s.len() {
            spec_group_len(s[0])
        } else {
            s.len() as int
        };
        spec_decimal_pad(spec_block_val(s.take(k)), 10) + spec_weight_digits(s.skip(k))
    }
}

/// Compute the alphabet-weight digit expansion of a byte string.
#[verifier::rlimit(100)]
pub fn weight_digits(s: &[u8]) -> (r: Vec<u8>)
    ensures
        r@ == spec_weight_digits(s@),
        all_dec_digits(r@),
        r@.len() % 10 == 0,
{
    let mut r: Vec<u8> = Vec::new();
    let mut pos: usize = 0;
    proof {
        assert(s@.skip(0) =~= s@);
        assert(Seq::<u8>::empty() + spec_weight_digits(s@) =~= spec_weight_digits(s@));
    }
    while pos < s.len()
        invariant
            pos <= s@.len(),
            r@ + spec_weight_digits(s@.skip(pos as int)) == spec_weight_digits(s@),
            all_dec_digits(r@),
            r@.len() % 10 == 0,
        decreases s@.len() - pos,
    {
        let ghost rest = s@.skip(pos as int);
        let b0 = s[pos];
        let glen: usize = if b0 < 0xc0 {
            1
        } else if b0 < 0xe0 {
            2
        } else if b0 < 0xf0 {
            3
        } else {
            4
        };
        let k: usize = if glen <= s.len() - pos {
            glen
        } else {
            s.len() - pos
        };
        let mut val: u64 = s[pos] as u64;
        if k > 1 {
            val = val + (s[pos + 1] as u64) * 0x100;
        }
        if k > 2 {
            val = val + (s[pos + 2] as u64) * 0x10000;
        }
        if k > 3 {
            val = val + (s[pos + 3] as u64) * 0x1000000;
        }
        proof {
            let g = rest.take(k as int);
            assert(forall|j: int| 0 <= j < k ==> g[j] == #[trigger] s@[pos + j]);
            assert(val as nat == spec_block_val(g));
            assert(rest[0] == s@[pos as int]);
            assert(k as int == if spec_group_len(rest[0]) <= rest.len() {
                spec_group_len(rest[0])
            } else {
                rest.len() as int
            });
        }
        let mut block = format_decimal_pad(val, 10);
        proof {
            lemma_dec_val_pad(val as nat, 10);
            assert(val < 0x100000000);
            crate::weight::lemma_decimal_len_bound(val as nat);
            assert(spec_decimal_pad(val as nat, 10).len() == 10);
            assert(spec_weight_digits(rest) == spec_decimal_pad(
                spec_block_val(rest.take(k as int)),
                10,
            ) + spec_weight_digits(rest.skip(k as int)));
            assert(rest.skip(k as int) =~= s@.skip(pos + k));
        }
        let ghost old_r = r@;
        r.append(&mut block);
        proof {
            assert(r@ == old_r + spec_decimal_pad(val as nat, 10));
            assert(r@ + spec_weight_digits(s@.skip(pos + k)) =~= spec_weight_digits(s@));
            assert(all_dec_digits(r@)) by {
                assert(forall|i: int|
                    0 <= i < r@.len() ==> r@[i] == if i < old_r.len() {
                        old_r[i]
                    } else {
                        #[trigger] spec_decimal_pad(val as nat, 10)[i - old_r.len()]
                    });
            }
        }
        pos = pos + k;
    }
    proof {
        assert(s@.skip(pos as int) =~= Seq::<u8>::empty());
        assert(r@ + Seq::<u8>::empty() =~= r@);
    }
    r
}

/// Ten decimal digits do not overflow: the decimal form of a value
/// below 2^32 has at most ten digits.
pub proof fn lemma_decimal_len_bound(n: nat)
    requires
        n < 0x100000000,
    ensures
        spec_decimal(n).len() <= 10,
{
    assert(pow10(10) == 10000000000) by {
        assert(pow10(0nat) == 1);
        assert(pow10(1nat) == 10);
        assert(pow10(2nat) == 100);
        assert(pow10(3nat) == 1000);
        assert(pow10(4nat) == 10000);
        assert(pow10(5nat) == 100000);
        assert(pow10(6nat) == 1000000);
        assert(pow10(7nat) == 10000000);
        assert(pow10(8nat) == 100000000);
        assert(pow10(9nat) == 1000000000);
        assert(pow10(10nat) == 10000000000);
    }
    lemma_decimal_len_le(n, 10);
}

proof fn lemma_decimal_len_le(n: nat, k: nat)
    requires
        n < pow10(k),
        k >= 1,
    ensures
        spec_decimal(n).len() <= k,
    decreases k,
{
    if n < 10 {
    } else {
        assert(pow10(k) == 10 * pow10((k - 1) as nat));
        assert(n / 10 < pow10((k - 1) as nat));
        assert(k >= 2) by {
            if k == 1 {
                assert(pow10(1nat) == 10);
            }
        }
        lemma_decimal_len_le(n / 10, (k - 1) as nat);
    }
}

/// The alphabet weight of a path: a rational in (0, 1) whose digit
/// expansion encodes the path's characters; fails with `InvalidWeight`
/// when the expansion denotes zero (an empty path or one of NUL
/// characters only).
pub fn alphabet(path: &[u8]) -> (r: Result<Weight, Error>)
    ensures
        match r {
            Ok(w) => {
                &&& weight_wf(w)
                &&& w.num@ == spec_weight_digits(path@)
                &&& w.den@ == seq![0x31u8] + spec_zeros(spec_weight_digits(path@).len() as nat)
                &&& dec_val(spec_weight_digits(path@)) > 0
            },
            Err(e) => {
                &&& dec_val(spec_weight_digits(path@)) == 0
                &&& match e {
                    Error::InvalidWeight { text } => text@ == path@,
                    _ => false,
                }
            },
        },
{
    let num = weight_digits(path);
    let mut any_nonzero = false;
    let mut i: usize = 0;
    while i < num.len()
        invariant
            i <= num@.len(),
            any_nonzero == exists|j: int| 0 <= j < i && num@[j] != 0x30u8,
        decreases num@.len() - i,
    {
        if num[i] != 0x30 {
            any_nonzero = true;
        }
        i = i + 1;
    }
    proof {
        lemma_dec_val_zero_iff(num@);
    }
    if !any_nonzero {
        let mut text: Vec<u8> = Vec::new();
        let mut k: usize = 0;
        while k < path.len()
            invariant
                k <= path@.len(),
                text@ == path@.take(k as int),
            decreases path@.len() - k,
        {
            text.push(path[k]);
            proof {
                assert(path@.take(k + 1) =~= path@.take(k as int).push(path@[k as int]));
            }
            k = k + 1;
        }
        proof {
            assert(text@ =~= path@);
        }
        return Err(Error::InvalidWeight { text });
    }
    let mut den: Vec<u8> = Vec::new();
    den.push(0x31);
    let mut k: usize = 0;
    let n = num.len();
    while k < n
        invariant
            k <= n,
            den@ =~= seq![0x31u8] + spec_zeros(k as nat),
        decreases n - k,
    {
        den.push(0x30);
        proof {
            assert(den@ =~= seq![0x31u8] + spec_zeros(k as nat + 1));
        }
        k = k + 1;
    }
    proof {
        lemma_dec_val_append(seq![0x31u8], spec_zeros(n as nat));
        assert(dec_val(seq![0x31u8]) == 1) by {
            assert((seq![0x31u8]).drop_last() =~= Seq::<u8>::empty());
            assert(dec_val(Seq::<u8>::empty()) == 0);
            assert((seq![0x31u8]).last() == 0x31u8);
        }
        assert(all_dec_digits(spec_zeros(n as nat)));
        lemma_dec_val_zero_iff(spec_zeros(n as nat));
        lemma_pow10_positive(n as nat);
        assert(dec_val(den@) == 1 * pow10(n as nat) + 0);
        assert(all_dec_digits(den@)) by {
            assert(forall|i2: int|
                0 <= i2 < den@.len() ==> is_dec_digit(#[trigger] den@[i2]));
        }
    }
    Ok(Weight { num, den })
}

/// The weight override a scalar denotes, as numerator and denominator
/// digit strings: a fraction `a/b`, a plain integer, or a decimal
/// `a.b`; only values that are positive rationals count.
pub open spec fn spec_parse_weight(v: Seq<u8>) -> Option<(Seq<u8>, Seq<u8>)> {
    match crate::textutil::spec_find_byte(v, 0x2fu8) {
        Some(i) => {
            if 0 <= i < v.len() && dec_digits(v.take(i)) && dec_digits(v.skip(i + 1)) && dec_val(
                v.take(i),
            ) > 0 && dec_val(v.skip(i + 1)) > 0 {
                Some((v.take(i), v.skip(i + 1)))
            } else {
                None
            }
        },
        None => match crate::textutil::spec_find_byte(v, 0x2eu8) {
            Some(i) => {
                if 0 <= i < v.len() && dec_digits(v.take(i)) && dec_digits(v.skip(i + 1))
                    && dec_val(v.take(i) + v.skip(i + 1)) > 0 {
                    Some((v.take(i) + v.skip(i + 1), seq![0x31u8] + spec_zeros((v.len() - i - 1) as nat)))
                } else {
                    None
                }
            },
            None => {
                if dec_digits(v) && dec_val(v) > 0 {
                    Some((v, seq![0x31u8]))
                } else {
                    None
                }
            },
        },
    }
}

/// Parse a weight override scalar into a weight.
pub fn parse_weight(v: &[u8]) -> (r: Option<Weight>)
    ensures
        match r {
            Some(w) => spec_parse_weight(v@) == Some((w.num@, w.den@)) && weight_wf(w),
            None => spec_parse_weight(v@) is None,
        },
{
    let n = v.len();
    match crate::textutil::find_byte(v, 0x2f) {
        Some(i) => {
            proof {
                crate::textutil::lemma_find_byte_characterizes(v@, 0x2fu8);
            }
            let num = crate::textutil::copy_range(v, 0, i);
            let den = crate::textutil::copy_range(v, i + 1, n);
            proof {
                assert(num@ =~= v@.take(i as int));
                assert(den@ =~= v@.skip(i + 1));
            }
            if num.len() == 0 || den.len() == 0 {
                return None;
            }
            if !crate::docs::check_all_digits(num.as_slice()) {
                return None;
            }
            if !crate::docs::check_all_digits(den.as_slice()) {
                return None;
            }
            if !dec_nonzero(num.as_slice()) || !dec_nonzero(den.as_slice()) {
                return None;
            }
            Some(Weight { num, den })
        },
        None => {
            proof {
                crate::textutil::lemma_find_byte_characterizes(v@, 0x2fu8);
            }
            match crate::textutil::find_byte(v, 0x2e) {
                Some(i) => {
                    proof {
                        crate::textutil::lemma_find_byte_characterizes(v@, 0x2eu8);
                    }
                    let whole = crate::textutil::copy_range(v, 0, i);
                    let frac = crate::textutil::copy_range(v, i + 1, n);
                    proof {
                        assert(whole@ =~= v@.take(i as int));
                        assert(frac@ =~= v@.skip(i + 1));
                    }
                    if whole.len() == 0 || frac.len() == 0 {
                        return None;
                    }
                    if !crate::docs::check_all_digits(whole.as_slice()) {
                        return None;
                    }
                    if !crate::docs::check_all_digits(frac.as_slice()) {
                        return None;
                    }
                    let mut num = whole;
                    let fl = frac.len();
                    crate::docs::append_bytes(&mut num, frac.as_slice());
                    proof {
                        assert(num@ == v@.take(i as int) + v@.skip(i + 1));
                        assert(all_dec_digits(num@)) by {
                            assert(forall|j: int|
                                0 <= j < num@.len() ==> is_dec_digit(#[trigger] num@[j]));
                        }
                    }
                    if !dec_nonzero(num.as_slice()) {
                        return None;
                    }
                    let mut den: Vec<u8> = Vec::new();
                    den.push(0x31);
                    let mut k: usize = 0;
                    proof {
                        assert(den@ =~= seq![0x31u8] + spec_zeros(0));
                    }
                    while k < fl
                        invariant
                            k <= fl,
                            den@ =~= seq![0x31u8] + spec_zeros(k as nat),
                        decreases fl - k,
                    {
                        den.push(0x30);
                        proof {
                            assert(den@ =~= seq![0x31u8] + spec_zeros(k as nat + 1));
                        }
                        k = k + 1;
                    }
                    proof {
                        assert(fl == v@.len() - i - 1);
                        lemma_dec_val_append(seq![0x31u8], spec_zeros(fl as nat));
                        assert(dec_val(seq![0x31u8]) == 1) by {
                            assert((seq![0x31u8]).drop_last() =~= Seq::<u8>::empty());
                            assert(dec_val(Seq::<u8>::empty()) == 0);
                        }
                        assert(all_dec_digits(spec_zeros(fl as nat)));
                        lemma_dec_val_zero_iff(spec_zeros(fl as nat));
                        lemma_pow10_positive(fl as nat);
                        assert(dec_val(den@) == 1 * pow10(fl as nat) + 0);
                        assert(all_dec_digits(den@)) by {
                            assert(forall|j: int|
                                0 <= j < den@.len() ==> is_dec_digit(#[trigger] den@[j]));
                        }
                    }
                    Some(Weight { num, den })
                },
                None => {
                    proof {
                        crate::textutil::lemma_find_byte_characterizes(v@, 0x2eu8);
                    }
                    if v.len() == 0 {
                        return None;
                    }
                    if !crate::docs::check_all_digits(v) {
                        return None;
                    }
                    if !dec_nonzero(v) {
                        return None;
                    }
                    let num = crate::textutil::copy_range(v, 0, n);
                    let den: Vec<u8> = vec![0x31u8];
                    proof {
                        assert(num@ =~= v@);
                        assert(den@ =~= seq![0x31u8]);
                        assert(dec_val(den@) == 1) by {
                            assert(den@.drop_last() =~= Seq::<u8>::empty());
                            assert(dec_val(Seq::<u8>::empty()) == 0);
                        }
                    }
                    Some(Weight { num, den })
                },
            }
        },
    }
}

/// Strict lexicographic order on byte strings: a proper prefix comes
/// first, otherwise the first differing byte decides.
pub open spec fn bytes_lt(a: Seq<u8>, b: Seq<u8>) -> bool
    decreases a.len(),
{
    if b.len() == 0 {
        false
    } else if a.len() == 0 {
        true
    } else if a[0] < b[0] {
        true
    } else if a[0] == b[0] {
        bytes_lt(a.skip(1), b.skip(1))
    } else {
        false
    }
}

/// Every byte of `s` is a printable ASCII scalar: at least one, below
/// the eighth bit.
pub open spec fn ascii_bytes(s: Seq<u8>) -> bool {
    forall|i: int| 0 <= i < s.len() ==> 1 <= #[trigger] s[i] < 0x80
}

/// The weight expansion of an ASCII string: ten digits per byte, the
/// byte's own value.
proof fn lemma_wd_ascii_step(s: Seq<u8>)
    requires
        s.len() > 0,
        ascii_bytes(s),
    ensures
        spec_weight_digits(s) == spec_decimal_pad(s[0] as nat, 10) + spec_weight_digits(s.skip(1)),
        spec_decimal_pad(s[0] as nat, 10).len() == 10,
        dec_val(spec_decimal_pad(s[0] as nat, 10)) == s[0] as nat,
        all_dec_digits(spec_decimal_pad(s[0] as nat, 10)),
{
    assert(spec_group_len(s[0]) == 1);
    assert(s.take(1) =~= seq![s[0]]);
    assert(spec_block_val(seq![s[0]]) == s[0] as nat);
    lemma_dec_val_pad(s[0] as nat, 10);
    lemma_decimal_len_bound(s[0] as nat);
}

/// The weight expansion is made of decimal digits and has ten digits
/// per character.
proof fn lemma_wd_shape(s: Seq<u8>)
    requires
        ascii_bytes(s),
    ensures
        all_dec_digits(spec_weight_digits(s)),
        spec_weight_digits(s).len() == 10 * s.len(),
    decreases s.len(),
{
    if s.len() > 0 {
        lemma_wd_ascii_step(s);
        assert(ascii_bytes(s.skip(1))) by {
            assert(forall|i: int| 0 <= i < s.len() - 1 ==> #[trigger] s.skip(1)[i] == s[i + 1]);
        }
        lemma_wd_shape(s.skip(1));
        let blk = spec_decimal_pad(s[0] as nat, 10);
        let rest = spec_weight_digits(s.skip(1));
        assert(forall|i: int|
            0 <= i < (blk + rest).len() ==> is_dec_digit(#[trigger] (blk + rest)[i]));
    }
}

/// Strict monotonicity of the weight expansion over ASCII strings
/// without NUL bytes: a lexicographically smaller string denotes the
/// smaller rational. The weights compare as fractions over ten to the
/// expansion length.
pub proof fn lemma_weight_monotonic(a: Seq<u8>, b: Seq<u8>)
    requires
        ascii_bytes(a),
        ascii_bytes(b),
        bytes_lt(a, b),
    ensures
        dec_val(spec_weight_digits(a)) * pow10(spec_weight_digits(b).len() as nat) < dec_val(
            spec_weight_digits(b),
        ) * pow10(spec_weight_digits(a).len() as nat),
    decreases a.len(),
{
    lemma_wd_shape(a);
    lemma_wd_shape(b);
    let wa = spec_weight_digits(a);
    let wb = spec_weight_digits(b);
    let pa = pow10(wa.len() as nat);
    let pb = pow10(wb.len() as nat);
    lemma_pow10_positive(wa.len() as nat);
    lemma_pow10_positive(wb.len() as nat);
    lemma_wd_ascii_step(b);
    let b0 = b[0] as nat;
    let tb = spec_weight_digits(b.skip(1));
    assert(ascii_bytes(b.skip(1))) by {
        assert(forall|i: int| 0 <= i < b.len() - 1 ==> #[trigger] b.skip(1)[i] == b[i + 1]);
    }
    lemma_wd_shape(b.skip(1));
    lemma_dec_val_append(spec_decimal_pad(b0, 10), tb);
    let qb = pow10(tb.len() as nat);
    assert(dec_val(wb) == b0 * qb + dec_val(tb));
    lemma_pow10_positive(tb.len() as nat);
    if a.len() == 0 {
        assert(dec_val(wa) == 0);
        assert(pa == 1);
        assert(dec_val(wb) >= 1) by (nonlinear_arith)
            requires
                dec_val(wb) == b0 * qb + dec_val(tb),
                b0 >= 1,
                qb >= 1,
                dec_val(tb) >= 0,
        ;
        assert(0 * pb < dec_val(wb) * 1) by (nonlinear_arith)
            requires
                dec_val(wb) >= 1,
                pb >= 1,
        ;
    } else {
        lemma_wd_ascii_step(a);
        let a0 = a[0] as nat;
        let ta = spec_weight_digits(a.skip(1));
        assert(ascii_bytes(a.skip(1))) by {
            assert(forall|i: int| 0 <= i < a.len() - 1 ==> #[trigger] a.skip(1)[i] == a[i + 1]);
        }
        lemma_wd_shape(a.skip(1));
        lemma_dec_val_append(spec_decimal_pad(a0, 10), ta);
        let qa = pow10(ta.len() as nat);
        assert(dec_val(wa) == a0 * qa + dec_val(ta));
        lemma_dec_val_bound(ta);
        lemma_dec_val_bound(tb);
        lemma_pow10_adds(ta.len() as nat, 10);
        lemma_pow10_adds(tb.len() as nat, 10);
        assert(wa.len() == ta.len() + 10);
        assert(wb.len() == tb.len() + 10);
        let t10 = pow10(10);
        lemma_pow10_positive(10);
        assert(pa == qa * t10);
        assert(pb == qb * t10);
        if a0 < b0 {
            assert(dec_val(wa) * pb < dec_val(wb) * pa) by (nonlinear_arith)
                requires
                    dec_val(wa) == a0 * qa + dec_val(ta),
                    dec_val(wb) == b0 * qb + dec_val(tb),
                    dec_val(ta) < qa,
                    dec_val(tb) >= 0,
                    a0 + 1 <= b0,
                    qa >= 1,
                    qb >= 1,
                    t10 >= 1,
                    pa == qa * t10,
                    pb == qb * t10,
            ;
        } else {
            assert(a0 == b0);
            assert(bytes_lt(a.skip(1), b.skip(1)));
            lemma_weight_monotonic(a.skip(1), b.skip(1));
            assert(dec_val(ta) * qb < dec_val(tb) * qa);
            assert(dec_val(wa) * pb < dec_val(wb) * pa) by (nonlinear_arith)
                requires
                    dec_val(wa) == a0 * qa + dec_val(ta),
                    dec_val(wb) == a0 * qb + dec_val(tb),
                    dec_val(ta) * qb < dec_val(tb) * qa,
                    qa >= 1,
                    qb >= 1,
                    t10 >= 1,
                    pa == qa * t10,
                    pb == qb * t10,
            ;
        }
    }
}

} // verus!
