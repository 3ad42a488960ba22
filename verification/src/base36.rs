use vstd::prelude::*;

verus! {

/// Byte of the lowercase base36 alphabet for a digit value below 36.
pub open spec fn b36_digit_char(d: nat) -> u8 {
    if d < 10 {
        (0x30 + d) as u8
    } else {
        (0x61 + (d - 10)) as u8
    }
}

/// Digit value of an alphabet byte: `0-9` and lowercase `a-z` only.
pub open spec fn b36_digit_val(b: u8) -> Option<nat> {
    if 0x30 <= b && b <= 0x39 {
        Some((b - 0x30) as nat)
    } else if 0x61 <= b && b <= 0x7a {
        Some((b - 0x61 + 10) as nat)
    } else {
        None
    }
}

/// Minimum-length lowercase base36 byte string of `n`.
pub open spec fn spec_encode(n: nat) -> Seq<u8>
    decreases n,
{
    if n < 36 {
        seq![b36_digit_char(n)]
    } else {
        spec_encode(n / 36) + seq![b36_digit_char(n % 36)]
    }
}

/// Numeric value of a base36 byte string; absent when a byte is
/// outside the alphabet. The empty string has value zero.
pub open spec fn b36_val(s: Seq<u8>) -> Option<nat>
    decreases s.len(),
{
    if s.len() == 0 {
        Some(0)
    } else {
        match (b36_val(s.drop_last()), b36_digit_val(s.last())) {
            (Some(v), Some(d)) => Some(v * 36 + d),
            _ => None,
        }
    }
}

/// What `decode` returns: absent on the empty string, on any byte
/// outside `0-9a-z`, and on values that do not fit 128 bits.
pub open spec fn spec_decode(s: Seq<u8>) -> Option<u128> {
    if s.len() == 0 {
        None
    } else {
        match b36_val(s) {
            Some(v) => if v <= u128::MAX {
                Some(v as u128)
            } else {
                None
            },
            None => None,
        }
    }
}

proof fn lemma_b36_val_prefix(s: Seq<u8>, i: int)
    requires
        0 <= i <= s.len(),
    ensures
        b36_val(s) is Some ==> b36_val(s.take(i)) is Some && b36_val(s.take(i))->0 <= b36_val(
            s,
        )->0,
    decreases s.len() - i,
{
    if i < s.len() {
        lemma_b36_val_prefix(s, i + 1);
        if b36_val(s) is Some {
            assert(s.take(i + 1).drop_last() =~= s.take(i));
            assert(b36_val(s.take(i + 1)) == Some(
                b36_val(s.take(i))->0 * 36 + b36_digit_val(s.take(i + 1).last())->0,
            ));
        }
    } else {
        assert(s.take(i) =~= s);
    }
}

proof fn lemma_b36_val_invalid_digit(s: Seq<u8>, i: int)
    requires
        0 <= i < s.len(),
        b36_digit_val(s[i]) is None,
    ensures
        b36_val(s) is None,
    decreases s.len(),
{
    if i == s.len() - 1 {
    } else {
        lemma_b36_val_invalid_digit(s.drop_last(), i);
    }
}

/// Encode a 128-bit integer as its minimum-length lowercase base36 string.
pub fn encode(value: u128) -> (r: Vec<u8>)
    ensures
        r@ == spec_encode(value as nat),
{
    let mut r: Vec<u8> = Vec::new();
    let mut v: u128 = value;
    while v >= 36
        invariant
            spec_encode(value as nat) == spec_encode(v as nat) + r@,
        decreases v,
    {
        let d: u8 = (v % 36) as u8;
        let c: u8 = if d < 10 {
            0x30 + d
        } else {
            0x61 + (d - 10)
        };
        proof {
            assert(c == b36_digit_char((v % 36) as nat));
            assert(spec_encode(v as nat) == spec_encode((v as nat) / 36) + seq![
                b36_digit_char((v as nat) % 36),
            ]);
            assert(spec_encode(value as nat) == spec_encode((v as nat) / 36) + (seq![c] + r@));
        }
        r.insert(0, c);
        v = v / 36;
    }
    let d: u8 = v as u8;
    let c: u8 = if d < 10 {
        0x30 + d
    } else {
        0x61 + (d - 10)
    };
    proof {
        assert(c == b36_digit_char(v as nat));
        assert(spec_encode(v as nat) == seq![c]);
    }
    r.insert(0, c);
    proof {
        assert(r@ =~= spec_encode(value as nat));
    }
    r
}

/// Decode a lowercase base36 byte string into a 128-bit integer.
/// Absent on the empty string, on bytes outside the alphabet, and on
/// values that overflow 128 bits. Leading zeros are accepted.
pub fn decode(s: &[u8]) -> (r: Option<u128>)
    ensures
        r == spec_decode(s@),
{
    if s.len() == 0 {
        return None;
    }
    let mut acc: u128 = 0;
    let mut i: usize = 0;
    while i < s.len()
        invariant
            0 <= i <= s@.len(),
            b36_val(s@.take(i as int)) == Some(acc as nat),
        decreases s@.len() - i,
    {
        let b = s[i];
        let d: u8 = if 0x30 <= b && b <= 0x39 {
            b - 0x30
        } else if 0x61 <= b && b <= 0x7a {
            b - 0x61 + 10
        } else {
            proof {
                lemma_b36_val_invalid_digit(s@, i as int);
            }
            return None;
        };
        proof {
            assert(b36_digit_val(b) == Some(d as nat));
        }
        if acc > (u128::MAX - d as u128) / 36 {
            proof {
                assert(b36_val(s@.take(i + 1)) == Some((acc as nat) * 36 + d as nat)) by {
                    assert(s@.take(i + 1).drop_last() =~= s@.take(i as int));
                };
                assert((acc as nat) * 36 + d as nat > u128::MAX) by {
                    assert(acc as nat >= (u128::MAX - d as u128) / 36 + 1);
                    assert((((u128::MAX - d as u128) / 36 + 1) as nat) * 36 >= u128::MAX - d
                        + 1) by (nonlinear_arith);
                    assert((acc as nat) * 36 >= (((u128::MAX - d as u128) / 36 + 1) as nat)
                        * 36) by (nonlinear_arith)
                        requires
                            acc as nat >= (u128::MAX - d as u128) / 36 + 1,
                    ;
                };
                lemma_b36_val_prefix(s@, i + 1);
            }
            return None;
        }
        proof {
            assert(s@.take(i + 1).drop_last() =~= s@.take(i as int));
            assert(s@.take(i + 1).last() == s@[i as int]);
        }
        acc = acc * 36 + d as u128;
        i = i + 1;
    }
    proof {
        assert(s@.take(i as int) =~= s@);
    }
    Some(acc)
}

/// Value of the base36 expansion of `n`: decoding what `encode`
/// produced gives `n` back.
pub proof fn lemma_b36_val_encode(n: nat)
    ensures
        b36_val(spec_encode(n)) == Some(n),
    decreases n,
{
    if n < 36 {
        let e = spec_encode(n);
        assert(e =~= seq![b36_digit_char(n)]);
        assert(e.drop_last() =~= Seq::<u8>::empty());
        assert(e.last() == b36_digit_char(n));
        assert(b36_digit_val(b36_digit_char(n)) == Some(n));
        assert(b36_val(Seq::<u8>::empty()) == Some(0nat));
        assert(b36_val(e) == Some(0 * 36 + n));
    } else {
        lemma_b36_val_encode(n / 36);
        let e = spec_encode(n);
        assert(e == spec_encode(n / 36) + seq![b36_digit_char(n % 36)]);
        assert(e.len() == spec_encode(n / 36).len() + 1);
        assert(e.drop_last() =~= spec_encode(n / 36));
        assert(e.last() == b36_digit_char(n % 36));
        assert(b36_digit_val(b36_digit_char(n % 36)) == Some(n % 36));
        assert(b36_val(e) == Some((n / 36) * 36 + n % 36));
        assert(n / 36 * 36 + n % 36 == n);
    }
}

/// Round trip: decoding an encoded 128-bit integer returns that integer.
pub proof fn lemma_base36_round_trip(n: u128)
    ensures
        spec_decode(spec_encode(n as nat)) == Some(n),
{
    lemma_b36_val_encode(n as nat);
    assert(spec_encode(n as nat).len() > 0);
}

/// Decode ignores leading zeros: prefixing `0` bytes leaves the value unchanged.
pub proof fn lemma_decode_leading_zero(s: Seq<u8>)
    ensures
        b36_val(seq![0x30u8] + s) == b36_val(s),
    decreases s.len(),
{
    if s.len() == 0 {
        assert(seq![0x30u8] + s =~= seq![0x30u8]);
        assert((seq![0x30u8]).drop_last() =~= Seq::<u8>::empty());
        assert(b36_val(Seq::<u8>::empty()) == Some(0nat));
        assert(b36_digit_val(0x30u8) == Some(0nat));
        assert(b36_val(seq![0x30u8]) == Some(0 * 36 + 0nat));
    } else {
        lemma_decode_leading_zero(s.drop_last());
        let z = seq![0x30u8] + s;
        assert(z.len() == s.len() + 1);
        assert(z.drop_last() =~= seq![0x30u8] + s.drop_last());
        assert(z.last() == s.last());
        assert(b36_val(z) == match (b36_val(s.drop_last()), b36_digit_val(s.last())) {
            (Some(v), Some(d)) => Some(v * 36 + d),
            _ => None::<nat>,
        });
    }
}

} // verus!
