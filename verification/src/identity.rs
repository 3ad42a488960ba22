use vstd::prelude::*;

use crate::base36;
use crate::base36::{b36_digit_val, b36_val, spec_decode};
use crate::timeutil;

verus! {

/// Seconds subtracted from the Unix timestamp before encoding a fresh
/// uid; kept for compatibility with identities already on disk.
pub const UID_EPOCH_OFFSET: u64 = 49 * 365 * 24 * 3600;

/// A migration's identity: a base36 uid and a human-readable name.
/// Its textual form is `{uid}--{name}`.
#[derive(Clone, Debug, PartialEq, Eq)]
pub struct Identity {
    pub uid: Vec<u8>,
    pub name: Vec<u8>,
}

/// A `--` pair starts at position `i` of `s`.
pub open spec fn sep_at(s: Seq<u8>, i: int) -> bool {
    0 <= i && i + 2 <= s.len() && s[i] == 0x2du8 && s[i + 1] == 0x2du8
}

/// Position of the first `--` pair in `s`, if any.
pub open spec fn spec_find_sep(s: Seq<u8>) -> Option<int>
    decreases s.len(),
{
    if s.len() < 2 {
        None
    } else if s[0] == 0x2du8 && s[1] == 0x2du8 {
        Some(0)
    } else {
        match spec_find_sep(s.skip(1)) {
            Some(i) => Some(i + 1),
            None => None,
        }
    }
}

/// What splitting a token on its first `--` yields: the uid before it
/// and the name after it; absent when no `--` occurs.
pub open spec fn spec_identity_from(s: Seq<u8>) -> Option<(Seq<u8>, Seq<u8>)> {
    match spec_find_sep(s) {
        Some(i) => Some((s.take(i), s.skip(i + 2))),
        None => None,
    }
}

/// The textual form `{uid}--{name}`.
pub open spec fn spec_identity_text(uid: Seq<u8>, name: Seq<u8>) -> Seq<u8> {
    uid + seq![0x2du8, 0x2du8] + name
}

pub proof fn lemma_find_sep_characterizes(s: Seq<u8>)
    ensures
        match spec_find_sep(s) {
            Some(i) => sep_at(s, i) && (forall|j: int| 0 <= j < i ==> !#[trigger] sep_at(s, j)),
            None => forall|j: int| !#[trigger] sep_at(s, j),
        },
    decreases s.len(),
{
    if s.len() < 2 {
    } else if s[0] == 0x2du8 && s[1] == 0x2du8 {
    } else {
        lemma_find_sep_characterizes(s.skip(1));
        let t = s.skip(1);
        assert forall|j: int| 0 <= j < s.len() implies (#[trigger] sep_at(s, j) <==> (j == 0
            && sep_at(s, 0)) || (j >= 1 && sep_at(t, j - 1))) by {
            if j >= 1 && j + 2 <= s.len() {
                assert(t[j - 1] == s[j]);
                if j + 1 < s.len() {
                    assert(t[j] == s[j + 1]);
                }
            }
        }
    }
}

impl Identity {
    /// Assemble an identity from its parts, verbatim.
    pub fn build(uid: Vec<u8>, name: Vec<u8>) -> (r: Identity)
        ensures
            r.uid@ == uid@,
            r.name@ == name@,
    {
        Identity { uid, name }
    }

    /// A fresh identity: the uid encodes the current time in seconds,
    /// shifted by the compatibility offset, zero-padded to six base36
    /// digits; the name is taken verbatim.
    pub fn new(name: Vec<u8>) -> (r: Identity)
        ensures
            r.name@ == name@,
            r.uid@.len() >= 6,
            spec_decode(r.uid@) is Some,
    {
        let now = timeutil::unix_now_secs();
        let secs: u64 = if now < 0 {
            0
        } else {
            now as u64
        };
        let shifted: u64 = if secs >= UID_EPOCH_OFFSET {
            secs - UID_EPOCH_OFFSET
        } else {
            0
        };
        let uid = Self::generate_uid(shifted as u128);
        Identity { uid, name }
    }

    /// The base36 encoding of `value`, zero-padded to six digits.
    fn generate_uid(value: u128) -> (r: Vec<u8>)
        ensures
            r@.len() >= 6,
            b36_val(r@) == Some(value as nat),
            spec_decode(r@) is Some,
    {
        let mut r = base36::encode(value);
        proof {
            base36::lemma_b36_val_encode(value as nat);
        }
        while r.len() < 6
            invariant
                b36_val(r@) == Some(value as nat),
                r@.len() >= 1,
            decreases 6 - r@.len(),
        {
            let ghost prev = r@;
            proof {
                base36::lemma_decode_leading_zero(prev);
            }
            r.insert(0, 0x30);
            proof {
                assert(r@ =~= seq![0x30u8] + prev);
            }
        }
        r
    }

    /// Split a token on its first `--` into uid and name; absent when
    /// the token holds no `--`.
    pub fn from_str(token: &[u8]) -> (r: Option<Identity>)
        ensures
            match r {
                Some(id) => spec_identity_from(token@) == Some((id.uid@, id.name@)),
                None => spec_identity_from(token@) is None,
            },
    {
        let n = token.len();
        if n < 2 {
            proof {
                lemma_find_sep_characterizes(token@);
                assert(forall|j: int| !sep_at(token@, j));
                assert(spec_find_sep(token@) is None);
            }
            return None;
        }
        let mut i: usize = 0;
        while i <= n - 2
            invariant
                2 <= n == token@.len(),
                i <= n,
                forall|j: int| 0 <= j < i ==> !#[trigger] sep_at(token@, j),
            decreases n - i,
        {
            if token[i] == 0x2d && token[i + 1] == 0x2d {
                let mut uid: Vec<u8> = Vec::new();
                let mut k: usize = 0;
                while k < i
                    invariant
                        k <= i <= n == token@.len(),
                        uid@ == token@.take(k as int),
                    decreases i - k,
                {
                    uid.push(token[k]);
                    proof {
                        assert(token@.take(k + 1) =~= token@.take(k as int).push(
                            token@[k as int],
                        ));
                    }
                    k = k + 1;
                }
                let mut name: Vec<u8> = Vec::new();
                let mut k: usize = i + 2;
                while k < n
                    invariant
                        i + 2 <= k <= n == token@.len(),
                        name@ == token@.skip(i + 2).take(k - i - 2),
                    decreases n - k,
                {
                    name.push(token[k]);
                    proof {
                        assert(token@.skip(i + 2).take(k + 1 - i - 2) =~= token@.skip(i + 2).take(
                            k - i - 2,
                        ).push(token@[k as int]));
                    }
                    k = k + 1;
                }
                proof {
                    lemma_find_sep_characterizes(token@);
                    assert(sep_at(token@, i as int));
                    assert(spec_find_sep(token@) == Some(i as int)) by {
                        match spec_find_sep(token@) {
                            Some(f) => {
                                if f < i {
                                    assert(!sep_at(token@, f));
                                } else if f > i {
                                    assert(!sep_at(token@, i as int));
                                }
                            },
                            None => {
                                assert(!sep_at(token@, i as int));
                            },
                        }
                    }
                    assert(name@ =~= token@.skip(i + 2));
                }
                return Some(Identity { uid, name });
            }
            i = i + 1;
        }
        proof {
            lemma_find_sep_characterizes(token@);
            assert(forall|j: int| #[trigger] sep_at(token@, j) ==> 0 <= j && j + 2 <= n);
            assert(spec_find_sep(token@) is None) by {
                match spec_find_sep(token@) {
                    Some(f) => {
                        assert(!sep_at(token@, f));
                    },
                    None => {},
                }
            }
        }
        None
    }

    /// The uid part.
    pub fn get_uid(&self) -> (r: &Vec<u8>)
        ensures
            r@ == self.uid@,
    {
        &self.uid
    }

    /// The numeric id: the uid decoded as base36.
    pub fn get_id(&self) -> (r: Option<u128>)
        ensures
            r == spec_decode(self.uid@),
    {
        base36::decode(self.uid.as_slice())
    }

    /// The name part.
    pub fn get_name(&self) -> (r: &Vec<u8>)
        ensures
            r@ == self.name@,
    {
        &self.name
    }

    /// The textual form `{uid}--{name}`.
    pub fn text(&self) -> (r: Vec<u8>)
        ensures
            r@ == spec_identity_text(self.uid@, self.name@),
    {
        let mut r = self.uid.clone();
        r.push(0x2d);
        r.push(0x2d);
        let mut n = self.name.clone();
        r.append(&mut n);
        proof {
            assert(r@ =~= spec_identity_text(self.uid@, self.name@));
        }
        r
    }

}

/// Round trip: parsing the textual form of an identity whose uid holds
/// no `-` byte returns the identity unchanged. A uid that decodes in
/// base36 holds no `-`.
pub proof fn lemma_identity_round_trip(uid: Seq<u8>, name: Seq<u8>)
    requires
        forall|i: int| 0 <= i < uid.len() ==> uid[i] != 0x2du8,
    ensures
        spec_identity_from(spec_identity_text(uid, name)) == Some((uid, name)),
{
    let s = spec_identity_text(uid, name);
    let i = uid.len() as int;
    lemma_find_sep_characterizes(s);
    assert(s[i] == 0x2du8 && s[i + 1] == 0x2du8);
    assert(sep_at(s, i));
    assert(forall|j: int| 0 <= j < i ==> s[j] == uid[j] && !sep_at(s, j));
    match spec_find_sep(s) {
        Some(f) => {
            if f < i {
                assert(!sep_at(s, f));
            } else if f > i {
                assert(!sep_at(s, i));
            }
            assert(f == i);
            assert(s.take(i) =~= uid);
            assert(s.skip(i + 2) =~= name);
        },
        None => {
            assert(!sep_at(s, i));
        },
    }
}

/// A uid accepted by the base36 decoder holds no `-` byte, so the
/// round trip above applies to every identity whose uid decodes.
pub proof fn lemma_decodable_uid_has_no_dash(uid: Seq<u8>)
    requires
        b36_val(uid) is Some,
    ensures
        forall|i: int| 0 <= i < uid.len() ==> uid[i] != 0x2du8,
    decreases uid.len(),
{
    if uid.len() > 0 {
        lemma_decodable_uid_has_no_dash(uid.drop_last());
        assert(b36_digit_val(uid.last()) is Some);
        assert forall|i: int| 0 <= i < uid.len() implies uid[i] != 0x2du8 by {
            if i < uid.len() - 1 {
                assert(uid[i] == uid.drop_last()[i]);
            } else {
                assert(uid[i] == uid.last());
            }
        }
    }
}

} // verus!
