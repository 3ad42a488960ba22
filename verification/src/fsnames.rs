use vstd::prelude::*;

use crate::identity::{spec_find_sep, spec_identity_from, Identity};
use crate::textutil::{is_prefix, starts_with};

verus! {

/// A folder name begins with the pattern followed by `--`.
pub open spec fn spec_prefix_match(name: Seq<u8>, pattern: Seq<u8>) -> bool {
    is_prefix(name, pattern) && is_prefix(name.skip(pattern.len() as int), seq![0x2du8, 0x2du8])
}

/// A folder name's part after its first `--` equals the pattern.
pub open spec fn spec_suffix_match(name: Seq<u8>, pattern: Seq<u8>) -> bool {
    match spec_find_sep(name) {
        Some(i) => name.skip(i + 2) == pattern,
        None => false,
    }
}

/// Position of the first name that begins with the pattern followed by
/// `--`.
pub open spec fn spec_find_prefix_match(names: Seq<Seq<u8>>, pattern: Seq<u8>) -> Option<int>
    decreases names.len(),
{
    if names.len() == 0 {
        None
    } else if spec_prefix_match(names[0], pattern) {
        Some(0)
    } else {
        match spec_find_prefix_match(names.skip(1), pattern) {
            Some(i) => Some(i + 1),
            None => None,
        }
    }
}

/// Position of the first name whose part after `--` equals the pattern.
pub open spec fn spec_find_suffix_match(names: Seq<Seq<u8>>, pattern: Seq<u8>) -> Option<int>
    decreases names.len(),
{
    if names.len() == 0 {
        None
    } else if spec_suffix_match(names[0], pattern) {
        Some(0)
    } else {
        match spec_find_suffix_match(names.skip(1), pattern) {
            Some(i) => Some(i + 1),
            None => None,
        }
    }
}

/// How many names have the pattern as their part after `--`.
pub open spec fn spec_suffix_count(names: Seq<Seq<u8>>, pattern: Seq<u8>) -> int
    decreases names.len(),
{
    if names.len() == 0 {
        0
    } else {
        (if spec_suffix_match(names[0], pattern) {
            1int
        } else {
            0int
        }) + spec_suffix_count(names.skip(1), pattern)
    }
}

/// What pattern lookup returns: a name beginning with the pattern
/// followed by `--` wins outright; otherwise the single name whose
/// part after `--` equals the pattern; zero or several such names
/// yield nothing.
pub open spec fn spec_lookup_pattern(names: Seq<Seq<u8>>, pattern: Seq<u8>) -> Option<
    (Seq<u8>, Seq<u8>),
> {
    match spec_find_prefix_match(names, pattern) {
        Some(i) => spec_identity_from(names[i]),
        None => {
            if spec_suffix_count(names, pattern) == 1 {
                spec_identity_from(names[spec_find_suffix_match(names, pattern)->0])
            } else {
                None
            }
        },
    }
}

pub proof fn lemma_find_prefix_characterizes(names: Seq<Seq<u8>>, pattern: Seq<u8>)
    ensures
        match spec_find_prefix_match(names, pattern) {
            Some(i) => 0 <= i < names.len() && spec_prefix_match(names[i], pattern) && (forall|
                j: int,
            |
                0 <= j < i ==> !spec_prefix_match(#[trigger] names[j], pattern)),
            None => forall|j: int|
                0 <= j < names.len() ==> !spec_prefix_match(#[trigger] names[j], pattern),
        },
    decreases names.len(),
{
    if names.len() == 0 {
    } else if spec_prefix_match(names[0], pattern) {
    } else {
        lemma_find_prefix_characterizes(names.skip(1), pattern);
        let t = names.skip(1);
        assert(forall|j: int| 0 <= j < t.len() ==> t[j] == #[trigger] names[j + 1]);
        match spec_find_prefix_match(t, pattern) {
            Some(i2) => {
                assert forall|j: int|
                    0 <= j < i2 + 1 implies !spec_prefix_match(#[trigger] names[j], pattern) by {
                    if j >= 1 {
                        assert(t[j - 1] == names[j]);
                    }
                }
            },
            None => {
                assert forall|j: int|
                    0 <= j < names.len() implies !spec_prefix_match(
                    #[trigger] names[j],
                    pattern,
                ) by {
                    if j >= 1 {
                        assert(t[j - 1] == names[j]);
                    }
                }
            },
        }
    }
}

pub proof fn lemma_find_suffix_characterizes(names: Seq<Seq<u8>>, pattern: Seq<u8>)
    ensures
        match spec_find_suffix_match(names, pattern) {
            Some(i) => 0 <= i < names.len() && spec_suffix_match(names[i], pattern) && (forall|
                j: int,
            |
                0 <= j < i ==> !spec_suffix_match(#[trigger] names[j], pattern)),
            None => forall|j: int|
                0 <= j < names.len() ==> !spec_suffix_match(#[trigger] names[j], pattern),
        },
    decreases names.len(),
{
    if names.len() == 0 {
    } else if spec_suffix_match(names[0], pattern) {
    } else {
        lemma_find_suffix_characterizes(names.skip(1), pattern);
        let t = names.skip(1);
        assert(forall|j: int| 0 <= j < t.len() ==> t[j] == #[trigger] names[j + 1]);
        match spec_find_suffix_match(t, pattern) {
            Some(i2) => {
                assert forall|j: int|
                    0 <= j < i2 + 1 implies !spec_suffix_match(#[trigger] names[j], pattern) by {
                    if j >= 1 {
                        assert(t[j - 1] == names[j]);
                    }
                }
            },
            None => {
                assert forall|j: int|
                    0 <= j < names.len() implies !spec_suffix_match(
                    #[trigger] names[j],
                    pattern,
                ) by {
                    if j >= 1 {
                        assert(t[j - 1] == names[j]);
                    }
                }
            },
        }
    }
}

/// Does this name begin with the pattern followed by `--`?
fn check_prefix_match(name: &Vec<u8>, pattern: &[u8]) -> (r: bool)
    ensures
        r == spec_prefix_match(name@, pattern@),
{
    let sep: [u8; 2] = [0x2d, 0x2d];
    proof {
        assert(sep@ =~= seq![0x2du8, 0x2du8]);
    }
    if starts_with(name.as_slice(), pattern) {
        let rest = crate::textutil::copy_range(name.as_slice(), pattern.len(), name.len());
        proof {
            assert(rest@ =~= name@.skip(pattern@.len() as int));
        }
        starts_with(rest.as_slice(), &sep)
    } else {
        false
    }
}

/// Does this name's part after its first `--` equal the pattern? The
/// parsed identity comes along when it does.
fn check_suffix_match(name: &Vec<u8>, pattern: &[u8]) -> (r: Option<Identity>)
    ensures
        match r {
            Some(id) => spec_suffix_match(name@, pattern@) && spec_identity_from(name@) == Some(
                (id.uid@, id.name@),
            ),
            None => !spec_suffix_match(name@, pattern@),
        },
{
    match Identity::from_str(name.as_slice()) {
        Some(cand) => {
            let suffix_eq = crate::textutil::bytes_eq(cand.get_name().as_slice(), pattern);
            proof {
                assert(spec_identity_from(name@) == Some((cand.uid@, cand.name@)));
                match spec_find_sep(name@) {
                    Some(ix) => {
                        assert(cand.name@ == name@.skip(ix + 2));
                    },
                    None => {},
                }
                assert(suffix_eq == spec_suffix_match(name@, pattern@));
            }
            if suffix_eq {
                Some(cand)
            } else {
                None
            }
        },
        None => {
            proof {
                assert(spec_identity_from(name@) is None);
                assert(!spec_suffix_match(name@, pattern@)) by {
                    match spec_find_sep(name@) {
                        Some(ix) => {
                            assert(false);
                        },
                        None => {},
                    }
                }
            }
            None
        },
    }
}

/// Look a migration up by pattern among folder names: a name beginning
/// with the pattern followed by `--` matches outright; otherwise a
/// name whose part after `--` equals the pattern matches if it is the
/// only one; zero or several such names yield nothing.
pub fn lookup_pattern(names: &Vec<Vec<u8>>, pattern: &[u8]) -> (r: Option<Identity>)
    ensures
        match r {
            Some(id) => spec_lookup_pattern(crate::textutil::views_of(names@), pattern@) == Some(
                (id.uid@, id.name@),
            ),
            None => spec_lookup_pattern(crate::textutil::views_of(names@), pattern@) is None,
        },
{
    let ghost nv = crate::textutil::views_of(names@);
    let mut i: usize = 0;
    while i < names.len()
        invariant
            i <= names@.len(),
            nv == crate::textutil::views_of(names@),
            nv.len() == names@.len(),
            forall|j: int| 0 <= j < nv.len() ==> nv[j] == #[trigger] names@[j]@,
            forall|j: int| 0 <= j < i ==> !spec_prefix_match(#[trigger] nv[j], pattern@),
        decreases names@.len() - i,
    {
        if check_prefix_match(&names[i], pattern) {
            proof {
                lemma_find_prefix_characterizes(nv, pattern@);
                match spec_find_prefix_match(nv, pattern@) {
                    Some(f) => {
                        if f < i {
                            assert(!spec_prefix_match(nv[f], pattern@));
                        } else if f > i {
                            assert(!spec_prefix_match(nv[i as int], pattern@));
                        }
                    },
                    None => {
                        assert(!spec_prefix_match(nv[i as int], pattern@));
                    },
                }
                assert(spec_find_prefix_match(nv, pattern@) == Some(i as int));
            }
            let r = Identity::from_str(names[i].as_slice());
            proof {
                match &r {
                    Some(id) => {
                        assert(spec_identity_from(nv[i as int]) == Some((id.uid@, id.name@)));
                    },
                    None => {
                        assert(spec_identity_from(nv[i as int]) is None);
                    },
                }
            }
            return r;
        }
        i = i + 1;
    }
    proof {
        lemma_find_prefix_characterizes(nv, pattern@);
        match spec_find_prefix_match(nv, pattern@) {
            Some(f) => {
                assert(!spec_prefix_match(nv[f], pattern@));
            },
            None => {},
        }
        assert(spec_find_prefix_match(nv, pattern@) is None);
        assert(nv.skip(0) =~= nv);
    }
    let mut count: usize = 0;
    let mut first: Option<Identity> = None;
    let mut k: usize = 0;
    while k < names.len()
        invariant
            k <= names@.len(),
            nv == crate::textutil::views_of(names@),
            nv.len() == names@.len(),
            forall|j: int| 0 <= j < nv.len() ==> nv[j] == #[trigger] names@[j]@,
            count <= k,
            count as int + spec_suffix_count(nv.skip(k as int), pattern@) == spec_suffix_count(
                nv,
                pattern@,
            ),
            match first {
                Some(id) => count > 0 && spec_find_suffix_match(nv, pattern@) is Some
                    && spec_identity_from(
                    nv[spec_find_suffix_match(nv, pattern@)->0],
                ) == Some((id.uid@, id.name@)),
                None => count == 0 && forall|j: int|
                    0 <= j < k ==> !spec_suffix_match(#[trigger] nv[j], pattern@),
            },
        decreases names@.len() - k,
    {
        proof {
            assert(nv.skip(k as int)[0] == nv[k as int]);
            assert(nv.skip(k as int).skip(1) =~= nv.skip(k + 1));
        }
        match check_suffix_match(&names[k], pattern) {
            Some(cand) => {
                if count == 0 {
                    proof {
                        lemma_find_suffix_characterizes(nv, pattern@);
                        match spec_find_suffix_match(nv, pattern@) {
                            Some(f) => {
                                if f < k {
                                    assert(!spec_suffix_match(nv[f], pattern@));
                                } else if f > k {
                                    assert(!spec_suffix_match(nv[k as int], pattern@));
                                }
                            },
                            None => {
                                assert(!spec_suffix_match(nv[k as int], pattern@));
                            },
                        }
                        assert(spec_find_suffix_match(nv, pattern@) == Some(k as int));
                    }
                    first = Some(cand);
                }
                count = count + 1;
            },
            None => {},
        }
        k = k + 1;
    }
    proof {
        assert(nv.skip(k as int) =~= Seq::<Seq<u8>>::empty());
        assert(spec_suffix_count(nv.skip(k as int), pattern@) == 0);
    }
    if count == 1 {
        first
    } else {
        None
    }
}

/// When no name is a prefix match, two suffix matches leave the lookup
/// with nothing, whatever the other names hold.
pub proof fn lemma_lookup_ambiguous(names: Seq<Seq<u8>>, pattern: Seq<u8>, a: int, b: int)
    requires
        0 <= a < b < names.len(),
        forall|j: int| 0 <= j < names.len() ==> !spec_prefix_match(#[trigger] names[j], pattern),
        spec_suffix_match(names[a], pattern),
        spec_suffix_match(names[b], pattern),
    ensures
        spec_lookup_pattern(names, pattern) is None,
{
    lemma_find_prefix_characterizes(names, pattern);
    match spec_find_prefix_match(names, pattern) {
        Some(f) => {
            assert(!spec_prefix_match(names[f], pattern));
        },
        None => {},
    }
    lemma_suffix_count_two(names, pattern, a, b);
}

/// Two distinct suffix matches push the count to at least two.
proof fn lemma_suffix_count_two(names: Seq<Seq<u8>>, pattern: Seq<u8>, a: int, b: int)
    requires
        0 <= a < b < names.len(),
        spec_suffix_match(names[a], pattern),
        spec_suffix_match(names[b], pattern),
    ensures
        spec_suffix_count(names, pattern) >= 2,
    decreases names.len(),
{
    let t = names.skip(1);
    assert(forall|j: int| 0 <= j < t.len() ==> t[j] == #[trigger] names[j + 1]);
    if a == 0 {
        lemma_suffix_count_one(t, pattern, b - 1);
    } else {
        lemma_suffix_count_two(t, pattern, a - 1, b - 1);
    }
}

/// One suffix match pushes the count to at least one.
proof fn lemma_suffix_count_one(names: Seq<Seq<u8>>, pattern: Seq<u8>, a: int)
    requires
        0 <= a < names.len(),
        spec_suffix_match(names[a], pattern),
    ensures
        spec_suffix_count(names, pattern) >= 1,
    decreases names.len(),
{
    let t = names.skip(1);
    assert(forall|j: int| 0 <= j < t.len() ==> t[j] == #[trigger] names[j + 1]);
    if a == 0 {
        lemma_suffix_count_nonneg(t, pattern);
    } else {
        lemma_suffix_count_one(t, pattern, a - 1);
    }
}

/// The suffix-match count is never negative.
proof fn lemma_suffix_count_nonneg(names: Seq<Seq<u8>>, pattern: Seq<u8>)
    ensures
        spec_suffix_count(names, pattern) >= 0,
    decreases names.len(),
{
    if names.len() > 0 {
        lemma_suffix_count_nonneg(names.skip(1), pattern);
    }
}

} // verus!
