use vstd::prelude::*;

use crate::error::Error;
use crate::textutil::{copy_range, spec_find_byte, lemma_find_byte_characterizes};

verus! {

/// The identifier of a patch: a UUIDv5 over the OID namespace applied
/// to the debug-printed form of the patch's absolute path, as a 128-bit
/// integer. A function of the path bytes alone.
pub uninterp spec fn path_uuid_of(path: Seq<u8>) -> u128;

/// Relies on uuid::Uuid::new_v5 with Uuid::NAMESPACE_OID: the id is a
/// name-based digest of the path's debug-printed form, a function of
/// the path bytes alone, identical across processes and machines.
#[verifier::external_body]
pub fn path_uuid(path: &[u8]) -> (r: u128)
    ensures
        r == path_uuid_of(path@),
{
    let s = String::from_utf8_lossy(path);
    let printed = format!("{:?}", std::path::Path::new(s.as_ref()));
    uuid::Uuid::new_v5(&uuid::Uuid::NAMESPACE_OID, printed.as_bytes()).as_u128()
}

/// The non-empty `/`-separated segments of a path.
pub open spec fn spec_segments(s: Seq<u8>) -> Seq<Seq<u8>>
    decreases s.len(),
{
    if s.len() == 0 {
        Seq::empty()
    } else {
        match spec_find_byte(s, 0x2fu8) {
            Some(i) => if 0 <= i < s.len() {
                (if i > 0 {
                    seq![s.take(i)]
                } else {
                    Seq::empty()
                }) + spec_segments(s.skip(i + 1))
            } else {
                seq![s]
            },
            None => seq![s],
        }
    }
}

/// Does the path start with a slash?
pub open spec fn spec_is_abs(s: Seq<u8>) -> bool {
    s.len() > 0 && s[0] == 0x2fu8
}

/// Split a path into its non-empty segments.
pub fn segments(s: &[u8]) -> (r: Vec<Vec<u8>>)
    ensures
        crate::textutil::views_of(r@) == spec_segments(s@),
{
    let mut r: Vec<Vec<u8>> = Vec::new();
    let mut pos: usize = 0;
    proof {
        assert(s@.skip(0) =~= s@);
        assert(crate::textutil::views_of(r@) =~= Seq::<Seq<u8>>::empty());
        assert(crate::textutil::views_of(r@) + spec_segments(s@.skip(0)) =~= spec_segments(s@));
    }
    while pos < s.len()
        invariant
            pos <= s@.len(),
            crate::textutil::views_of(r@) + spec_segments(s@.skip(pos as int)) == spec_segments(
                s@,
            ),
        decreases s@.len() - pos,
    {
        let ghost rest = s@.skip(pos as int);
        let mut i: usize = pos;
        while i < s.len() && s[i] != 0x2f
            invariant
                pos <= i <= s@.len(),
                forall|j: int| pos <= j < i ==> s@[j] != 0x2fu8,
            decreases s@.len() - i,
        {
            i = i + 1;
        }
        proof {
            lemma_find_byte_characterizes(rest, 0x2fu8);
            assert(forall|j: int| 0 <= j < rest.len() ==> rest[j] == #[trigger] s@[pos + j]);
            if i < s.len() {
                assert(rest[i - pos] == 0x2fu8);
                match spec_find_byte(rest, 0x2fu8) {
                    Some(f) => {
                        if f < i - pos {
                            assert(rest[f] != 0x2fu8);
                            assert(s@[pos + f] != 0x2fu8);
                        } else if f > i - pos {
                            assert(rest[i - pos] != 0x2fu8);
                        }
                    },
                    None => {
                        assert(rest[i - pos] != 0x2fu8);
                    },
                }
                assert(spec_find_byte(rest, 0x2fu8) == Some(i - pos as int));
            } else {
                match spec_find_byte(rest, 0x2fu8) {
                    Some(f) => {
                        assert(rest[f] == 0x2fu8);
                        assert(s@[pos + f] == 0x2fu8);
                        assert(false);
                    },
                    None => {},
                }
            }
        }
        if i > pos {
            let seg = copy_range(s, pos, i);
            proof {
                assert(seg@ =~= rest.take(i - pos as int));
            }
            let ghost before = r@;
            r.push(seg);
            proof {
                assert(crate::textutil::views_of(r@) =~= crate::textutil::views_of(before) + seq![
                    seg@,
                ]);
            }
        }
        proof {
            if i < s.len() {
                assert(spec_segments(rest) == (if i - pos > 0 {
                    seq![rest.take(i - pos as int)]
                } else {
                    Seq::<Seq<u8>>::empty()
                }) + spec_segments(rest.skip(i - pos + 1)));
                assert(rest.skip(i - pos + 1) =~= s@.skip(i + 1));
            } else {
                assert(rest.take(i - pos as int) =~= rest);
                assert(spec_segments(rest) == seq![rest]);
            }
        }
        if i < s.len() {
            pos = i + 1;
        } else {
            pos = s.len();
            proof {
                assert(spec_segments(s@.skip(pos as int)) =~= Seq::<Seq<u8>>::empty());
            }
        }
        proof {
            assert(crate::textutil::views_of(r@) + spec_segments(s@.skip(pos as int))
                =~= spec_segments(s@));
        }
    }
    proof {
        assert(s@.skip(pos as int) =~= Seq::<u8>::empty());
        assert(crate::textutil::views_of(r@) =~= spec_segments(s@));
    }
    r
}

/// Segments joined with `/`, without a leading slash.
pub open spec fn spec_join(segs: Seq<Seq<u8>>) -> Seq<u8>
    decreases segs.len(),
{
    if segs.len() == 0 {
        Seq::empty()
    } else if segs.len() == 1 {
        segs[0]
    } else {
        segs[0] + seq![0x2fu8] + spec_join(segs.skip(1))
    }
}

/// Join segments with `/`.
pub fn join_segments(segs: &Vec<Vec<u8>>) -> (r: Vec<u8>)
    ensures
        r@ == spec_join(crate::textutil::views_of(segs@)),
{
    let mut r: Vec<u8> = Vec::new();
    let mut i: usize = 0;
    let ghost all = crate::textutil::views_of(segs@);
    proof {
        assert(all.skip(0) =~= all);
        assert(r@ + spec_join(all) =~= spec_join(all));
    }
    while i < segs.len()
        invariant
            i <= segs@.len(),
            all == crate::textutil::views_of(segs@),
            all.len() == segs@.len(),
            forall|j: int| 0 <= j < all.len() ==> all[j] == #[trigger] segs@[j]@,
            r@ + spec_join(all.skip(i as int)) == spec_join(all),
        decreases segs@.len() - i,
    {
        let seg = &segs[i];
        let mut k: usize = 0;
        let ghost before = r@;
        while k < seg.len()
            invariant
                k <= seg@.len(),
                r@ == before + seg@.take(k as int),
            decreases seg@.len() - k,
        {
            r.push(seg[k]);
            proof {
                assert(before + seg@.take(k + 1) =~= (before + seg@.take(k as int)).push(
                    seg@[k as int],
                ));
            }
            k = k + 1;
        }
        proof {
            assert(seg@.take(seg@.len() as int) =~= seg@);
            assert(r@ == before + seg@);
        }
        if i + 1 < segs.len() {
            r.push(0x2f);
            proof {
                let tail = all.skip(i as int);
                assert(tail.len() >= 2);
                assert(tail[0] == seg@);
                assert(spec_join(tail) == tail[0] + seq![0x2fu8] + spec_join(tail.skip(1)));
                assert(tail.skip(1) =~= all.skip(i + 1));
                assert(r@ =~= before + (seg@ + seq![0x2fu8]));
                assert(r@ + spec_join(all.skip(i + 1)) =~= (before + spec_join(tail)));
                assert(before + spec_join(tail) =~= spec_join(all)) by {
                    assert(before + spec_join(tail) == spec_join(all));
                }
                assert(r@ + spec_join(all.skip(i + 1)) == spec_join(all));
            }
        } else {
            proof {
                let tail = all.skip(i as int);
                assert(tail.len() == 1);
                assert(tail[0] == seg@);
                assert(spec_join(tail) == seg@);
                assert(r@ =~= before + spec_join(tail));
                assert(all.skip(i + 1) =~= Seq::<Seq<u8>>::empty());
                assert(spec_join(all.skip(i + 1)) =~= Seq::<u8>::empty());
                assert(r@ + spec_join(all.skip(i + 1)) =~= r@);
                assert(r@ + spec_join(all.skip(i + 1)) == spec_join(all));
            }
        }
        i = i + 1;
    }
    proof {
        assert(all.skip(i as int) =~= Seq::<Seq<u8>>::empty());
        assert(spec_join(all.skip(i as int)) =~= Seq::<u8>::empty());
        assert(r@ =~= r@ + spec_join(all.skip(i as int)));
        assert(r@ == spec_join(all));
    }
    r
}

/// Lexical normalization of a segment list: `.` segments vanish, `..`
/// removes the previous segment when one exists.
pub open spec fn spec_norm_acc(acc: Seq<Seq<u8>>, segs: Seq<Seq<u8>>) -> Seq<Seq<u8>>
    decreases segs.len(),
{
    if segs.len() == 0 {
        acc
    } else if segs[0] == seq![0x2eu8] {
        spec_norm_acc(acc, segs.skip(1))
    } else if segs[0] == seq![0x2eu8, 0x2eu8] {
        spec_norm_acc(
            if acc.len() > 0 {
                acc.drop_last()
            } else {
                acc
            },
            segs.skip(1),
        )
    } else {
        spec_norm_acc(acc.push(segs[0]), segs.skip(1))
    }
}

/// The normalized segments of an absolute path.
pub open spec fn spec_normal_segments(s: Seq<u8>) -> Seq<Seq<u8>> {
    spec_norm_acc(Seq::empty(), spec_segments(s))
}

/// The canonical text of an absolute path: a leading slash, then the
/// normalized segments joined with `/`.
pub open spec fn spec_normalize(s: Seq<u8>) -> Seq<u8> {
    seq![0x2fu8] + spec_join(spec_normal_segments(s))
}

/// Normalize an absolute path lexically: resolve `.` and `..` segments
/// and redundant slashes.
pub fn normalize(s: &[u8]) -> (r: Vec<u8>)
    ensures
        r@ == spec_normalize(s@),
{
    let segs = segments(s);
    let mut acc: Vec<Vec<u8>> = Vec::new();
    let mut i: usize = 0;
    let ghost all = crate::textutil::views_of(segs@);
    proof {
        assert(all.skip(0) =~= all);
        assert(crate::textutil::views_of(acc@) =~= Seq::<Seq<u8>>::empty());
    }
    while i < segs.len()
        invariant
            i <= segs@.len(),
            all == crate::textutil::views_of(segs@),
            all.len() == segs@.len(),
            forall|j: int| 0 <= j < all.len() ==> all[j] == #[trigger] segs@[j]@,
            spec_norm_acc(crate::textutil::views_of(acc@), all.skip(i as int)) == spec_norm_acc(
                Seq::empty(),
                all,
            ),
        decreases segs@.len() - i,
    {
        let seg = &segs[i];
        let ghost av = crate::textutil::views_of(acc@);
        proof {
            assert(all.skip(i as int)[0] == seg@);
            assert(all.skip(i as int).skip(1) =~= all.skip(i + 1));
        }
        if seg.len() == 1 && seg[0] == 0x2e {
            proof {
                assert(seg@ =~= seq![0x2eu8]);
            }
        } else if seg.len() == 2 && seg[0] == 0x2e && seg[1] == 0x2e {
            proof {
                assert(seg@ =~= seq![0x2eu8, 0x2eu8]);
                assert(seg@ != seq![0x2eu8]);
            }
            if acc.len() > 0 {
                acc.pop();
                proof {
                    assert(crate::textutil::views_of(acc@) =~= av.drop_last());
                }
            }
        } else {
            proof {
                assert(seg@ != seq![0x2eu8]);
                assert(seg@ != seq![0x2eu8, 0x2eu8]);
            }
            acc.push(seg.clone());
            proof {
                assert(crate::textutil::views_of(acc@) =~= av.push(seg@));
            }
        }
        i = i + 1;
    }
    proof {
        assert(all.skip(i as int) =~= Seq::<Seq<u8>>::empty());
        assert(crate::textutil::views_of(acc@) == spec_normal_segments(s@));
    }
    let joined = join_segments(&acc);
    let mut r: Vec<u8> = Vec::new();
    r.push(0x2f);
    let mut k: usize = 0;
    let ghost jv = joined@;
    while k < joined.len()
        invariant
            k <= joined@.len(),
            jv == joined@,
            r@ == seq![0x2fu8] + jv.take(k as int),
        decreases joined@.len() - k,
    {
        r.push(joined[k]);
        proof {
            assert(seq![0x2fu8] + jv.take(k + 1) =~= (seq![0x2fu8] + jv.take(k as int)).push(
                jv[k as int],
            ));
        }
        k = k + 1;
    }
    proof {
        assert(jv.take(jv.len() as int) =~= jv);
        assert(r@ =~= spec_normalize(s@));
    }
    r
}

/// Join a base path and a relative path with a slash, then normalize.
pub fn join_normalize(base: &[u8], rel: &[u8]) -> (r: Vec<u8>)
    ensures
        r@ == spec_normalize(base@ + seq![0x2fu8] + rel@),
{
    let mut joined: Vec<u8> = Vec::new();
    let mut i: usize = 0;
    while i < base.len()
        invariant
            i <= base@.len(),
            joined@ == base@.take(i as int),
        decreases base@.len() - i,
    {
        joined.push(base[i]);
        proof {
            assert(base@.take(i + 1) =~= base@.take(i as int).push(base@[i as int]));
        }
        i = i + 1;
    }
    proof {
        assert(joined@ =~= base@);
    }
    joined.push(0x2f);
    let mut k: usize = 0;
    while k < rel.len()
        invariant
            k <= rel@.len(),
            joined@ == base@ + seq![0x2fu8] + rel@.take(k as int),
        decreases rel@.len() - k,
    {
        joined.push(rel[k]);
        proof {
            assert(base@ + seq![0x2fu8] + rel@.take(k + 1) =~= (base@ + seq![0x2fu8] + rel@.take(
                k as int,
            )).push(rel@[k as int]));
        }
        k = k + 1;
    }
    proof {
        assert(joined@ =~= base@ + seq![0x2fu8] + rel@);
    }
    normalize(joined.as_slice())
}

/// The number of leading segments the two paths share.
pub open spec fn spec_matching(a: Seq<Seq<u8>>, b: Seq<Seq<u8>>) -> int
    decreases a.len(),
{
    if a.len() == 0 || b.len() == 0 {
        0
    } else if a[0] == b[0] {
        1 + spec_matching(a.skip(1), b.skip(1))
    } else {
        0
    }
}

/// `..` segments, one for each step from the base up to the shared
/// prefix, then the remaining target segments.
pub open spec fn spec_relpath_segments(base: Seq<Seq<u8>>, path: Seq<Seq<u8>>) -> Seq<Seq<u8>> {
    let m = spec_matching(base, path);
    Seq::new((base.len() - m) as nat, |i: int| seq![0x2eu8, 0x2eu8]) + path.skip(m)
}

/// The path from `base` to `path`, as text. When the two share no
/// leading component, the target path is returned unchanged; the root
/// of two absolute paths counts as a shared component, and the root of
/// an absolute path never matches the first name of a relative one.
pub open spec fn spec_relpath_to_base(base: Seq<u8>, path: Seq<u8>) -> Seq<u8> {
    let bs = spec_segments(base);
    let ps = spec_segments(path);
    let m = spec_matching(bs, ps);
    let shares_root = spec_is_abs(base) && spec_is_abs(path);
    if spec_is_abs(base) != spec_is_abs(path) {
        path
    } else if m == 0 && !shares_root {
        path
    } else {
        spec_join(spec_relpath_segments(bs, ps))
    }
}

/// Compute the relative path from `base` to `path`: one parent hop per
/// base segment beyond the longest shared prefix, then the remaining
/// target segments. Returns `path` unchanged when nothing is shared.
pub fn relpath_to_base(base: &[u8], path: &[u8]) -> (r: Vec<u8>)
    ensures
        r@ == spec_relpath_to_base(base@, path@),
{
    let bs = segments(base);
    let ps = segments(path);
    let ghost bsv = crate::textutil::views_of(bs@);
    let ghost psv = crate::textutil::views_of(ps@);
    let mut m: usize = 0;
    proof {
        assert(bsv.skip(0) =~= bsv);
        assert(psv.skip(0) =~= psv);
    }
    while m < bs.len() && m < ps.len() && crate::textutil::bytes_eq(
        bs[m].as_slice(),
        ps[m].as_slice(),
    )
        invariant
            m <= bsv.len(),
            m <= psv.len(),
            bsv == crate::textutil::views_of(bs@),
            psv == crate::textutil::views_of(ps@),
            bsv.len() == bs@.len(),
            psv.len() == ps@.len(),
            forall|j: int| 0 <= j < bsv.len() ==> bsv[j] == #[trigger] bs@[j]@,
            forall|j: int| 0 <= j < psv.len() ==> psv[j] == #[trigger] ps@[j]@,
            spec_matching(bsv, psv) == m + spec_matching(bsv.skip(m as int), psv.skip(m as int)),
        decreases bsv.len() - m,
    {
        proof {
            assert(bsv.skip(m as int)[0] == bs@[m as int]@);
            assert(psv.skip(m as int)[0] == ps@[m as int]@);
            assert(bsv.skip(m as int).skip(1) =~= bsv.skip(m + 1));
            assert(psv.skip(m as int).skip(1) =~= psv.skip(m + 1));
        }
        m = m + 1;
    }
    proof {
        let bt = bsv.skip(m as int);
        let pt = psv.skip(m as int);
        if m < bsv.len() && m < psv.len() {
            assert(bt[0] == bs@[m as int]@);
            assert(pt[0] == ps@[m as int]@);
            assert(bt[0] != pt[0]);
            assert(spec_matching(bt, pt) == 0);
        } else {
            assert(bt.len() == 0 || pt.len() == 0);
            assert(spec_matching(bt, pt) == 0);
        }
        assert(spec_matching(bsv, psv) == m as int);
    }
    let base_abs = base.len() > 0 && base[0] == 0x2f;
    let path_abs = path.len() > 0 && path[0] == 0x2f;
    if base_abs != path_abs || (m == 0 && !(base_abs && path_abs)) {
        let r = copy_range(path, 0, path.len());
        proof {
            assert(r@ =~= path@);
        }
        return r;
    }
    let mut out: Vec<Vec<u8>> = Vec::new();
    let mut k: usize = m;
    while k < bs.len()
        invariant
            m <= k <= bsv.len(),
            bsv.len() == bs@.len(),
            crate::textutil::views_of(out@) =~= Seq::new(
                (k - m) as nat,
                |i: int| seq![0x2eu8, 0x2eu8],
            ),
        decreases bsv.len() - k,
    {
        let mut dd: Vec<u8> = Vec::new();
        dd.push(0x2e);
        dd.push(0x2e);
        proof {
            assert(dd@ =~= seq![0x2eu8, 0x2eu8]);
        }
        let ghost before = crate::textutil::views_of(out@);
        out.push(dd);
        proof {
            assert(crate::textutil::views_of(out@) =~= before.push(dd@));
            assert(crate::textutil::views_of(out@) =~= Seq::new(
                (k + 1 - m) as nat,
                |i: int| seq![0x2eu8, 0x2eu8],
            ));
        }
        k = k + 1;
    }
    let mut k: usize = m;
    while k < ps.len()
        invariant
            m <= k <= psv.len(),
            psv.len() == ps@.len(),
            psv == crate::textutil::views_of(ps@),
            forall|j: int| 0 <= j < psv.len() ==> psv[j] == #[trigger] ps@[j]@,
            bsv.len() >= m,
            crate::textutil::views_of(out@) =~= Seq::new(
                (bsv.len() - m) as nat,
                |i: int| seq![0x2eu8, 0x2eu8],
            ) + psv.subrange(m as int, k as int),
        decreases psv.len() - k,
    {
        let seg = ps[k].clone();
        let ghost before = crate::textutil::views_of(out@);
        out.push(seg);
        proof {
            assert(crate::textutil::views_of(out@) =~= before.push(ps@[k as int]@));
            assert(before.push(psv[k as int]) =~= Seq::new(
                (bsv.len() - m) as nat,
                |i: int| seq![0x2eu8, 0x2eu8],
            ) + psv.subrange(m as int, k + 1));
        }
        k = k + 1;
    }
    proof {
        assert(psv.subrange(m as int, psv.len() as int) =~= psv.skip(m as int));
        assert(crate::textutil::views_of(out@) =~= spec_relpath_segments(bsv, psv));
    }
    join_segments(&out)
}

/// The last segment of a path, if any.
pub fn folder_name(path: &[u8]) -> (r: Option<Vec<u8>>)
    ensures
        match r {
            Some(v) => spec_segments(path@).len() > 0 && v@ == spec_segments(path@).last(),
            None => spec_segments(path@).len() == 0,
        },
{
    let segs = segments(path);
    let ghost sv = crate::textutil::views_of(segs@);
    if segs.len() == 0 {
        None
    } else {
        let v = segs[segs.len() - 1].clone();
        proof {
            assert(sv[sv.len() - 1] == segs@[segs@.len() - 1]@);
        }
        Some(v)
    }
}

/// Position of the last `b` in `s`, if any.
pub open spec fn spec_rfind_byte(s: Seq<u8>, b: u8) -> Option<int>
    decreases s.len(),
{
    if s.len() == 0 {
        None
    } else if s.last() == b {
        Some(s.len() - 1)
    } else {
        spec_rfind_byte(s.drop_last(), b)
    }
}

/// The path up to (not including) its last slash; the whole path when
/// it has none.
pub open spec fn spec_parent_dir(s: Seq<u8>) -> Seq<u8> {
    match spec_rfind_byte(s, 0x2fu8) {
        Some(i) => s.take(i),
        None => s,
    }
}

pub proof fn lemma_rfind_byte_characterizes(s: Seq<u8>, b: u8)
    ensures
        match spec_rfind_byte(s, b) {
            Some(i) => 0 <= i < s.len() && s[i] == b && (forall|j: int|
                i < j < s.len() ==> s[j] != b),
            None => forall|j: int| 0 <= j < s.len() ==> s[j] != b,
        },
    decreases s.len(),
{
    if s.len() == 0 {
    } else if s.last() == b {
    } else {
        lemma_rfind_byte_characterizes(s.drop_last(), b);
        let t = s.drop_last();
        assert(forall|j: int| 0 <= j < s.len() - 1 ==> s[j] == #[trigger] t[j]);
        match spec_rfind_byte(t, b) {
            Some(i2) => {
                assert(t[i2] == s[i2]);
                assert forall|j: int| i2 < j < s.len() implies s[j] != b by {
                    if j < s.len() - 1 {
                        assert(t[j] == s[j]);
                    } else {
                        assert(s[j] == s.last());
                    }
                }
            },
            None => {
                assert forall|j: int| 0 <= j < s.len() implies s[j] != b by {
                    if j < s.len() - 1 {
                        assert(t[j] == s[j]);
                    } else {
                        assert(s[j] == s.last());
                    }
                }
            },
        }
    }
}

/// The path up to its last slash; the whole path when it has none.
pub fn parent_dir(s: &[u8]) -> (r: Vec<u8>)
    ensures
        r@ == spec_parent_dir(s@),
{
    let n = s.len();
    let mut i: usize = n;
    while i > 0
        invariant
            i <= n == s@.len(),
            forall|j: int| i <= j < n ==> s@[j] != 0x2fu8,
        decreases i,
    {
        if s[i - 1] == 0x2f {
            proof {
                lemma_rfind_byte_characterizes(s@, 0x2fu8);
                match spec_rfind_byte(s@, 0x2fu8) {
                    Some(f) => {
                        if f < i - 1 {
                            assert(s@[i - 1] != 0x2fu8);
                        } else if f > i - 1 {
                            assert(s@[f] != 0x2fu8);
                        }
                    },
                    None => {
                        assert(s@[i - 1] != 0x2fu8);
                    },
                }
            }
            return copy_range(s, 0, i - 1);
        }
        i = i - 1;
    }
    proof {
        lemma_rfind_byte_characterizes(s@, 0x2fu8);
        match spec_rfind_byte(s@, 0x2fu8) {
            Some(f) => {
                assert(s@[f] == 0x2fu8);
                assert(false);
            },
            None => {},
        }
    }
    let r = copy_range(s, 0, n);
    proof {
        assert(r@ =~= s@);
    }
    r
}

/// Find the last occurrence of `b` in `s`.
pub fn rfind_byte(s: &[u8], b: u8) -> (r: Option<usize>)
    ensures
        match r {
            Some(i) => spec_rfind_byte(s@, b) == Some(i as int) && i < s@.len(),
            None => spec_rfind_byte(s@, b) is None,
        },
{
    let mut i: usize = s.len();
    while i > 0
        invariant
            i <= s@.len(),
            forall|j: int| i <= j < s@.len() ==> s@[j] != b,
        decreases i,
    {
        if s[i - 1] == b {
            proof {
                lemma_rfind_byte_characterizes(s@, b);
                match spec_rfind_byte(s@, b) {
                    Some(f) => {
                        if f < i - 1 {
                            assert(s@[i - 1] != b);
                        } else if f > i - 1 {
                            assert(s@[f] != b);
                        }
                    },
                    None => {
                        assert(s@[i - 1] != b);
                    },
                }
            }
            return Some(i - 1);
        }
        i = i - 1;
    }
    proof {
        lemma_rfind_byte_characterizes(s@, b);
        match spec_rfind_byte(s@, b) {
            Some(f) => {
                assert(s@[f] != b);
            },
            None => {},
        }
    }
    None
}

/// The tail of a path from its last `~` on; the whole path when it

/// The tail of a path from its last `~` on; the whole path when it
/// has none.
pub open spec fn spec_tilde_tail(path: Seq<u8>) -> Seq<u8> {
    match spec_rfind_byte(path, 0x7eu8) {
        Some(i) => path.skip(i),
        None => path,
    }
}

/// What expansion yields: the tail from the last `~`, with a leading
/// `~` replaced by the home directory; nothing when a leading `~`
/// remains and no home directory is known.
pub open spec fn spec_expand_path(path: Seq<u8>, home: Option<Seq<u8>>) -> Option<Seq<u8>> {
    let tail = spec_tilde_tail(path);
    if tail.len() > 0 && tail[0] == 0x7eu8 {
        match home {
            Some(h) => Some(h + tail.skip(1)),
            None => None,
        }
    } else {
        Some(tail)
    }
}

/// Expand a path that may start with `~`: keep only the part from the
/// last `~` on, and substitute the home directory for a leading `~`.
/// Fails when a `~` path is given and no home directory is known.
pub fn expand_path(path: &[u8], home: Option<&[u8]>) -> (r: Result<Vec<u8>, Error>)
    ensures
        match r {
            Ok(v) => spec_expand_path(
                path@,
                match home {
                    Some(h) => Some(h@),
                    None => None,
                },
            ) == Some(v@),
            Err(e) => e is Io && spec_expand_path(
                path@,
                match home {
                    Some(h) => Some(h@),
                    None => None,
                },
            ) is None,
        },
{
    let n = path.len();
    let tilde = rfind_byte(path, 0x7e);
    let start: usize = match tilde {
        Some(t) => t,
        None => 0,
    };
    let tail = copy_range(path, start, n);
    proof {
        assert(tail@ =~= spec_tilde_tail(path@));
    }
    if tail.len() > 0 && tail[0] == 0x7e {
        match home {
            Some(h) => {
                let mut r = copy_range(h, 0, h.len());
                let rest = copy_range(tail.as_slice(), 1, tail.len());
                crate::docs::append_bytes(&mut r, rest.as_slice());
                proof {
                    assert(rest@ =~= tail@.skip(1));
                    assert(r@ =~= h@ + spec_tilde_tail(path@).skip(1));
                }
                Ok(r)
            },
            None => {
                Err(
                    Error::Io {
                        message: vec![
                            0x6e, 0x6f, 0x20, 0x68, 0x6f, 0x6d, 0x65, 0x20, 0x64, 0x69, 0x72,
                        ],
                    },
                )
            },
        }
    } else {
        Ok(tail)
    }
}

} // verus!
