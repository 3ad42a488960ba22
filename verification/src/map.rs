use vstd::prelude::*;

use crate::error::Error;
use crate::pathutil::{
    join_normalize, parent_dir, path_uuid, path_uuid_of, spec_normalize, spec_parent_dir,
};
use crate::rawmap::{raw_map_wf, Patch, RawMap};
use crate::textutil::copy_range;
use crate::weight::{weight_wf, Weight};

verus! {

/// Resolved patch data: the relative path, the requirements as patch
/// ids, and the weight.
#[derive(Clone, Debug)]
pub struct PatchMeta {
    pub path: Vec<u8>,
    pub requirements: Vec<u128>,
    pub weight: Weight,
}

/// The resolved patch map: each patch with its meta, keyed by the
/// patch id; every requirement is itself a key of the map.
#[derive(Clone, Debug)]
pub struct PatchMap {
    pub entries: Vec<(Patch, PatchMeta)>,
}

/// The id of some entry of the map.
pub open spec fn map_has_id(m: PatchMap, id: u128) -> bool {
    exists|i: int| 0 <= i < m.entries@.len() && (#[trigger] m.entries@[i]).0.id == id
}

/// Well-formed map: ids derive from sources and are unique, weights
/// are well-formed, and every requirement is a key of the map.
pub open spec fn map_wf(m: PatchMap) -> bool {
    &&& forall|i: int|
        0 <= i < m.entries@.len() ==> (#[trigger] m.entries@[i]).0.id == path_uuid_of(
            m.entries@[i].0.source@,
        )
    &&& forall|i: int, j: int|
        0 <= i < j < m.entries@.len() ==> (#[trigger] m.entries@[i]).0.id != (
        #[trigger] m.entries@[j]).0.id
    &&& forall|i: int|
        0 <= i < m.entries@.len() ==> weight_wf((#[trigger] m.entries@[i]).1.weight)
    &&& forall|i: int, k: int|
        0 <= i < m.entries@.len() && 0 <= k < m.entries@[i].1.requirements@.len() ==> map_has_id(
            m,
            #[trigger] m.entries@[i].1.requirements@[k],
        )
}

/// Where a textual requirement resolves to: a reference with a leading
/// slash is source-base-relative, any other is relative to the
/// requiring patch's own folder; the joined path is normalized.
pub open spec fn spec_resolve_req(source_base: Seq<u8>, patch_source: Seq<u8>, req: Seq<u8>) -> Seq<
    u8,
> {
    if req.len() > 0 && req[0] == 0x2fu8 {
        spec_normalize(source_base + seq![0x2fu8] + req.skip(1))
    } else {
        spec_normalize(spec_parent_dir(patch_source) + seq![0x2fu8] + req)
    }
}

/// Requirement scoping: a reference with a leading slash resolves
/// under the source base, one without resolves under the requiring
/// patch's parent folder.
pub proof fn lemma_resolution_scoping(source_base: Seq<u8>, patch_source: Seq<u8>, req: Seq<u8>)
    ensures
        req.len() > 0 && req[0] == 0x2fu8 ==> spec_resolve_req(source_base, patch_source, req)
            == spec_normalize(source_base + seq![0x2fu8] + req.skip(1)),
        !(req.len() > 0 && req[0] == 0x2fu8) ==> spec_resolve_req(source_base, patch_source, req)
            == spec_normalize(spec_parent_dir(patch_source) + seq![0x2fu8] + req),
{
}

/// Resolve one textual requirement to an absolute, normalized path.
pub fn resolve_req(source_base: &[u8], patch_source: &[u8], req: &[u8]) -> (r: Vec<u8>)
    ensures
        r@ == spec_resolve_req(source_base@, patch_source@, req@),
{
    if req.len() > 0 && req[0] == 0x2f {
        let rel = copy_range(req, 1, req.len());
        proof {
            assert(rel@ =~= req@.skip(1));
        }
        join_normalize(source_base, rel.as_slice())
    } else {
        let parent = parent_dir(patch_source);
        join_normalize(parent.as_slice(), req)
    }
}

/// The id a textual requirement denotes.
pub open spec fn spec_req_id(source_base: Seq<u8>, patch_source: Seq<u8>, req: Seq<u8>) -> u128 {
    path_uuid_of(spec_resolve_req(source_base, patch_source, req))
}

/// Does the raw map hold a patch with this id?
pub open spec fn raw_has_id(raw: RawMap, id: u128) -> bool {
    exists|i: int| 0 <= i < raw.entries@.len() && (#[trigger] raw.entries@[i]).0.id == id
}

/// Resolution keeps every patch, in order, with each textual
/// requirement replaced by the id its resolved path denotes, all of
/// them keys of the map.
pub open spec fn spec_resolve_matches(m: PatchMap, source_base: Seq<u8>, raw: RawMap) -> bool {
    &&& m.entries@.len() == raw.entries@.len()
    &&& forall|i: int|
        0 <= i < raw.entries@.len() ==> {
            let before = (#[trigger] raw.entries@[i]);
            let after = m.entries@[i];
            &&& after.0.id == before.0.id
            &&& after.0.source@ == before.0.source@
            &&& after.1.path@ == before.1.path@
            &&& after.1.weight.num@ == before.1.weight.num@
            &&& after.1.weight.den@ == before.1.weight.den@
            &&& after.1.requirements@.len() == before.1.requirements@.len()
            &&& forall|k: int|
                0 <= k < before.1.requirements@.len() ==> #[trigger] after.1.requirements@[k]
                    == spec_req_id(source_base, before.0.source@, before.1.requirements@[k]@)
                    && raw_has_id(raw, after.1.requirements@[k])
        }
}

/// The failure of a resolution: some textual requirement whose
/// resolved id is no key of the map, reported with its owner's
/// relative path.
pub open spec fn spec_resolve_err_matches(e: Error, source_base: Seq<u8>, raw: RawMap) -> bool {
    match e {
        Error::UnknownRequirement { requirement, owner } => exists|i: int, k: int|
            0 <= i < raw.entries@.len() && 0 <= k < (
            #[trigger] raw.entries@[i]).1.requirements@.len() && requirement@ == (
            #[trigger] raw.entries@[i].1.requirements@[k])@ && owner@ == raw.entries@[i].1.path@
                && !raw_has_id(
                raw,
                spec_req_id(
                    source_base,
                    raw.entries@[i].0.source@,
                    raw.entries@[i].1.requirements@[k]@,
                ),
            ),
        _ => false,
    }
}

impl PatchMap {
    /// The number of patches.
    pub fn len(&self) -> (r: usize)
        ensures
            r == self.entries@.len(),
    {
        self.entries.len()
    }

    /// The index of the patch with the given id, if it is in the map.
    pub fn index_of(&self, id: u128) -> (r: Option<usize>)
        ensures
            match r {
                Some(i) => i < self.entries@.len() && self.entries@[i as int].0.id == id,
                None => !map_has_id(*self, id),
            },
    {
        let mut i: usize = 0;
        while i < self.entries.len()
            invariant
                i <= self.entries@.len(),
                forall|j: int| 0 <= j < i ==> (#[trigger] self.entries@[j]).0.id != id,
            decreases self.entries@.len() - i,
        {
            if self.entries[i].0.id == id {
                return Some(i);
            }
            i = i + 1;
        }
        None
    }

    /// Resolve every textual requirement of every patch to a patch id.
    /// A reference that resolves to an id outside the map fails with
    /// `UnknownRequirement`, naming the reference and the owning
    /// patch's relative path; the first failure wins.
    pub fn from_raw(source_base: &[u8], raw: &RawMap) -> (r: Result<PatchMap, Error>)
        requires
            raw_map_wf(*raw),
        ensures
            match r {
                Ok(m) => map_wf(m) && spec_resolve_matches(m, source_base@, *raw),
                Err(e) => spec_resolve_err_matches(e, source_base@, *raw),
            },
    {
        let n = raw.entries.len();
        let mut out: Vec<(Patch, PatchMeta)> = Vec::new();
        let mut i: usize = 0;
        while i < n
            invariant
                i <= n == raw.entries@.len(),
                raw_map_wf(*raw),
                out@.len() == i,
                forall|j: int|
                    0 <= j < i ==> {
                        let before = (#[trigger] raw.entries@[j]);
                        let after = out@[j];
                        &&& after.0.id == before.0.id
                        &&& after.0.source@ == before.0.source@
                        &&& after.1.path@ == before.1.path@
                        &&& after.1.weight.num@ == before.1.weight.num@
                        &&& after.1.weight.den@ == before.1.weight.den@
                        &&& after.1.requirements@.len() == before.1.requirements@.len()
                        &&& forall|k: int|
                            0 <= k < before.1.requirements@.len()
                                ==> #[trigger] after.1.requirements@[k] == spec_req_id(
                                source_base@,
                                before.0.source@,
                                before.1.requirements@[k]@,
                            ) && raw_has_id(*raw, after.1.requirements@[k])
                    },
            decreases n - i,
        {
            let entry = &raw.entries[i];
            let mut reqs: Vec<u128> = Vec::new();
            let mut k: usize = 0;
            let rn = entry.1.requirements.len();
            while k < rn
                invariant
                    k <= rn == raw.entries@[i as int].1.requirements@.len(),
                    0 <= i < raw.entries@.len(),
                    entry == &raw.entries@[i as int],
                    reqs@.len() == k,
                    forall|l: int|
                        0 <= l < k ==> #[trigger] reqs@[l] == spec_req_id(
                            source_base@,
                            raw.entries@[i as int].0.source@,
                            raw.entries@[i as int].1.requirements@[l]@,
                        ) && raw_has_id(*raw, reqs@[l]),
                decreases rn - k,
            {
                let resolved = resolve_req(
                    source_base,
                    entry.0.source.as_slice(),
                    entry.1.requirements[k].as_slice(),
                );
                let id = path_uuid(resolved.as_slice());
                if !raw_contains(raw, id) {
                    let requirement = copy_range(
                        entry.1.requirements[k].as_slice(),
                        0,
                        entry.1.requirements[k].len(),
                    );
                    let owner = copy_range(entry.1.path.as_slice(), 0, entry.1.path.len());
                    proof {
                        assert(requirement@ =~= raw.entries@[i as int].1.requirements@[k as int]@);
                        assert(owner@ =~= raw.entries@[i as int].1.path@);
                    }
                    return Err(Error::UnknownRequirement { requirement, owner });
                }
                reqs.push(id);
                k = k + 1;
            }
            let patch = Patch {
                id: entry.0.id,
                source: copy_range(entry.0.source.as_slice(), 0, entry.0.source.len()),
            };
            let meta = PatchMeta {
                path: copy_range(entry.1.path.as_slice(), 0, entry.1.path.len()),
                requirements: reqs,
                weight: entry.1.weight.duplicate(),
            };
            proof {
                assert(patch.source@ =~= raw.entries@[i as int].0.source@);
                assert(meta.path@ =~= raw.entries@[i as int].1.path@);
            }
            out.push((patch, meta));
            i = i + 1;
        }
        let m = PatchMap { entries: out };
        proof {
            assert(map_wf(m)) by {
                assert forall|a: int|
                    0 <= a < m.entries@.len() implies (#[trigger] m.entries@[a]).0.id
                    == path_uuid_of(m.entries@[a].0.source@) && weight_wf(
                    m.entries@[a].1.weight,
                ) by {
                    assert(m.entries@[a].0.id == raw.entries@[a].0.id);
                    assert(m.entries@[a].0.source@ == raw.entries@[a].0.source@);
                    assert(weight_wf(raw.entries@[a].1.weight));
                }
                assert forall|a: int, b: int|
                    0 <= a < b < m.entries@.len() implies (#[trigger] m.entries@[a]).0.id != (
                #[trigger] m.entries@[b]).0.id by {
                    assert(m.entries@[a].0.id == raw.entries@[a].0.id);
                    assert(m.entries@[b].0.id == raw.entries@[b].0.id);
                }
                assert forall|a: int, k2: int|
                    0 <= a < m.entries@.len() && 0 <= k2
                        < m.entries@[a].1.requirements@.len() implies map_has_id(
                    m,
                    #[trigger] m.entries@[a].1.requirements@[k2],
                ) by {
                    let before = raw.entries@[a];
                    assert(m.entries@[a].1.requirements@[k2] == spec_req_id(
                        source_base@,
                        before.0.source@,
                        before.1.requirements@[k2]@,
                    ));
                    assert(raw_has_id(*raw, m.entries@[a].1.requirements@[k2]));
                    let w = choose|l: int|
                        0 <= l < raw.entries@.len() && (#[trigger] raw.entries@[l]).0.id
                            == m.entries@[a].1.requirements@[k2];
                    assert(m.entries@[w].0.id == raw.entries@[w].0.id);
                }
            }
        }
        Ok(m)
    }
}

/// Does the raw map hold a patch with this id?
fn raw_contains(raw: &RawMap, id: u128) -> (r: bool)
    ensures
        r == raw_has_id(*raw, id),
{
    let mut i: usize = 0;
    while i < raw.entries.len()
        invariant
            i <= raw.entries@.len(),
            forall|j: int| 0 <= j < i ==> (#[trigger] raw.entries@[j]).0.id != id,
        decreases raw.entries@.len() - i,
    {
        if raw.entries[i].0.id == id {
            return true;
        }
        i = i + 1;
    }
    false
}

} // verus!
