use vstd::prelude::*;

use crate::docs::append_bytes;
use crate::error::Error;
use crate::map::{map_has_id, map_wf, PatchMap};
use crate::pathutil::{relpath_to_base, spec_relpath_to_base};
use crate::rawmap::{build_raw_map, raw_map_update, raw_map_wf, RawMap, SourceFile};
use crate::textutil::{copy_range, spec_trim, trim, views_of};
use crate::timeutil::{spec_timestamp_text, timestamp_text, timestamp_valid, Timestamp};
use crate::weight::{weight_le, weight_lt, weight_wf};

verus! {

/// The ids of a map's entries, in entry order.
pub open spec fn spec_ids(m: PatchMap) -> Seq<u128> {
    Seq::new(m.entries@.len(), |i: int| m.entries@[i].0.id)
}

/// `b` is a declared requirement of the patch whose id is `a`.
pub open spec fn spec_requires_edge(m: PatchMap, a: u128, b: u128) -> bool {
    exists|e: int, k: int|
        0 <= e < m.entries@.len() && m.entries@[e].0.id == a && 0 <= k
            < m.entries@[e].1.requirements@.len() && #[trigger] m.entries@[e].1.requirements@[k]
            == b
}

/// A cycle in the requirement graph: consecutive elements are edges,
/// and the last requires the first.
pub open spec fn spec_is_cycle(m: PatchMap, c: Seq<u128>) -> bool {
    c.len() > 0 && forall|i: int|
        0 <= i < c.len() ==> spec_requires_edge(
            m,
            #[trigger] c[i],
            c[if i + 1 == c.len() {
                0
            } else {
                i + 1
            }],
        )
}

/// Total order of the emitted ids: every requirement of every emitted
/// patch appears strictly before the patch.
pub open spec fn spec_topo_ok(m: PatchMap, order: Seq<u128>) -> bool {
    forall|oi: int, req: u128|
        0 <= oi < order.len() && #[trigger] spec_requires_edge(m, order[oi], req) ==> exists|
            oj: int,
        |
            0 <= oj < oi && order[oj] == req
}

/// The walk invariant: ids in the pending chain and in the emitted
/// order are distinct keys of the map, the two are disjoint, the
/// emitted order is topologically closed, and the pending chain steps
/// along requirement edges.
pub open spec fn dfs_inv(m: PatchMap, awaiting: Seq<u128>, order: Seq<u128>) -> bool {
    &&& order.no_duplicates()
    &&& awaiting.no_duplicates()
    &&& forall|i: int| 0 <= i < order.len() ==> map_has_id(m, #[trigger] order[i])
    &&& forall|i: int| 0 <= i < awaiting.len() ==> map_has_id(m, #[trigger] awaiting[i])
    &&& forall|i: int, j: int|
        0 <= i < awaiting.len() && 0 <= j < order.len() ==> #[trigger] awaiting[i]
            != #[trigger] order[j]
    &&& spec_topo_ok(m, order)
    &&& forall|i: int|
        0 <= i < awaiting.len() - 1 ==> spec_requires_edge(
            m,
            #[trigger] awaiting[i],
            awaiting[i + 1],
        )
}

/// A distinct sequence of the map's keys is no longer than the map.
proof fn lemma_distinct_keys_bound(m: PatchMap, s: Seq<u128>)
    requires
        map_wf(m),
        s.no_duplicates(),
        forall|i: int| 0 <= i < s.len() ==> map_has_id(m, #[trigger] s[i]),
    ensures
        s.len() <= m.entries@.len(),
{
    broadcast use vstd::seq_lib::seq_to_set_is_finite;

    let ids = spec_ids(m);
    assert(ids.no_duplicates()) by {
        assert(forall|i: int, j: int|
            0 <= i < ids.len() && 0 <= j < ids.len() && i != j ==> #[trigger] ids[i]
                != #[trigger] ids[j]);
    }
    s.unique_seq_to_set();
    ids.unique_seq_to_set();
    assert(s.to_set().subset_of(ids.to_set())) by {
        assert forall|x: u128| s.to_set().contains(x) implies ids.to_set().contains(x) by {
            assert(s.contains(x));
            let w = choose|w: int| 0 <= w < s.len() && s[w] == x;
            assert(map_has_id(m, x));
            let e = choose|e: int| 0 <= e < m.entries@.len() && (#[trigger] m.entries@[e]).0.id
                == x;
            assert(ids[e] == x);
            assert(ids.contains(x));
        }
    }
    vstd::set_lib::lemma_len_subset(s.to_set(), ids.to_set());
}

/// The emitted order of a finished walk covers every key of the map.
proof fn lemma_full_order_is_onto(m: PatchMap, order: Seq<u128>)
    requires
        map_wf(m),
        order.no_duplicates(),
        forall|i: int| 0 <= i < order.len() ==> map_has_id(m, #[trigger] order[i]),
        order.len() == m.entries@.len(),
    ensures
        forall|e: int| 0 <= e < m.entries@.len() ==> order.contains((#[trigger] m.entries@[e]).0.id),
{
    broadcast use vstd::seq_lib::seq_to_set_is_finite;

    let ids = spec_ids(m);
    assert(ids.no_duplicates()) by {
        assert(forall|i: int, j: int|
            0 <= i < ids.len() && 0 <= j < ids.len() && i != j ==> #[trigger] ids[i]
                != #[trigger] ids[j]);
    }
    order.unique_seq_to_set();
    ids.unique_seq_to_set();
    assert(order.to_set().subset_of(ids.to_set())) by {
        assert forall|x: u128| order.to_set().contains(x) implies ids.to_set().contains(x) by {
            assert(order.contains(x));
            assert(map_has_id(m, x));
            let e = choose|e: int| 0 <= e < m.entries@.len() && (#[trigger] m.entries@[e]).0.id
                == x;
            assert(ids[e] == x);
            assert(ids.contains(x));
        }
    }
    vstd::set_lib::lemma_subset_equality(order.to_set(), ids.to_set());
    assert forall|e: int|
        0 <= e < m.entries@.len() implies order.contains((#[trigger] m.entries@[e]).0.id) by {
        assert(ids[e] == m.entries@[e].0.id);
        assert(ids.contains(m.entries@[e].0.id));
        assert(ids.to_set().contains(m.entries@[e].0.id));
        assert(order.to_set().contains(m.entries@[e].0.id));
    }
}

/// Does the id list contain this id?
fn ids_contain(v: &Vec<u128>, x: u128) -> (r: bool)
    ensures
        r == v@.contains(x),
{
    let mut i: usize = 0;
    while i < v.len()
        invariant
            i <= v@.len(),
            forall|j: int| 0 <= j < i ==> v@[j] != x,
        decreases v@.len() - i,
    {
        if v[i] == x {
            proof {
                assert(v@.contains(x));
            }
            return true;
        }
        i = i + 1;
    }
    proof {
        if v@.contains(x) {
            let w = choose|w: int| 0 <= w < v@.len() && v@[w] == x;
            assert(v@[w] != x);
        }
    }
    false
}

/// Position of an id in the list, if present.
fn ids_position(v: &Vec<u128>, x: u128) -> (r: Option<usize>)
    ensures
        match r {
            Some(i) => i < v@.len() && v@[i as int] == x,
            None => !v@.contains(x),
        },
{
    let mut i: usize = 0;
    while i < v.len()
        invariant
            i <= v@.len(),
            forall|j: int| 0 <= j < i ==> v@[j] != x,
        decreases v@.len() - i,
    {
        if v[i] == x {
            return Some(i);
        }
        i = i + 1;
    }
    proof {
        if v@.contains(x) {
            let w = choose|w: int| 0 <= w < v@.len() && v@[w] == x;
            assert(v@[w] != x);
        }
    }
    None
}

/// Index order for the initial traversal: ascending weight, with the
/// entry order of the map breaking ties.
pub open spec fn spec_le_idx(m: PatchMap, a: int, b: int) -> bool {
    weight_lt(m.entries@[a].1.weight, m.entries@[b].1.weight) || (!weight_lt(
        m.entries@[b].1.weight,
        m.entries@[a].1.weight,
    ) && a <= b)
}

/// Is the weight of entry `a` strictly below the weight of entry `b`?
fn entry_weight_lt(m: &PatchMap, a: usize, b: usize) -> (r: bool)
    requires
        map_wf(*m),
        a < m.entries@.len(),
        b < m.entries@.len(),
    ensures
        r == weight_lt(m.entries@[a as int].1.weight, m.entries@[b as int].1.weight),
{
    m.entries[a].1.weight.le(&m.entries[b].1.weight) && !m.entries[b].1.weight.le(
        &m.entries[a].1.weight,
    )
}

/// Sort the entry indices of the map by ascending weight, stable: an
/// earlier entry precedes a later one of equal weight.
fn sort_by_weight(m: &PatchMap) -> (r: Vec<usize>)
    requires
        map_wf(*m),
    ensures
        r@.len() == m.entries@.len(),
        r@.no_duplicates(),
        forall|i: int| 0 <= i < r@.len() ==> (#[trigger] r@[i]) < m.entries@.len(),
        forall|i: int, j: int| 0 <= i < j < r@.len() ==> spec_le_idx(*m, r@[i] as int, r@[j] as int),
        forall|x: usize| x < m.entries@.len() ==> r@.contains(x),
{
    let n = m.entries.len();
    let mut out: Vec<usize> = Vec::new();
    let mut e: usize = 0;
    while e < n
        invariant
            e <= n == m.entries@.len(),
            map_wf(*m),
            out@.len() == e,
            out@.no_duplicates(),
            forall|i: int| 0 <= i < out@.len() ==> (#[trigger] out@[i]) < e,
            forall|i: int, j: int|
                0 <= i < j < out@.len() ==> spec_le_idx(*m, out@[i] as int, out@[j] as int),
            forall|x: usize| x < e ==> out@.contains(x),
        decreases n - e,
    {
        let mut p: usize = out.len();
        while p > 0 && entry_weight_lt(m, e, out[p - 1])
            invariant
                p <= out@.len(),
                e < n == m.entries@.len(),
                map_wf(*m),
                out@.no_duplicates(),
                forall|i: int| 0 <= i < out@.len() ==> (#[trigger] out@[i]) < e,
                forall|i: int, j: int|
                    0 <= i < j < out@.len() ==> spec_le_idx(*m, out@[i] as int, out@[j] as int),
                forall|q: int|
                    p <= q < out@.len() ==> weight_lt(
                        m.entries@[e as int].1.weight,
                        m.entries@[#[trigger] out@[q] as int].1.weight,
                    ),
            decreases p,
        {
            p = p - 1;
        }
        let ghost before = out@;
        proof {
            if p > 0 {
                assert(!weight_lt(
                    m.entries@[e as int].1.weight,
                    m.entries@[before[p - 1] as int].1.weight,
                ));
            }
            assert forall|q: int|
                0 <= q < p implies !weight_lt(
                m.entries@[e as int].1.weight,
                m.entries@[#[trigger] before[q] as int].1.weight,
            ) by {
                if weight_lt(
                    m.entries@[e as int].1.weight,
                    m.entries@[before[q] as int].1.weight,
                ) {
                    if q < p - 1 {
                        assert(spec_le_idx(*m, before[q] as int, before[p - 1] as int));
                        assert(weight_le(
                            m.entries@[before[q] as int].1.weight,
                            m.entries@[before[p - 1] as int].1.weight,
                        ));
                        crate::weight::lemma_weight_lt_le_trans(
                            m.entries@[e as int].1.weight,
                            m.entries@[before[q] as int].1.weight,
                            m.entries@[before[p - 1] as int].1.weight,
                        );
                    }
                }
            }
        }
        out.insert(p, e);
        proof {
            assert(out@ =~= before.insert(p as int, e));
            assert forall|i: int, j: int|
                0 <= i < j < out@.len() implies spec_le_idx(*m, out@[i] as int, out@[j] as int) by {
                if i < p && j > p {
                    assert(out@[i] == before[i]);
                    assert(out@[j] == before[j - 1]);
                } else if i < p && j == p {
                    assert(out@[i] == before[i]);
                    assert(!weight_lt(
                        m.entries@[e as int].1.weight,
                        m.entries@[before[i] as int].1.weight,
                    ));
                    assert(before[i] < e);
                } else if i == p && j > p {
                    assert(out@[j] == before[j - 1]);
                    assert(weight_lt(
                        m.entries@[e as int].1.weight,
                        m.entries@[before[j - 1] as int].1.weight,
                    ));
                } else if i > p && j > p {
                    assert(out@[i] == before[i - 1]);
                    assert(out@[j] == before[j - 1]);
                }
            }
            assert(out@.no_duplicates()) by {
                assert(forall|i: int| 0 <= i < before.len() ==> (#[trigger] before[i]) != e);
            }
            assert forall|x: usize| x < e + 1 implies out@.contains(x) by {
                if x < e {
                    assert(before.contains(x));
                    let w = choose|w: int| 0 <= w < before.len() && before[w] == x;
                    if w < p {
                        assert(out@[w] == x);
                    } else {
                        assert(out@[w + 1] == x);
                    }
                } else {
                    assert(out@[p as int] == x);
                }
            }
        }
        e = e + 1;
    }
    out
}

/// The assembly engine: the patch map of one migration together with
/// its folders and the patch contents.
#[derive(Clone, Debug)]
pub struct Sewer {
    pub meta_base: Vec<u8>,
    pub source_base: Vec<u8>,
    pub map: PatchMap,
    pub contents: Vec<(u128, Vec<u8>)>,
}

/// A sewer whose map is well-formed and whose contents cover every
/// patch of the map.
pub open spec fn sewer_wf(s: Sewer) -> bool {
    &&& map_wf(s.map)
    &&& s.contents@.len() == s.map.entries@.len()
    &&& forall|i: int|
        0 <= i < s.map.entries@.len() ==> (#[trigger] s.contents@[i]).0 == s.map.entries@[i].0.id
}

impl Sewer {
    /// Assemble the sewer for a migration: discover the patches from
    /// the given source files, parse their headers, run the
    /// parent-package pass, and resolve every requirement. On success
    /// the map is the resolution of the parent-package pass over the
    /// built raw map, and each patch's content is that of the last
    /// given file bearing its source path.
    pub fn new(meta_base: &[u8], source_base: &[u8], files: &Vec<SourceFile>) -> (r: Result<
        Sewer,
        Error,
    >)
        ensures
            match r {
                Ok(s) => {
                    &&& sewer_wf(s)
                    &&& s.meta_base@ == meta_base@
                    &&& s.source_base@ == source_base@
                    &&& exists|raw0: RawMap, raw1: RawMap|
                        {
                            &&& raw_map_wf(raw0)
                            &&& #[trigger] crate::rawmap::spec_build_matches(
                                raw0,
                                meta_base@,
                                files@,
                            )
                            &&& raw_map_wf(raw1)
                            &&& #[trigger] crate::rawmap::spec_update_matches(
                                raw1,
                                source_base@,
                                raw0,
                            )
                            &&& crate::map::spec_resolve_matches(s.map, source_base@, raw1)
                        }
                    &&& forall|i: int|
                        0 <= i < s.contents@.len() ==> exists|j: int|
                            0 <= j < files@.len() && (#[trigger] files@[j]).path@ == (
                            #[trigger] s.map.entries@[i]).0.source@ && s.contents@[i].1@
                                == files@[j].content@ && (forall|j2: int|
                                j < j2 < files@.len() ==> (#[trigger] files@[j2]).path@
                                    != s.map.entries@[i].0.source@)
                },
                Err(e) => {
                    ||| exists|j: int|
                        0 <= j < files@.len() && !(#[trigger] crate::rawmap::spec_parse_raw_ok(
                            meta_base@,
                            files@[j].path@,
                            files@[j].content@,
                        )) && crate::rawmap::spec_raw_err_matches(
                            e,
                            meta_base@,
                            files@[j].path@,
                            files@[j].content@,
                        )
                    ||| exists|raw0: RawMap, raw1: RawMap|
                        {
                            &&& #[trigger] crate::rawmap::spec_build_matches(
                                raw0,
                                meta_base@,
                                files@,
                            )
                            &&& #[trigger] crate::rawmap::spec_update_matches(
                                raw1,
                                source_base@,
                                raw0,
                            )
                            &&& crate::map::spec_resolve_err_matches(e, source_base@, raw1)
                        }
                    ||| e is Io
                },
            },
    {
        let raw0 = match build_raw_map(meta_base, files) {
            Ok(raw) => raw,
            Err(e) => {
                return Err(e);
            },
        };
        let raw = raw_map_update(source_base, &raw0);
        let ghost graw0 = raw0;
        let ghost graw1 = raw;
        let map = match PatchMap::from_raw(source_base, &raw) {
            Ok(m) => m,
            Err(e) => {
                return Err(e);
            },
        };
        let mut contents: Vec<(u128, Vec<u8>)> = Vec::new();
        let mut i: usize = 0;
        while i < map.entries.len()
            invariant
                i <= map.entries@.len(),
                map_wf(map),
                contents@.len() == i,
                forall|j: int|
                    0 <= j < i ==> (#[trigger] contents@[j]).0 == map.entries@[j].0.id,
                forall|k: int|
                    0 <= k < i ==> exists|j: int|
                        0 <= j < files@.len() && (#[trigger] files@[j]).path@ == (
                        #[trigger] map.entries@[k]).0.source@ && contents@[k].1@
                            == files@[j].content@ && (forall|j2: int|
                            j < j2 < files@.len() ==> (#[trigger] files@[j2]).path@
                                != map.entries@[k].0.source@),
            decreases map.entries@.len() - i,
        {
            let entry_source = &map.entries[i].0.source;
            let mut found: Option<usize> = None;
            let mut f: usize = 0;
            while f < files.len()
                invariant
                    f <= files@.len(),
                    i < map.entries@.len(),
                    match found {
                        Some(x) => x < f && files@[x as int].path@
                            == map.entries@[i as int].0.source@ && (forall|l: int|
                            x < l < f ==> (#[trigger] files@[l]).path@
                                != map.entries@[i as int].0.source@),
                        None => forall|l: int|
                            0 <= l < f ==> (#[trigger] files@[l]).path@
                                != map.entries@[i as int].0.source@,
                    },
                    entry_source == &map.entries@[i as int].0.source,
                decreases files@.len() - f,
            {
                if crate::textutil::bytes_eq(files[f].path.as_slice(), entry_source.as_slice()) {
                    found = Some(f);
                }
                f = f + 1;
            }
            let fj = match found {
                Some(x) => x,
                None => {
                    let mut message: Vec<u8> = Vec::new();
                    crate::docs::append_bytes(&mut message, map.entries[i].0.source.as_slice());
                    return Err(Error::Io { message });
                },
            };
            let data = copy_range(files[fj].content.as_slice(), 0, files[fj].content.len());
            proof {
                assert(data@ =~= files@[fj as int].content@);
            }
            let id = map.entries[i].0.id;
            contents.push((id, data));
            i = i + 1;
        }
        let mb = copy_range(meta_base, 0, meta_base.len());
        let sb = copy_range(source_base, 0, source_base.len());
        proof {
            assert(mb@ =~= meta_base@);
            assert(sb@ =~= source_base@);
        }
        let ghost gmap = map;
        let ghost gcontents = contents@;
        let s = Sewer { meta_base: mb, source_base: sb, map, contents };
        proof {
            assert(s.map == gmap);
            assert(s.contents@ == gcontents);
            assert(sewer_wf(s));
            assert(crate::rawmap::spec_build_matches(graw0, meta_base@, files@));
            assert(crate::rawmap::spec_update_matches(graw1, source_base@, graw0));
            assert(crate::map::spec_resolve_matches(s.map, source_base@, graw1));
        }
        Ok(s)
    }

    /// Organise the patches: a depth-first topological walk seeded by
    /// ascending weight. The result is a total order of all patch ids
    /// in which every requirement of every patch appears strictly
    /// before the patch. A cycle in the requirement graph is reported
    /// as `CycleDetected`, listing the patches that were awaiting
    /// completion.
    pub fn sew_up(&self) -> (r: Result<Vec<u128>, Error>)
        requires
            sewer_wf(*self),
        ensures
            match r {
                Ok(order) => {
                    &&& order@.len() == self.map.entries@.len()
                    &&& order@.no_duplicates()
                    &&& forall|i: int|
                        0 <= i < order@.len() ==> map_has_id(self.map, #[trigger] order@[i])
                    &&& forall|e: int|
                        0 <= e < self.map.entries@.len() ==> order@.contains(
                            (#[trigger] self.map.entries@[e]).0.id,
                        )
                    &&& spec_topo_ok(self.map, order@)
                    &&& ((forall|e2: int|
                        0 <= e2 < self.map.entries@.len() ==> (
                        #[trigger] self.map.entries@[e2]).1.requirements@.len() == 0) ==> (forall|
                        oi: int,
                        oj: int,
                    |
                        0 <= oi < oj < order@.len() ==> spec_le_idx(
                            self.map,
                            spec_entry_index(self.map, #[trigger] order@[oi]),
                            spec_entry_index(self.map, #[trigger] order@[oj]),
                        )))
                },
                Err(e) => e is CycleDetected && (exists|c: Seq<u128>|
                    spec_is_cycle(self.map, c)) && spec_cycle_err_matches(self.map, e),
            },
    {
        let sorted = sort_by_weight(&self.map);
        let mut awaiting: Vec<u128> = Vec::new();
        let mut order: Vec<u128> = Vec::new();
        let mut i: usize = 0;
        while i < sorted.len()
            invariant
                sewer_wf(*self),
                i <= sorted@.len(),
                sorted@.len() == self.map.entries@.len(),
                forall|j: int| 0 <= j < sorted@.len() ==> (#[trigger] sorted@[j]) < self.map.entries@.len(),
                awaiting@.len() == 0,
                dfs_inv(self.map, awaiting@, order@),
                forall|j: int|
                    0 <= j < i ==> order@.contains(
                        (#[trigger] self.map.entries@[sorted@[j] as int]).0.id,
                    ),
                forall|j: int, j2: int|
                    0 <= j < j2 < sorted@.len() ==> spec_le_idx(
                        self.map,
                        sorted@[j] as int,
                        sorted@[j2] as int,
                    ),
                sorted@.no_duplicates(),
                (forall|e2: int|
                    0 <= e2 < self.map.entries@.len() ==> (
                    #[trigger] self.map.entries@[e2]).1.requirements@.len() == 0) ==> (order@.len()
                    == i && (forall|j: int|
                    0 <= j < i ==> order@[j] == (
                    #[trigger] self.map.entries@[sorted@[j] as int]).0.id)),
            decreases sorted@.len() - i,
        {
            let e = sorted[i];
            let key = self.map.entries[e].0.id;
            if !ids_contain(&order, key) {
                proof {
                    assert(!awaiting@.contains(key)) by {
                        if awaiting@.contains(key) {
                            let w = choose|w: int|
                                0 <= w < awaiting@.len() && awaiting@[w] == key;
                        }
                    }
                }
                let ghost pre_order = order@;
                match visit(&self.map, e, &mut awaiting, &mut order) {
                    Ok(_) => {
                        proof {
                            assert(order@.contains(self.map.entries@[e as int].0.id));
                            if (forall|e2: int|
                                0 <= e2 < self.map.entries@.len() ==> (
                                #[trigger] self.map.entries@[e2]).1.requirements@.len() == 0) {
                                assert(self.map.entries@[e as int].1.requirements@.len() == 0);
                                assert(order@ == pre_order.push(key));
                            }
                            assert forall|j: int|
                                0 <= j < i + 1 implies order@.contains(
                                (#[trigger] self.map.entries@[sorted@[j] as int]).0.id,
                            ) by {
                                if j < i {
                                    let prev_id = self.map.entries@[sorted@[j] as int].0.id;
                                    assert(pre_order.contains(prev_id));
                                    let w = choose|w: int|
                                        0 <= w < pre_order.len() && pre_order[w] == prev_id;
                                    assert(pre_order.is_prefix_of(order@));
                                    assert(order@[w] == prev_id);
                                    assert(order@.contains(prev_id));
                                }
                            }
                        }
                    },
                    Err(e2) => {
                        return Err(e2);
                    },
                }
            } else {
                proof {
                    assert(order@.contains(self.map.entries@[sorted@[i as int] as int].0.id));
                    assert forall|j: int|
                        0 <= j < i + 1 implies order@.contains(
                        (#[trigger] self.map.entries@[sorted@[j] as int]).0.id,
                    ) by {}
                    if (forall|e2: int|
                        0 <= e2 < self.map.entries@.len() ==> (
                        #[trigger] self.map.entries@[e2]).1.requirements@.len() == 0) {
                        let w = choose|w: int| 0 <= w < order@.len() && order@[w] == key;
                        assert(order@[w] == self.map.entries@[sorted@[w] as int].0.id);
                        assert((sorted@[w] as int) == (sorted@[i as int] as int)) by {
                            if (sorted@[w] as int) < (sorted@[i as int] as int) {
                                assert(self.map.entries@[sorted@[w] as int].0.id
                                    != self.map.entries@[sorted@[i as int] as int].0.id);
                            } else if (sorted@[w] as int) > (sorted@[i as int] as int) {
                                assert(self.map.entries@[sorted@[i as int] as int].0.id
                                    != self.map.entries@[sorted@[w] as int].0.id);
                            }
                        }
                        assert(sorted@[w] == sorted@[i as int]);
                        assert(false);
                    }
                }
            }
            i = i + 1;
        }
        proof {
            assert forall|e: int|
                0 <= e < self.map.entries@.len() implies order@.contains(
                (#[trigger] self.map.entries@[e]).0.id,
            ) by {
                assert(sorted@.contains(e as usize));
                let w = choose|w: int| 0 <= w < sorted@.len() && sorted@[w] == e as usize;
                assert(order@.contains(self.map.entries@[sorted@[w] as int].0.id));
            }
            lemma_onto_implies_full(self.map, order@);
            if (forall|e2: int|
                0 <= e2 < self.map.entries@.len() ==> (
                #[trigger] self.map.entries@[e2]).1.requirements@.len() == 0) {
                assert forall|oi: int, oj: int|
                    0 <= oi < oj < order@.len() implies spec_le_idx(
                    self.map,
                    spec_entry_index(self.map, #[trigger] order@[oi]),
                    spec_entry_index(self.map, #[trigger] order@[oj]),
                ) by {
                    assert(order@[oi] == self.map.entries@[sorted@[oi] as int].0.id);
                    assert(order@[oj] == self.map.entries@[sorted@[oj] as int].0.id);
                    let ci = spec_entry_index(self.map, order@[oi]);
                    let cj = spec_entry_index(self.map, order@[oj]);
                    assert(0 <= ci < self.map.entries@.len() && self.map.entries@[ci].0.id
                        == order@[oi]) by {
                        assert(map_has_id(self.map, order@[oi]));
                    }
                    assert(0 <= cj < self.map.entries@.len() && self.map.entries@[cj].0.id
                        == order@[oj]) by {
                        assert(map_has_id(self.map, order@[oj]));
                    }
                    assert(ci == sorted@[oi] as int) by {
                        if ci < sorted@[oi] as int {
                            assert(self.map.entries@[ci].0.id
                                != self.map.entries@[sorted@[oi] as int].0.id);
                        } else if ci > sorted@[oi] as int {
                            assert(self.map.entries@[sorted@[oi] as int].0.id
                                != self.map.entries@[ci].0.id);
                        }
                    }
                    assert(cj == sorted@[oj] as int) by {
                        if cj < sorted@[oj] as int {
                            assert(self.map.entries@[cj].0.id
                                != self.map.entries@[sorted@[oj] as int].0.id);
                        } else if cj > sorted@[oj] as int {
                            assert(self.map.entries@[sorted@[oj] as int].0.id
                                != self.map.entries@[cj].0.id);
                        }
                    }
                    assert(spec_le_idx(self.map, sorted@[oi] as int, sorted@[oj] as int));
                }
            }
        }
        Ok(order)
    }
}

/// A sequence that covers all distinct keys of the map is at least as
/// long as the map.
proof fn lemma_onto_implies_full(m: PatchMap, order: Seq<u128>)
    requires
        map_wf(m),
        order.no_duplicates(),
        forall|i: int| 0 <= i < order.len() ==> map_has_id(m, #[trigger] order[i]),
        forall|e: int| 0 <= e < m.entries@.len() ==> order.contains((#[trigger] m.entries@[e]).0.id),
    ensures
        order.len() == m.entries@.len(),
{
    broadcast use vstd::seq_lib::seq_to_set_is_finite;

    let ids = spec_ids(m);
    assert(ids.no_duplicates()) by {
        assert(forall|i: int, j: int|
            0 <= i < ids.len() && 0 <= j < ids.len() && i != j ==> #[trigger] ids[i]
                != #[trigger] ids[j]);
    }
    order.unique_seq_to_set();
    ids.unique_seq_to_set();
    assert(ids.to_set().subset_of(order.to_set())) by {
        assert forall|x: u128| ids.to_set().contains(x) implies order.to_set().contains(x) by {
            assert(ids.contains(x));
            let e = choose|e: int| 0 <= e < ids.len() && ids[e] == x;
            assert(m.entries@[e].0.id == x);
            assert(order.contains(x));
        }
    }
    assert(order.to_set().subset_of(ids.to_set())) by {
        assert forall|x: u128| order.to_set().contains(x) implies ids.to_set().contains(x) by {
            assert(order.contains(x));
            assert(map_has_id(m, x));
            let e = choose|e: int| 0 <= e < m.entries@.len() && (#[trigger] m.entries@[e]).0.id
                == x;
            assert(ids[e] == x);
            assert(ids.contains(x));
        }
    }
    vstd::set_lib::lemma_len_subset(ids.to_set(), order.to_set());
    vstd::set_lib::lemma_len_subset(order.to_set(), ids.to_set());
}

/// Appending a patch whose requirements are all already emitted keeps
/// the order topologically closed.
proof fn lemma_topo_push(m: PatchMap, base: Seq<u128>, e: int)
    requires
        map_wf(m),
        0 <= e < m.entries@.len(),
        spec_topo_ok(m, base),
        forall|l: int|
            0 <= l < m.entries@[e].1.requirements@.len() ==> base.contains(
                #[trigger] m.entries@[e].1.requirements@[l],
            ),
    ensures
        spec_topo_ok(m, base.push(m.entries@[e].0.id)),
{
    let order = base.push(m.entries@[e].0.id);
    assert forall|oi: int, req: u128|
        0 <= oi < order.len() && #[trigger] spec_requires_edge(m, order[oi], req) implies exists|
        oj: int,
    |
        0 <= oj < oi && order[oj] == req by {
        if oi < base.len() {
            assert(order[oi] == base[oi]);
            assert(spec_requires_edge(m, base[oi], req));
            assert(exists|oj: int| 0 <= oj < oi && base[oj] == req);
            let oj = choose|oj: int| 0 <= oj < oi && base[oj] == req;
            assert(order[oj] == req);
        } else {
            assert(order[oi] == m.entries@[e].0.id);
            let (e4, k4): (int, int) = choose|e4: int, k4: int|
                0 <= e4 < m.entries@.len() && m.entries@[e4].0.id == m.entries@[e].0.id && 0 <= k4
                    < m.entries@[e4].1.requirements@.len()
                    && #[trigger] m.entries@[e4].1.requirements@[k4] == req;
            assert(e4 == e) by {
                if e4 < e {
                    assert(m.entries@[e4].0.id != m.entries@[e].0.id);
                } else if e4 > e {
                    assert(m.entries@[e].0.id != m.entries@[e4].0.id);
                }
            }
            assert(base.contains(m.entries@[e].1.requirements@[k4]));
            let w = choose|w: int|
                0 <= w < base.len() && base[w] == m.entries@[e].1.requirements@[k4];
            assert(order[w] == req);
        }
    }
}

/// A pending chain that closes on one of its own members exhibits a
/// cycle in the requirement graph.
proof fn lemma_cycle_from_chain(m: PatchMap, awaiting: Seq<u128>, j: int)
    requires
        0 <= j < awaiting.len(),
        forall|i: int|
            0 <= i < awaiting.len() - 1 ==> spec_requires_edge(
                m,
                #[trigger] awaiting[i],
                awaiting[i + 1],
            ),
        spec_requires_edge(m, awaiting.last(), awaiting[j]),
    ensures
        spec_is_cycle(m, awaiting.skip(j)),
{
    let c = awaiting.skip(j);
    assert(c.len() > 0);
    assert forall|ci: int|
        0 <= ci < c.len() implies spec_requires_edge(
        m,
        #[trigger] c[ci],
        c[if ci + 1 == c.len() {
            0
        } else {
            ci + 1
        }],
    ) by {
        if ci + 1 < c.len() {
            assert(c[ci] == awaiting[j + ci]);
            assert(c[ci + 1] == awaiting[j + ci + 1]);
            assert(spec_requires_edge(m, awaiting[j + ci], awaiting[j + ci + 1]));
        } else {
            assert(c[ci] == awaiting.last());
            assert(c[0] == awaiting[j]);
        }
    }
}

/// The relative paths of the given patches, in order.
pub open spec fn spec_paths_of(m: PatchMap, ids: Seq<u128>) -> Seq<Seq<u8>> {
    Seq::new(ids.len(), |i: int| m.entries@[spec_entry_index(m, ids[i])].1.path@)
}

/// A cycle report: the listed paths are those of a chain of patches,
/// each requiring the next, whose last member requires one of them.
pub open spec fn spec_cycle_err_matches(m: PatchMap, err: crate::error::Error) -> bool {
    match err {
        Error::CycleDetected { paths } => exists|c: Seq<u128>|
            {
                &&& c.len() > 0
                &&& (forall|x: int| 0 <= x < c.len() ==> map_has_id(m, #[trigger] c[x]))
                &&& (forall|x: int|
                    0 <= x < c.len() - 1 ==> spec_requires_edge(m, #[trigger] c[x], c[x + 1]))
                &&& (exists|j: int| 0 <= j < c.len() && spec_requires_edge(m, c.last(), #[trigger] c[j]))
                &&& views_of(paths@) == #[trigger] spec_paths_of(m, c)
            },
        _ => false,
    }
}

/// One step of the topological walk: visit the patch at entry index
/// `e`, visiting its requirements first. `awaiting` is the chain of
/// patches whose requirements are being walked; `order` is the emitted
/// prefix.
#[verifier::rlimit(100)]
#[verifier::spinoff_prover]
fn visit(m: &PatchMap, e: usize, awaiting: &mut Vec<u128>, order: &mut Vec<u128>) -> (r: Result<
    (),
    Error,
>)
    requires
        map_wf(*m),
        e < m.entries@.len(),
        dfs_inv(*m, old(awaiting)@, old(order)@),
        !old(awaiting)@.contains(m.entries@[e as int].0.id),
        !old(order)@.contains(m.entries@[e as int].0.id),
        old(awaiting)@.len() > 0 ==> spec_requires_edge(
            *m,
            old(awaiting)@.last(),
            m.entries@[e as int].0.id,
        ),
    ensures
        match r {
            Ok(_) => {
                &&& final(awaiting)@ == old(awaiting)@
                &&& dfs_inv(*m, final(awaiting)@, final(order)@)
                &&& old(order)@.is_prefix_of(final(order)@)
                &&& final(order)@.contains(m.entries@[e as int].0.id)
                &&& m.entries@[e as int].1.requirements@.len() == 0 ==> final(order)@ == old(
                    order,
                )@.push(m.entries@[e as int].0.id)
            },
            Err(err) => err is CycleDetected && (exists|c: Seq<u128>| spec_is_cycle(*m, c))
                && spec_cycle_err_matches(*m, err),
        },
    decreases m.entries@.len() - old(awaiting)@.len(),
{
    proof {
        lemma_distinct_keys_bound(*m, old(awaiting)@);
    }
    let key = m.entries[e].0.id;
    awaiting.push(key);
    proof {
        assert(awaiting@ == old(awaiting)@.push(key));
        assert(dfs_inv(*m, awaiting@, order@)) by {
            assert(awaiting@.no_duplicates()) by {
                assert(forall|i: int|
                    0 <= i < old(awaiting)@.len() ==> #[trigger] old(awaiting)@[i] != key);
            }
            assert(map_has_id(*m, key));
            assert forall|i: int|
                0 <= i < awaiting@.len() - 1 implies spec_requires_edge(
                *m,
                #[trigger] awaiting@[i],
                awaiting@[i + 1],
            ) by {
                if i < old(awaiting)@.len() - 1 {
                    assert(awaiting@[i] == old(awaiting)@[i]);
                    assert(awaiting@[i + 1] == old(awaiting)@[i + 1]);
                } else {
                    assert(awaiting@[i] == old(awaiting)@.last());
                    assert(awaiting@[i + 1] == key);
                }
            }
        }
    }
    let reqs_len = m.entries[e].1.requirements.len();
    let mut k: usize = 0;
    while k < reqs_len
        invariant
            map_wf(*m),
            e < m.entries@.len(),
            reqs_len == m.entries@[e as int].1.requirements@.len(),
            k <= reqs_len,
            key == m.entries@[e as int].0.id,
            awaiting@ == old(awaiting)@.push(key),
            dfs_inv(*m, awaiting@, order@),
            old(order)@.is_prefix_of(order@),
            reqs_len == 0 ==> order@ == old(order)@,
            forall|l: int|
                0 <= l < k ==> order@.contains(
                    #[trigger] m.entries@[e as int].1.requirements@[l],
                ),
        decreases reqs_len - k,
    {
        let req = m.entries[e].1.requirements[k];
        if ids_contain(&order, req) {
            k = k + 1;
            continue;
        }
        match ids_position(&awaiting, req) {
            Some(j) => {
                proof {
                    assert(awaiting@.last() == key);
                    assert(awaiting@[j as int] == req);
                    assert(spec_requires_edge(*m, key, req)) by {
                        assert(m.entries@[e as int].0.id == key);
                        assert(m.entries@[e as int].1.requirements@[k as int] == req);
                    }
                    lemma_cycle_from_chain(*m, awaiting@, j as int);
                }
                let ghost chain = awaiting@;
                let mut paths: Vec<Vec<u8>> = Vec::new();
                let mut a: usize = 0;
                while a < awaiting.len()
                    invariant
                        a <= awaiting@.len(),
                        map_wf(*m),
                        awaiting@ == chain,
                        forall|x: int| 0 <= x < chain.len() ==> map_has_id(*m, #[trigger] chain[x]),
                        paths@.len() == a,
                        forall|x: int|
                            0 <= x < a ==> (#[trigger] paths@[x])@ == m.entries@[spec_entry_index(
                                *m,
                                chain[x],
                            )].1.path@,
                    decreases awaiting@.len() - a,
                {
                    match crate::map::PatchMap::index_of(m, awaiting[a]) {
                        Some(idx) => {
                            proof {
                                let ce = spec_entry_index(*m, chain[a as int]);
                                assert(0 <= ce < m.entries@.len() && m.entries@[ce].0.id
                                    == chain[a as int]) by {
                                    assert(map_has_id(*m, chain[a as int]));
                                }
                                assert(idx as int == ce) by {
                                    if (idx as int) < ce {
                                        assert(m.entries@[idx as int].0.id != m.entries@[ce].0.id);
                                    } else if (idx as int) > ce {
                                        assert(m.entries@[ce].0.id != m.entries@[idx as int].0.id);
                                    }
                                }
                            }
                            let p = copy_range(
                                m.entries[idx].1.path.as_slice(),
                                0,
                                m.entries[idx].1.path.len(),
                            );
                            proof {
                                assert(p@ =~= m.entries@[idx as int].1.path@);
                            }
                            paths.push(p);
                        },
                        None => {
                            proof {
                                assert(map_has_id(*m, chain[a as int]));
                                assert(false);
                            }
                        },
                    }
                    a = a + 1;
                }
                proof {
                    assert(views_of(paths@) =~= spec_paths_of(*m, chain));
                    assert(chain.len() > 0);
                    assert(exists|j2: int|
                        0 <= j2 < chain.len() && spec_requires_edge(
                            *m,
                            chain.last(),
                            #[trigger] chain[j2],
                        )) by {
                        assert(spec_requires_edge(*m, chain.last(), chain[j as int]));
                    }
                }
                return Err(Error::CycleDetected { paths });
            },
            None => {
                let e2 = match m.index_of(req) {
                    Some(x) => x,
                    None => {
                        proof {
                            assert(map_has_id(*m, req)) by {
                                assert(m.entries@[e as int].1.requirements@[k as int] == req);
                            }
                            assert(false);
                        }
                        return Err(Error::CycleDetected { paths: Vec::new() });
                    },
                };
                proof {
                    lemma_distinct_keys_bound(*m, awaiting@);
                    assert(m.entries@[e2 as int].0.id == req);
                    assert(awaiting@.last() == key);
                    assert(spec_requires_edge(*m, key, req)) by {
                        assert(m.entries@[e as int].0.id == key);
                        assert(m.entries@[e as int].1.requirements@[k as int] == req);
                    }
                }
                let ghost pre_order = order@;
                let ghost pre_awaiting = awaiting@;
                match visit(m, e2, awaiting, order) {
                    Ok(_) => {
                        proof {
                            assert(awaiting@ == pre_awaiting);
                            assert(order@.contains(req));
                            assert(old(order)@.is_prefix_of(order@)) by {
                                assert(old(order)@.is_prefix_of(pre_order));
                                assert(pre_order.is_prefix_of(order@));
                                assert(forall|x: int|
                                    0 <= x < old(order)@.len() ==> old(order)@[x]
                                        == #[trigger] pre_order[x] && pre_order[x] == order@[x]);
                            }
                            assert forall|l: int|
                                0 <= l < k + 1 implies order@.contains(
                                #[trigger] m.entries@[e as int].1.requirements@[l],
                            ) by {
                                if l < k {
                                    let rl = m.entries@[e as int].1.requirements@[l];
                                    assert(pre_order.contains(rl));
                                    let w = choose|w: int|
                                        0 <= w < pre_order.len() && pre_order[w] == rl;
                                    assert(order@[w] == rl);
                                }
                            }
                        }
                    },
                    Err(err) => {
                        return Err(err);
                    },
                }
            },
        }
        k = k + 1;
    }
    let ghost pre_push = order@;
    proof {
        assert(spec_topo_ok(*m, pre_push));
    }
    let popped = awaiting.pop();
    proof {
        assert(awaiting@ =~= old(awaiting)@);
    }
    order.push(key);
    proof {
        assert(order@ == pre_push.push(key));
        assert(!pre_push.contains(key)) by {
            if pre_push.contains(key) {
                let w = choose|w: int| 0 <= w < pre_push.len() && pre_push[w] == key;
                assert((old(awaiting)@.push(key))[old(awaiting)@.len() as int] == key);
                assert(false);
            }
        }
        assert(order@.no_duplicates()) by {
            assert(forall|i: int|
                0 <= i < pre_push.len() ==> #[trigger] pre_push[i] != key);
        }
        assert(old(order)@.is_prefix_of(order@)) by {
            assert(forall|x: int|
                0 <= x < old(order)@.len() ==> old(order)@[x] == #[trigger] pre_push[x]
                    && pre_push[x] == order@[x]);
        }
        assert(order@.contains(key)) by {
            assert(order@[order@.len() - 1] == key);
        }
        assert forall|i: int, j: int|
            0 <= i < awaiting@.len() && 0 <= j < order@.len() implies #[trigger] awaiting@[i]
            != #[trigger] order@[j] by {
            if j < pre_push.len() {
                assert((old(awaiting)@.push(key))[i] == awaiting@[i]);
            } else {
                assert(order@[j] == key);
            }
        }
        lemma_topo_push(*m, pre_push, e as int);
        assert(order@ == pre_push.push(m.entries@[e as int].0.id));
        assert(spec_topo_ok(*m, order@));
        assert(dfs_inv(*m, awaiting@, order@));
    }
    Ok(())
}

/// The entry index of the patch with the given id.
pub open spec fn spec_entry_index(m: PatchMap, id: u128) -> int {
    choose|e: int| 0 <= e < m.entries@.len() && m.entries@[e].0.id == id
}

/// The manifest path of a patch: its source relative to the folder of
/// the migration meta file.
pub open spec fn spec_rel_of(s: Sewer, id: u128) -> Seq<u8> {
    spec_relpath_to_base(s.meta_base@, s.map.entries@[spec_entry_index(s.map, id)].0.source@)
}

/// The bytes of a patch's source file.
pub open spec fn spec_content_of(s: Sewer, id: u128) -> Seq<u8> {
    s.contents@[spec_entry_index(s.map, id)].1@
}

/// The manifest list lines, one `--   - <path>` line per patch.
pub open spec fn spec_manifest_items(s: Sewer, order: Seq<u128>) -> Seq<u8>
    decreases order.len(),
{
    if order.len() == 0 {
        Seq::empty()
    } else {
        seq![0x2du8, 0x2du8, 0x20u8, 0x20u8, 0x20u8, 0x2du8, 0x20u8] + spec_rel_of(s, order[0]) + seq![0x0au8] + spec_manifest_items(s, order.skip(1))
    }
}

/// The merged patch bodies: each patch trimmed, between `BEGIN` and
/// `END` markers that carry its manifest path.
pub open spec fn spec_merge(s: Sewer, order: Seq<u128>) -> Seq<u8>
    decreases order.len(),
{
    if order.len() == 0 {
        Seq::empty()
    } else {
        seq![0x2du8, 0x2du8, 0x20u8, 0x42u8, 0x45u8, 0x47u8, 0x49u8, 0x4eu8, 0x3au8, 0x20u8] + spec_rel_of(s, order[0]) + seq![0x0au8, 0x0au8] + spec_trim(spec_content_of(s, order[0])) + seq![0x0au8, 0x0au8, 0x2du8, 0x2du8, 0x20u8, 0x45u8, 0x4eu8, 0x44u8, 0x3au8, 0x20u8]
            + spec_rel_of(s, order[0]) + seq![0x0au8, 0x0au8] + spec_merge(s, order.skip(1))
    }
}

/// The built migration: a commented YAML block holding the format
/// version, the timestamp and the manifest, then the merged bodies.
pub open spec fn spec_sewage_text(s: Sewer, order: Seq<u128>, ts: Timestamp) -> Seq<u8> {
    seq![0x2du8, 0x2du8, 0x20u8, 0x2du8, 0x2du8, 0x2du8, 0x0au8, 0x2du8, 0x2du8, 0x20u8, 0x76u8, 0x65u8, 0x72u8, 0x73u8, 0x69u8, 0x6fu8, 0x6eu8, 0x3au8, 0x20u8, 0x31u8, 0x2fu8, 0x31u8, 0x30u8, 0x0au8, 0x2du8, 0x2du8, 0x20u8, 0x2du8, 0x2du8, 0x2du8, 0x20u8, 0x23u8, 0x20u8, 0x62u8, 0x6fu8, 0x72u8, 0x64u8, 0x65u8, 0x72u8, 0x0au8, 0x2du8, 0x2du8, 0x20u8, 0x74u8, 0x69u8, 0x6du8, 0x65u8, 0x73u8, 0x74u8, 0x61u8, 0x6du8, 0x70u8, 0x3au8, 0x20u8] + spec_timestamp_text(ts) + seq![0x0au8, 0x2du8, 0x2du8, 0x20u8, 0x6du8, 0x61u8, 0x6eu8, 0x69u8, 0x66u8, 0x65u8, 0x73u8, 0x74u8, 0x3au8, 0x0au8] + spec_manifest_items(s, order) + seq![0x2du8, 0x2du8, 0x20u8, 0x2du8, 0x2du8, 0x2du8, 0x0au8, 0x0au8]
        + spec_trim(spec_merge(s, order))
}

impl Sewer {
    /// Build the migration text for the given patch order: the YAML
    /// manifest block commented with `-- `, then each patch's trimmed
    /// body between `BEGIN` and `END` markers, in order.
    pub fn sewage(&self, order: &Vec<u128>, now: &Timestamp) -> (r: Vec<u8>)
        requires
            sewer_wf(*self),
            timestamp_valid(*now),
            now.year >= 0,
            forall|i: int| 0 <= i < order@.len() ==> map_has_id(self.map, #[trigger] order@[i]),
        ensures
            r@ == spec_sewage_text(*self, order@, *now),
    {
        let headpre: [u8; 54] = [0x2d, 0x2d, 0x20, 0x2d, 0x2d, 0x2d, 0x0a, 0x2d, 0x2d, 0x20, 0x76, 0x65, 0x72, 0x73, 0x69, 0x6f, 0x6e, 0x3a, 0x20, 0x31, 0x2f, 0x31, 0x30, 0x0a, 0x2d, 0x2d, 0x20, 0x2d, 0x2d, 0x2d, 0x20, 0x23, 0x20, 0x62, 0x6f, 0x72, 0x64, 0x65, 0x72, 0x0a, 0x2d, 0x2d, 0x20, 0x74, 0x69, 0x6d, 0x65, 0x73, 0x74, 0x61, 0x6d, 0x70, 0x3a, 0x20];
        let manif: [u8; 14] = [0x0a, 0x2d, 0x2d, 0x20, 0x6d, 0x61, 0x6e, 0x69, 0x66, 0x65, 0x73, 0x74, 0x3a, 0x0a];
        let headend: [u8; 8] = [0x2d, 0x2d, 0x20, 0x2d, 0x2d, 0x2d, 0x0a, 0x0a];
        let itempre: [u8; 7] = [0x2d, 0x2d, 0x20, 0x20, 0x20, 0x2d, 0x20];
        let beginpre: [u8; 10] = [0x2d, 0x2d, 0x20, 0x42, 0x45, 0x47, 0x49, 0x4e, 0x3a, 0x20];
        let endpre: [u8; 10] = [0x0a, 0x0a, 0x2d, 0x2d, 0x20, 0x45, 0x4e, 0x44, 0x3a, 0x20];
        let nlnl: [u8; 2] = [0x0a, 0x0a];
        proof {
            assert(headpre@ =~= seq![0x2du8, 0x2du8, 0x20u8, 0x2du8, 0x2du8, 0x2du8, 0x0au8, 0x2du8, 0x2du8, 0x20u8, 0x76u8, 0x65u8, 0x72u8, 0x73u8, 0x69u8, 0x6fu8, 0x6eu8, 0x3au8, 0x20u8, 0x31u8, 0x2fu8, 0x31u8, 0x30u8, 0x0au8, 0x2du8, 0x2du8, 0x20u8, 0x2du8, 0x2du8, 0x2du8, 0x20u8, 0x23u8, 0x20u8, 0x62u8, 0x6fu8, 0x72u8, 0x64u8, 0x65u8, 0x72u8, 0x0au8, 0x2du8, 0x2du8, 0x20u8, 0x74u8, 0x69u8, 0x6du8, 0x65u8, 0x73u8, 0x74u8, 0x61u8, 0x6du8, 0x70u8, 0x3au8, 0x20u8]);
            assert(manif@ =~= seq![0x0au8, 0x2du8, 0x2du8, 0x20u8, 0x6du8, 0x61u8, 0x6eu8, 0x69u8, 0x66u8, 0x65u8, 0x73u8, 0x74u8, 0x3au8, 0x0au8]);
            assert(headend@ =~= seq![0x2du8, 0x2du8, 0x20u8, 0x2du8, 0x2du8, 0x2du8, 0x0au8, 0x0au8]);
            assert(itempre@ =~= seq![0x2du8, 0x2du8, 0x20u8, 0x20u8, 0x20u8, 0x2du8, 0x20u8]);
            assert(beginpre@ =~= seq![0x2du8, 0x2du8, 0x20u8, 0x42u8, 0x45u8, 0x47u8, 0x49u8, 0x4eu8, 0x3au8, 0x20u8]);
            assert(endpre@ =~= seq![0x0au8, 0x0au8, 0x2du8, 0x2du8, 0x20u8, 0x45u8, 0x4eu8, 0x44u8, 0x3au8, 0x20u8]);
            assert(nlnl@ =~= seq![0x0au8, 0x0au8]);
        }
        let mut items: Vec<u8> = Vec::new();
        let mut merge: Vec<u8> = Vec::new();
        let mut i: usize = 0;
        proof {
            assert(order@.skip(0) =~= order@);
            assert(items@ + spec_manifest_items(*self, order@) =~= spec_manifest_items(
                *self,
                order@,
            ));
            assert(merge@ + spec_merge(*self, order@) =~= spec_merge(*self, order@));
        }
        while i < order.len()
            invariant
                sewer_wf(*self),
                i <= order@.len(),
                forall|j: int| 0 <= j < order@.len() ==> map_has_id(self.map, #[trigger] order@[j]),
                items@ + spec_manifest_items(*self, order@.skip(i as int)) == spec_manifest_items(
                    *self,
                    order@,
                ),
                merge@ + spec_merge(*self, order@.skip(i as int)) == spec_merge(*self, order@),
                itempre@ == seq![0x2du8, 0x2du8, 0x20u8, 0x20u8, 0x20u8, 0x2du8, 0x20u8],
                beginpre@ == seq![0x2du8, 0x2du8, 0x20u8, 0x42u8, 0x45u8, 0x47u8, 0x49u8, 0x4eu8, 0x3au8, 0x20u8],
                endpre@ == seq![0x0au8, 0x0au8, 0x2du8, 0x2du8, 0x20u8, 0x45u8, 0x4eu8, 0x44u8, 0x3au8, 0x20u8],
                nlnl@ == seq![0x0au8, 0x0au8],
            decreases order@.len() - i,
        {
            let id = order[i];
            let e = match self.map.index_of(id) {
                Some(e) => e,
                None => {
                    proof {
                        assert(map_has_id(self.map, order@[i as int]));
                        assert(false);
                    }
                    return Vec::new();
                },
            };
            proof {
                let ce = spec_entry_index(self.map, id);
                assert(0 <= ce < self.map.entries@.len() && self.map.entries@[ce].0.id == id) by {
                    assert(map_has_id(self.map, id));
                }
                assert(e as int == ce) by {
                    if (e as int) < ce {
                        assert(self.map.entries@[e as int].0.id != self.map.entries@[ce].0.id);
                    } else if (e as int) > ce {
                        assert(self.map.entries@[ce].0.id != self.map.entries@[e as int].0.id);
                    }
                }
            }
            let rel = relpath_to_base(
                self.meta_base.as_slice(),
                self.map.entries[e].0.source.as_slice(),
            );
            proof {
                assert(rel@ == spec_rel_of(*self, id));
                assert(self.contents@[e as int].0 == self.map.entries@[e as int].0.id);
            }
            let body = trim(self.contents[e].1.as_slice());
            proof {
                assert(body@ == spec_trim(spec_content_of(*self, id)));
            }
            let ghost items_before = items@;
            append_bytes(&mut items, &itempre);
            append_bytes(&mut items, rel.as_slice());
            items.push(0x0a);
            let ghost merge_before = merge@;
            append_bytes(&mut merge, &beginpre);
            append_bytes(&mut merge, rel.as_slice());
            append_bytes(&mut merge, &nlnl);
            append_bytes(&mut merge, body.as_slice());
            append_bytes(&mut merge, &endpre);
            append_bytes(&mut merge, rel.as_slice());
            append_bytes(&mut merge, &nlnl);
            proof {
                let rest = order@.skip(i as int);
                assert(rest[0] == order@[i as int]);
                assert(rest.skip(1) =~= order@.skip(i + 1));
                assert(spec_manifest_items(*self, rest) == seq![0x2du8, 0x2du8, 0x20u8, 0x20u8, 0x20u8, 0x2du8, 0x20u8] + spec_rel_of(*self, rest[0]) + seq![0x0au8]
                    + spec_manifest_items(*self, rest.skip(1)));
                assert(items@ =~= items_before + (seq![0x2du8, 0x2du8, 0x20u8, 0x20u8, 0x20u8, 0x2du8, 0x20u8] + rel@ + seq![0x0au8]));
                assert(items@ + spec_manifest_items(*self, order@.skip(i + 1))
                    =~= items_before + spec_manifest_items(*self, rest));
                assert(spec_merge(*self, rest) == seq![0x2du8, 0x2du8, 0x20u8, 0x42u8, 0x45u8, 0x47u8, 0x49u8, 0x4eu8, 0x3au8, 0x20u8] + spec_rel_of(*self, rest[0]) + seq![0x0au8, 0x0au8]
                    + spec_trim(spec_content_of(*self, rest[0])) + seq![0x0au8, 0x0au8, 0x2du8, 0x2du8, 0x20u8, 0x45u8, 0x4eu8, 0x44u8, 0x3au8, 0x20u8] + spec_rel_of(
                    *self,
                    rest[0],
                ) + seq![0x0au8, 0x0au8] + spec_merge(*self, rest.skip(1)));
                assert(merge@ =~= merge_before + (seq![0x2du8, 0x2du8, 0x20u8, 0x42u8, 0x45u8, 0x47u8, 0x49u8, 0x4eu8, 0x3au8, 0x20u8] + rel@ + seq![0x0au8, 0x0au8] + body@ + seq![0x0au8, 0x0au8, 0x2du8, 0x2du8, 0x20u8, 0x45u8, 0x4eu8, 0x44u8, 0x3au8, 0x20u8] + rel@
                    + seq![0x0au8, 0x0au8]));
                assert(merge@ + spec_merge(*self, order@.skip(i + 1)) =~= merge_before + spec_merge(
                    *self,
                    rest,
                ));
            }
            i = i + 1;
        }
        proof {
            assert(order@.skip(i as int) =~= Seq::<u128>::empty());
            assert(spec_manifest_items(*self, order@.skip(i as int)) =~= Seq::<u8>::empty());
            assert(spec_merge(*self, order@.skip(i as int)) =~= Seq::<u8>::empty());
            assert(items@ =~= spec_manifest_items(*self, order@));
            assert(merge@ =~= spec_merge(*self, order@));
        }
        let trimmed = trim(merge.as_slice());
        let ts_text = timestamp_text(now);
        let mut r: Vec<u8> = Vec::new();
        append_bytes(&mut r, &headpre);
        append_bytes(&mut r, ts_text.as_slice());
        append_bytes(&mut r, &manif);
        append_bytes(&mut r, items.as_slice());
        append_bytes(&mut r, &headend);
        append_bytes(&mut r, trimmed.as_slice());
        proof {
            assert(r@ =~= spec_sewage_text(*self, order@, *now));
        }
        r
    }
}

} // verus!
