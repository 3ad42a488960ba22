use vstd::prelude::*;

use crate::docs::{
    lookup_key, lookup_key_values, spec_key_values, spec_lookup_key, spec_version_is_current,
    version_is_current,
};
use crate::error::Error;
use crate::pathutil::{path_uuid, path_uuid_of, relpath_to_base, spec_relpath_to_base};
use crate::textutil::{
    copy_range, ends_with, is_prefix, spec_lines, split_lines, starts_with, views_of,
};
use crate::timeutil::spec_zeros;
use crate::weight::{
    alphabet, dec_digits, dec_val, spec_weight_digits, weight_is_sum, weight_wf, Weight,
};

verus! {

/// A source file handed to the library: its absolute path and its
/// bytes.
#[derive(Clone, Debug)]
pub struct SourceFile {
    pub path: Vec<u8>,
    pub content: Vec<u8>,
}

/// A patch: a SQL source file, identified by the UUIDv5 of its
/// absolute path.
#[derive(Clone, Debug)]
pub struct Patch {
    pub id: u128,
    pub source: Vec<u8>,
}

impl Patch {
    /// A patch for the given source path, with its derived id.
    pub fn new(source: Vec<u8>) -> (r: Patch)
        ensures
            r.source@ == source@,
            r.id == path_uuid_of(source@),
    {
        let id = path_uuid(source.as_slice());
        Patch { id, source }
    }
}

/// Parsed but unresolved patch data: the relativized path without its
/// `.sql` ending, the textual requirements as written, and the weight.
#[derive(Clone, Debug)]
pub struct RawMeta {
    pub path: Vec<u8>,
    pub requirements: Vec<Vec<u8>>,
    pub weight: Weight,
}

/// Position of the first non-empty line.
pub open spec fn spec_first_nonempty(lines: Seq<Seq<u8>>) -> Option<int>
    decreases lines.len(),
{
    if lines.len() == 0 {
        None
    } else if lines[0].len() > 0 {
        Some(0)
    } else {
        match spec_first_nonempty(lines.skip(1)) {
            Some(i) => Some(i + 1),
            None => None,
        }
    }
}

/// The SQL comment prefix `-- `.
pub open spec fn spec_comment_prefix() -> Seq<u8> {
    seq![0x2du8, 0x2du8, 0x20u8]
}

/// The header opener `-- ---`.
pub open spec fn spec_header_opener() -> Seq<u8> {
    seq![0x2du8, 0x2du8, 0x20u8, 0x2du8, 0x2du8, 0x2du8]
}

/// A file carries a header when its first non-empty line begins with
/// `-- ---`.
pub open spec fn spec_has_header(lines: Seq<Seq<u8>>) -> bool {
    match spec_first_nonempty(lines) {
        Some(i) => is_prefix(lines[i], spec_header_opener()),
        None => false,
    }
}

/// The header lines: each leading line beginning with `-- `, with that
/// prefix stripped; empty lines are skipped; the first other line ends
/// the header.
pub open spec fn spec_collect_header(lines: Seq<Seq<u8>>) -> Seq<Seq<u8>>
    decreases lines.len(),
{
    if lines.len() == 0 {
        Seq::empty()
    } else if lines[0].len() == 0 {
        spec_collect_header(lines.skip(1))
    } else if is_prefix(lines[0], spec_comment_prefix()) {
        seq![lines[0].skip(3)] + spec_collect_header(lines.skip(1))
    } else {
        Seq::empty()
    }
}

/// The YAML header of a patch file, as lines: present only when the
/// first non-empty line opens with `-- ---`.
pub open spec fn spec_header_lines(content: Seq<u8>) -> Seq<Seq<u8>> {
    if spec_has_header(spec_lines(content)) {
        spec_collect_header(spec_lines(content))
    } else {
        Seq::empty()
    }
}

/// Extract the YAML header lines of a patch file.
pub fn header_lines(content: &[u8]) -> (r: Vec<Vec<u8>>)
    ensures
        views_of(r@) == spec_header_lines(content@),
{
    let lines = split_lines(content);
    let ghost lv = views_of(lines@);
    let mut i: usize = 0;
    while i < lines.len() && lines[i].len() == 0
        invariant
            i <= lines@.len(),
            lv == views_of(lines@),
            lv.len() == lines@.len(),
            forall|j: int| 0 <= j < lv.len() ==> lv[j] == #[trigger] lines@[j]@,
            forall|j: int| 0 <= j < i ==> #[trigger] lv[j].len() == 0,
        decreases lines@.len() - i,
    {
        i = i + 1;
    }
    let gate: bool = if i < lines.len() {
        let opener_slice: [u8; 6] = [0x2d, 0x2d, 0x20, 0x2d, 0x2d, 0x2d];
        proof {
            assert(opener_slice@ =~= spec_header_opener());
        }
        let g = starts_with(lines[i].as_slice(), &opener_slice);
        proof {
            lemma_first_nonempty_characterizes(lv);
            match spec_first_nonempty(lv) {
                Some(f) => {
                    if f < i {
                        assert(lv[f].len() == 0);
                    } else if f > i {
                        assert(lv[i as int].len() == 0);
                    }
                    assert(f == i);
                },
                None => {
                    assert(lv[i as int].len() == 0);
                },
            }
            assert(g == spec_has_header(lv));
        }
        g
    } else {
        proof {
            lemma_first_nonempty_characterizes(lv);
            match spec_first_nonempty(lv) {
                Some(f) => {
                    assert(lv[f].len() == 0);
                },
                None => {},
            }
            assert(!spec_has_header(lv));
        }
        false
    };
    if !gate {
        let r: Vec<Vec<u8>> = Vec::new();
        proof {
            assert(views_of(r@) =~= Seq::<Seq<u8>>::empty());
        }
        return r;
    }
    let mut r: Vec<Vec<u8>> = Vec::new();
    let mut k: usize = 0;
    proof {
        assert(lv.skip(0) =~= lv);
        assert(views_of(r@) + spec_collect_header(lv) =~= spec_collect_header(lv));
    }
    while k < lines.len()
        invariant
            k <= lines@.len(),
            lv == views_of(lines@),
            lv == spec_lines(content@),
            spec_has_header(lv),
            lv.len() == lines@.len(),
            forall|j: int| 0 <= j < lv.len() ==> lv[j] == #[trigger] lines@[j]@,
            views_of(r@) + spec_collect_header(lv.skip(k as int)) == spec_collect_header(lv),
        decreases lines@.len() - k,
    {
        proof {
            assert(lv.skip(k as int)[0] == lv[k as int]);
            assert(lv.skip(k as int).skip(1) =~= lv.skip(k + 1));
        }
        if lines[k].len() == 0 {
            proof {
                assert(spec_collect_header(lv.skip(k as int)) == spec_collect_header(
                    lv.skip(k + 1),
                ));
            }
            k = k + 1;
            continue;
        }
        let comment_slice: [u8; 3] = [0x2d, 0x2d, 0x20];
        proof {
            assert(comment_slice@ =~= spec_comment_prefix());
        }
        if starts_with(lines[k].as_slice(), &comment_slice) {
            let stripped = copy_range(lines[k].as_slice(), 3, lines[k].len());
            proof {
                assert(stripped@ =~= lv[k as int].skip(3));
            }
            let ghost before = views_of(r@);
            r.push(stripped);
            proof {
                assert(views_of(r@) =~= before.push(stripped@));
                assert(spec_collect_header(lv.skip(k as int)) == seq![lv[k as int].skip(3)]
                    + spec_collect_header(lv.skip(k + 1)));
                assert(views_of(r@) + spec_collect_header(lv.skip(k + 1)) =~= before + (seq![
                    lv[k as int].skip(3),
                ] + spec_collect_header(lv.skip(k + 1))));
            }
            k = k + 1;
        } else {
            proof {
                assert(spec_collect_header(lv.skip(k as int)) =~= Seq::<Seq<u8>>::empty());
                assert(views_of(r@) =~= spec_collect_header(lv));
            }
            return r;
        }
    }
    proof {
        assert(lv.skip(k as int) =~= Seq::<Seq<u8>>::empty());
        assert(views_of(r@) =~= spec_collect_header(lv));
    }
    r
}

pub proof fn lemma_first_nonempty_characterizes(lines: Seq<Seq<u8>>)
    ensures
        match spec_first_nonempty(lines) {
            Some(i) => 0 <= i < lines.len() && lines[i].len() > 0 && (forall|j: int|
                0 <= j < i ==> #[trigger] lines[j].len() == 0),
            None => forall|j: int| 0 <= j < lines.len() ==> #[trigger] lines[j].len() == 0,
        },
    decreases lines.len(),
{
    if lines.len() == 0 {
    } else if lines[0].len() > 0 {
    } else {
        lemma_first_nonempty_characterizes(lines.skip(1));
        let t = lines.skip(1);
        match spec_first_nonempty(t) {
            Some(i2) => {
                assert(t[i2] == lines[i2 + 1]);
                assert forall|j: int| 0 <= j < i2 + 1 implies #[trigger] lines[j].len() == 0 by {
                    if j >= 1 {
                        assert(t[j - 1] == lines[j]);
                    }
                }
            },
            None => {
                assert forall|j: int|
                    0 <= j < lines.len() implies #[trigger] lines[j].len() == 0 by {
                    if j >= 1 {
                        assert(t[j - 1] == lines[j]);
                    }
                }
            },
        }
    }
}

/// The `.sql` file ending.
pub open spec fn spec_sql_suffix() -> Seq<u8> {
    seq![0x2eu8, 0x73u8, 0x71u8, 0x6cu8]
}

/// The patch path relative to the meta folder, with a trailing `.sql`
/// removed.
pub open spec fn spec_rel_path(meta_base: Seq<u8>, path: Seq<u8>) -> Seq<u8> {
    let r = spec_relpath_to_base(meta_base, path);
    if crate::textutil::is_suffix(r, spec_sql_suffix()) {
        r.take(r.len() - 4)
    } else {
        r
    }
}

/// The version scalar of a header, if declared.
pub open spec fn spec_header_version(content: Seq<u8>) -> Option<Seq<u8>> {
    spec_lookup_key(spec_header_lines(content), seq![0x76u8, 0x65u8, 0x72u8, 0x73u8, 0x69u8, 0x6fu8, 0x6eu8])
}

/// The textual requirements of a header, in declared order.
pub open spec fn spec_header_requires(content: Seq<u8>) -> Seq<Seq<u8>> {
    spec_key_values(
        spec_header_lines(content),
        seq![0x72u8, 0x65u8, 0x71u8, 0x75u8, 0x69u8, 0x72u8, 0x65u8],
    )
}

/// The weight override scalar of a header, if declared.
pub open spec fn spec_header_weight(content: Seq<u8>) -> Option<Seq<u8>> {
    spec_lookup_key(
        spec_header_lines(content),
        seq![0x77u8, 0x65u8, 0x69u8, 0x67u8, 0x68u8, 0x74u8],
    )
}

/// The weight override denoted by a header, as numerator and
/// denominator digit strings, when one is declared, parses, and is a
/// positive rational.
pub open spec fn spec_header_override(content: Seq<u8>) -> Option<(Seq<u8>, Seq<u8>)> {
    match spec_header_weight(content) {
        Some(v) => crate::weight::spec_parse_weight(v),
        None => None,
    }
}

/// The declared version is present and is not the supported one.
pub open spec fn spec_version_rejected(content: Seq<u8>) -> bool {
    match spec_header_version(content) {
        Some(v) => !spec_version_is_current(v),
        None => false,
    }
}

/// The weight a raw meta must denote: the alphabet weight of the
/// relative path, plus the declared override when there is one. With
/// an override the weight equals the rational sum, by cross
/// multiplication against the alphabet denominator and the override.
pub open spec fn spec_raw_weight_ok(w: Weight, rel: Seq<u8>, content: Seq<u8>) -> bool {
    let wd = spec_weight_digits(rel);
    let ad = seq![0x31u8] + spec_zeros(wd.len() as nat);
    match spec_header_override(content) {
        Some(ov) => dec_val(w.num@) * (dec_val(ad) * dec_val(ov.1)) == (dec_val(wd) * dec_val(
            ov.1,
        ) + dec_val(ov.0) * dec_val(ad)) * dec_val(w.den@),
        None => w.num@ == wd && w.den@ == ad,
    }
}

/// The raw meta a cleanly parsed file denotes: the relativized path,
/// the declared requirements, and the weight with its override.
pub open spec fn spec_raw_meta_matches(
    m: RawMeta,
    meta_base: Seq<u8>,
    path: Seq<u8>,
    content: Seq<u8>,
) -> bool {
    &&& m.path@ == spec_rel_path(meta_base, path)
    &&& views_of(m.requirements@) == spec_header_requires(content)
    &&& weight_wf(m.weight)
    &&& spec_raw_weight_ok(m.weight, spec_rel_path(meta_base, path), content)
}

/// The error a rejected file produces: `InvalidWeight` for a path
/// whose weight denotes zero, else `UnsupportedVersion` for a header
/// declaring another version.
pub open spec fn spec_raw_err_matches(
    e: Error,
    meta_base: Seq<u8>,
    path: Seq<u8>,
    content: Seq<u8>,
) -> bool {
    match e {
        Error::InvalidWeight { text } => {
            &&& dec_val(spec_weight_digits(spec_rel_path(meta_base, path))) == 0
            &&& text@ == spec_rel_path(meta_base, path)
        },
        Error::UnsupportedVersion { place, got } => {
            &&& dec_val(spec_weight_digits(spec_rel_path(meta_base, path))) > 0
            &&& spec_version_rejected(content)
            &&& spec_header_version(content) == Some(got@)
        },
        _ => false,
    }
}

/// Parse one patch file into its raw meta. The relative path is
/// computed against the migration meta's folder; `InvalidWeight` is
/// reported for a path whose weight expansion denotes zero, and
/// `UnsupportedVersion` for a header that declares another version.
pub fn parse_raw_meta(meta_base: &[u8], path: &[u8], content: &[u8]) -> (r: Result<RawMeta, Error>)
    ensures
        match r {
            Ok(m) => spec_parse_raw_ok(meta_base@, path@, content@) && spec_raw_meta_matches(
                m,
                meta_base@,
                path@,
                content@,
            ),
            Err(e) => !spec_parse_raw_ok(meta_base@, path@, content@) && spec_raw_err_matches(
                e,
                meta_base@,
                path@,
                content@,
            ),
        },
{
    let rel_full = relpath_to_base(meta_base, path);
    let sql: [u8; 4] = [0x2e, 0x73, 0x71, 0x6c];
    proof {
        assert(sql@ =~= spec_sql_suffix());
    }
    let rel: Vec<u8> = if ends_with(rel_full.as_slice(), &sql) {
        let v = copy_range(rel_full.as_slice(), 0, rel_full.len() - 4);
        proof {
            assert(v@ =~= rel_full@.take(rel_full@.len() - 4));
        }
        v
    } else {
        rel_full
    };
    let alpha = match alphabet(rel.as_slice()) {
        Ok(w) => w,
        Err(e) => {
            return Err(e);
        },
    };
    let header = header_lines(content);
    let version_key: [u8; 7] = [0x76, 0x65, 0x72, 0x73, 0x69, 0x6f, 0x6e];
    proof {
        assert(version_key@ =~= seq![0x76u8, 0x65u8, 0x72u8, 0x73u8, 0x69u8, 0x6fu8, 0x6eu8]);
    }
    match lookup_key(&header, &version_key) {
        Some(v) => {
            if !version_is_current(v.as_slice()) {
                return Err(Error::UnsupportedVersion { place: rel, got: v });
            }
        },
        None => {},
    }
    let require_key: [u8; 7] = [0x72, 0x65, 0x71, 0x75, 0x69, 0x72, 0x65];
    proof {
        assert(require_key@ =~= seq![0x72u8, 0x65u8, 0x71u8, 0x75u8, 0x69u8, 0x72u8, 0x65u8]);
    }
    let requirements = lookup_key_values(&header, &require_key);
    let weight_key: [u8; 6] = [0x77, 0x65, 0x69, 0x67, 0x68, 0x74];
    proof {
        assert(weight_key@ =~= seq![0x77u8, 0x65u8, 0x69u8, 0x67u8, 0x68u8, 0x74u8]);
    }
    let weight: Weight = match lookup_key(&header, &weight_key) {
        Some(v) => {
            match crate::weight::parse_weight(v.as_slice()) {
                Some(ov) => {
                    let w = alpha.add(&ov);
                    proof {
                        assert(weight_is_sum(w, alpha, ov));
                        assert(spec_raw_weight_ok(w, spec_rel_path(meta_base@, path@), content@));
                    }
                    w
                },
                None => alpha,
            }
        },
        None => alpha,
    };
    Ok(RawMeta { path: rel, requirements, weight })
}

/// The unresolved patch map: each patch with its raw meta, keyed by
/// the patch id.
#[derive(Clone, Debug)]
pub struct RawMap {
    pub entries: Vec<(Patch, RawMeta)>,
}

/// Well-formed raw map: ids derive from the source paths and are
/// unique.
pub open spec fn raw_map_wf(m: RawMap) -> bool {
    &&& forall|i: int|
        0 <= i < m.entries@.len() ==> (#[trigger] m.entries@[i]).0.id == path_uuid_of(
            m.entries@[i].0.source@,
        )
    &&& forall|i: int, j: int|
        0 <= i < j < m.entries@.len() ==> (#[trigger] m.entries@[i]).0.id != (
        #[trigger] m.entries@[j]).0.id
    &&& forall|i: int|
        0 <= i < m.entries@.len() ==> weight_wf((#[trigger] m.entries@[i]).1.weight)
}

impl RawMap {
    /// Does the map hold a patch with this id?
    pub fn contains_id(&self, id: u128) -> (r: bool)
        ensures
            r == exists|i: int|
                0 <= i < self.entries@.len() && (#[trigger] self.entries@[i]).0.id == id,
    {
        let mut i: usize = 0;
        while i < self.entries.len()
            invariant
                i <= self.entries@.len(),
                forall|j: int| 0 <= j < i ==> (#[trigger] self.entries@[j]).0.id != id,
            decreases self.entries@.len() - i,
        {
            if self.entries[i].0.id == id {
                return true;
            }
            i = i + 1;
        }
        false
    }
}

/// The ids of the files, in first-occurrence order, each id once.
pub open spec fn spec_unique_ids(files: Seq<SourceFile>) -> Seq<u128>
    decreases files.len(),
{
    if files.len() == 0 {
        Seq::empty()
    } else {
        let prefix = spec_unique_ids(files.drop_last());
        let id = path_uuid_of(files.last().path@);
        if prefix.contains(id) {
            prefix
        } else {
            prefix.push(id)
        }
    }
}

/// The last position among the files whose path bears the id.
pub open spec fn spec_last_with(files: Seq<SourceFile>, id: u128) -> int
    decreases files.len(),
{
    if files.len() == 0 {
        -1
    } else if path_uuid_of(files.last().path@) == id {
        files.len() - 1
    } else {
        spec_last_with(files.drop_last(), id)
    }
}

/// Entry `k` holds the data of the last file bearing the `k`-th
/// distinct id.
pub open spec fn spec_entry_matches_at(
    entries: Seq<(Patch, RawMeta)>,
    k: int,
    meta_base: Seq<u8>,
    files: Seq<SourceFile>,
) -> bool {
    let id = spec_unique_ids(files)[k];
    let j = spec_last_with(files, id);
    &&& entries[k].0.id == id
    &&& 0 <= j < files.len()
    &&& entries[k].0.source@ == files[j].path@
    &&& spec_raw_meta_matches(entries[k].1, meta_base, files[j].path@, files[j].content@)
}

/// The raw map a file list builds: one entry per distinct id, in
/// first-occurrence order, each holding the data of the last file
/// bearing that id.
pub open spec fn spec_build_matches(m: RawMap, meta_base: Seq<u8>, files: Seq<SourceFile>) -> bool {
    &&& m.entries@.len() == spec_unique_ids(files).len()
    &&& forall|k: int|
        0 <= k < m.entries@.len() ==> #[trigger] spec_entry_matches_at(
            m.entries@,
            k,
            meta_base,
            files,
        )
}

/// The index of the entry bearing this id, if any.
fn entries_index_of(entries: &Vec<(Patch, RawMeta)>, id: u128) -> (r: Option<usize>)
    ensures
        match r {
            Some(k) => k < entries@.len() && entries@[k as int].0.id == id,
            None => forall|l: int| 0 <= l < entries@.len() ==> (#[trigger] entries@[l]).0.id != id,
        },
{
    let mut k: usize = 0;
    while k < entries.len()
        invariant
            k <= entries@.len(),
            forall|l: int| 0 <= l < k ==> (#[trigger] entries@[l]).0.id != id,
        decreases entries@.len() - k,
    {
        if entries[k].0.id == id {
            return Some(k);
        }
        k = k + 1;
    }
    None
}

/// Build the raw map from the source files of a migration. Files are
/// keyed by the UUIDv5 of their absolute path; a later file with the
/// same id replaces the earlier one, in place. The first file whose
/// header or weight is rejected aborts the build with that error.
pub fn build_raw_map(meta_base: &[u8], files: &Vec<SourceFile>) -> (r: Result<RawMap, Error>)
    ensures
        match r {
            Ok(m) => raw_map_wf(m) && m.entries@.len() <= files@.len() && spec_build_matches(
                m,
                meta_base@,
                files@,
            ),
            Err(e) => exists|j: int|
                0 <= j < files@.len() && !(#[trigger] spec_parse_raw_ok(
                    meta_base@,
                    files@[j].path@,
                    files@[j].content@,
                )) && spec_raw_err_matches(e, meta_base@, files@[j].path@, files@[j].content@)
                    && (forall|l: int|
                    0 <= l < j ==> spec_parse_raw_ok(
                        meta_base@,
                        (#[trigger] files@[l]).path@,
                        files@[l].content@,
                    )),
        },
{
    let mut entries: Vec<(Patch, RawMeta)> = Vec::new();
    let mut i: usize = 0;
    proof {
        assert(files@.take(0) =~= Seq::<SourceFile>::empty());
    }
    while i < files.len()
        invariant
            i <= files@.len(),
            entries@.len() <= i,
            forall|l: int|
                0 <= l < i ==> spec_parse_raw_ok(
                    meta_base@,
                    (#[trigger] files@[l]).path@,
                    files@[l].content@,
                ),
            forall|k: int|
                0 <= k < entries@.len() ==> (#[trigger] entries@[k]).0.id == path_uuid_of(
                    entries@[k].0.source@,
                ),
            forall|k: int, l: int|
                0 <= k < l < entries@.len() ==> (#[trigger] entries@[k]).0.id != (
                #[trigger] entries@[l]).0.id,
            forall|k: int|
                0 <= k < entries@.len() ==> weight_wf((#[trigger] entries@[k]).1.weight),
            entries@.len() == spec_unique_ids(files@.take(i as int)).len(),
            forall|k: int|
                0 <= k < entries@.len() ==> #[trigger] spec_entry_matches_at(
                    entries@,
                    k,
                    meta_base@,
                    files@.take(i as int),
                ),
        decreases files@.len() - i,
    {
        let file = &files[i];
        let meta = match parse_raw_meta(meta_base, file.path.as_slice(), file.content.as_slice()) {
            Ok(m) => m,
            Err(e) => {
                return Err(e);
            },
        };
        let path_copy = copy_range(file.path.as_slice(), 0, file.path.len());
        proof {
            assert(path_copy@ =~= files@[i as int].path@);
        }
        let patch = Patch::new(path_copy);
        let ghost fpre = files@.take(i as int);
        let ghost fpost = files@.take(i + 1);
        let ghost upre = spec_unique_ids(fpre);
        let ghost upost = spec_unique_ids(fpost);
        proof {
            assert(fpost.drop_last() =~= fpre);
            assert(fpost.last() == files@[i as int]);
            assert(patch.id == path_uuid_of(files@[i as int].path@));
        }
        match entries_index_of(&entries, patch.id) {
            Some(k) => {
                let patch2 = Patch {
                    id: patch.id,
                    source: copy_range(patch.source.as_slice(), 0, patch.source.len()),
                };
                let meta2 = RawMeta {
                    path: copy_range(meta.path.as_slice(), 0, meta.path.len()),
                    requirements: crate::textutil::copy_lines(&meta.requirements),
                    weight: meta.weight.duplicate(),
                };
                proof {
                    assert(patch2.source@ =~= patch.source@);
                    assert(meta2.weight.num@ == meta.weight.num@);
                    assert(meta2.weight.den@ == meta.weight.den@);
                    assert(views_of(meta2.requirements@) == views_of(meta.requirements@));
                    assert(meta2.path@ =~= meta.path@);
                }
                let ghost before = entries@;
                entries.set(k, (patch2, meta2));
                proof {
                    assert(spec_entry_matches_at(before, k as int, meta_base@, fpre));
                    assert(upre.contains(patch.id)) by {
                        assert(upre[k as int] == before[k as int].0.id);
                    }
                    assert(upost == upre);
                    assert(fpost.last() == files@[i as int]);
                    assert(path_uuid_of(fpost.last().path@) == patch.id);
                    assert(fpost.drop_last() == fpre);
                    assert forall|k2: int|
                        0 <= k2 < entries@.len() implies #[trigger] spec_entry_matches_at(
                        entries@,
                        k2,
                        meta_base@,
                        fpost,
                    ) by {
                        if k2 == k {
                            assert(spec_entry_matches_at(before, k2, meta_base@, fpre));
                            assert(entries@[k2].0.id == patch.id);
                            assert(upost[k2] == patch.id) by {
                                assert(upre[k2] == before[k2].0.id);
                            }
                            assert(spec_last_with(fpost, patch.id) == i);
                            assert(spec_raw_meta_matches(
                                entries@[k2].1,
                                meta_base@,
                                files@[i as int].path@,
                                files@[i as int].content@,
                            ));
                        } else {
                            assert(before[k2] == entries@[k2]);
                            assert(spec_entry_matches_at(before, k2, meta_base@, fpre));
                            let id2 = upre[k2];
                            assert(before[k2].0.id == id2);
                            assert(id2 != patch.id) by {
                                if k2 < k {
                                    assert(before[k2].0.id != before[k as int].0.id);
                                } else {
                                    assert(before[k as int].0.id != before[k2].0.id);
                                }
                                assert(before[k as int].0.id == patch.id);
                            }
                            assert(spec_last_with(fpost, id2) == spec_last_with(fpre, id2));
                        }
                    }
                }
            },
            None => {
                proof {
                    assert(!upre.contains(patch.id)) by {
                        if upre.contains(patch.id) {
                            let w = choose|w: int| 0 <= w < upre.len() && upre[w] == patch.id;
                            assert(spec_entry_matches_at(entries@, w, meta_base@, fpre));
                            assert(entries@[w].0.id == patch.id);
                        }
                    }
                    assert(upost == upre.push(patch.id));
                    assert(fpost.last() == files@[i as int]);
                    assert(path_uuid_of(fpost.last().path@) == patch.id);
                    assert(fpost.drop_last() == fpre);
                }
                let ghost before = entries@;
                entries.push((patch, meta));
                proof {
                    assert forall|k2: int|
                        0 <= k2 < entries@.len() implies #[trigger] spec_entry_matches_at(
                        entries@,
                        k2,
                        meta_base@,
                        fpost,
                    ) by {
                        if k2 == before.len() {
                            assert(entries@[k2].0.id == patch.id);
                            assert(upost[k2] == patch.id);
                            assert(spec_last_with(fpost, patch.id) == i);
                            assert(spec_raw_meta_matches(
                                entries@[k2].1,
                                meta_base@,
                                files@[i as int].path@,
                                files@[i as int].content@,
                            ));
                        } else {
                            assert(before[k2] == entries@[k2]);
                            assert(spec_entry_matches_at(before, k2, meta_base@, fpre));
                            let id2 = upre[k2];
                            assert(before[k2].0.id == id2);
                            assert(id2 != patch.id) by {
                                if id2 == patch.id {
                                    assert(upre.contains(patch.id));
                                }
                            }
                            assert(upost[k2] == upre[k2]);
                            assert(spec_last_with(fpost, id2) == spec_last_with(fpre, id2));
                        }
                    }
                    assert(entries@.len() == upost.len());
                }
            },
        }
        i = i + 1;
    }
    proof {
        assert(files@.take(i as int) =~= files@);
    }
    Ok(RawMap { entries })
}

/// Does a file parse cleanly into a raw meta?
pub open spec fn spec_parse_raw_ok(meta_base: Seq<u8>, path: Seq<u8>, content: Seq<u8>) -> bool {
    &&& dec_val(spec_weight_digits(spec_rel_path(meta_base, path))) > 0
    &&& !spec_version_rejected(content)
}

/// The textual requirement injected for a parent package: the parent
/// file's path relative to the source base, with a leading slash.
pub open spec fn spec_parent_requirement(source_base: Seq<u8>, parent_file: Seq<u8>) -> Seq<u8> {
    seq![0x2fu8] + spec_relpath_to_base(source_base, parent_file)
}

/// The sibling `.sql` file of the patch's immediate parent folder.
pub open spec fn spec_parent_file(source: Seq<u8>) -> Seq<u8> {
    crate::pathutil::spec_parent_dir(source) + spec_sql_suffix()
}

/// The parent-package pass keeps every entry, in order, appending a
/// requirement on the sibling `<dir>.sql` patch where that patch is in
/// the map.
pub open spec fn spec_update_matches(r: RawMap, source_base: Seq<u8>, m: RawMap) -> bool {
    &&& r.entries@.len() == m.entries@.len()
    &&& forall|i: int|
        0 <= i < m.entries@.len() ==> {
            let before = (#[trigger] m.entries@[i]);
            let after = r.entries@[i];
            &&& after.0.id == before.0.id
            &&& after.0.source@ == before.0.source@
            &&& after.1.path@ == before.1.path@
            &&& after.1.weight.num@ == before.1.weight.num@
            &&& after.1.weight.den@ == before.1.weight.den@
            &&& {
                let pf = spec_parent_file(before.0.source@);
                if exists|j: int|
                    0 <= j < m.entries@.len() && (#[trigger] m.entries@[j]).0.id == path_uuid_of(
                        pf,
                    ) {
                    views_of(after.1.requirements@) == views_of(before.1.requirements@).push(
                        spec_parent_requirement(source_base, pf),
                    )
                } else {
                    views_of(after.1.requirements@) == views_of(before.1.requirements@)
                }
            }
        }
}

/// For each patch whose parent folder has a sibling `<dir>.sql` that
/// is itself a patch of this map, append a requirement on that patch,
/// written as a source-base-relative path with a leading slash. All
/// other raw data is kept unchanged, in order.
pub fn raw_map_update(source_base: &[u8], map: &RawMap) -> (r: RawMap)
    requires
        raw_map_wf(*map),
    ensures
        raw_map_wf(r),
        spec_update_matches(r, source_base@, *map),
{
    let n = map.entries.len();
    let mut out: Vec<(Patch, RawMeta)> = Vec::new();
    let mut i: usize = 0;
    while i < n
        invariant
            i <= n == map.entries@.len(),
            raw_map_wf(*map),
            out@.len() == i,
            forall|j: int|
                0 <= j < i ==> {
                    let before = (#[trigger] map.entries@[j]);
                    let after = out@[j];
                    &&& after.0.id == before.0.id
                    &&& after.0.source@ == before.0.source@
                    &&& after.1.path@ == before.1.path@
                    &&& after.1.weight.num@ == before.1.weight.num@
                    &&& after.1.weight.den@ == before.1.weight.den@
                    &&& {
                        let pf = spec_parent_file(before.0.source@);
                        if exists|l: int|
                            0 <= l < map.entries@.len() && (#[trigger] map.entries@[l]).0.id
                                == path_uuid_of(pf) {
                            views_of(after.1.requirements@) == views_of(
                                before.1.requirements@,
                            ).push(spec_parent_requirement(source_base@, pf))
                        } else {
                            views_of(after.1.requirements@) == views_of(before.1.requirements@)
                        }
                    }
                },
        decreases n - i,
    {
        let entry = &map.entries[i];
        let parent = crate::pathutil::parent_dir(entry.0.source.as_slice());
        let mut parent_file = parent;
        let sql: [u8; 4] = [0x2e, 0x73, 0x71, 0x6c];
        proof {
            assert(sql@ =~= spec_sql_suffix());
        }
        crate::docs::append_bytes(&mut parent_file, &sql);
        proof {
            assert(parent_file@ == spec_parent_file(map.entries@[i as int].0.source@));
        }
        let pf_id = path_uuid(parent_file.as_slice());
        let found = map.contains_id(pf_id);
        let mut reqs = crate::textutil::copy_lines(&entry.1.requirements);
        let ghost before_reqs = views_of(entry.1.requirements@);
        if found {
            let rel = relpath_to_base(source_base, parent_file.as_slice());
            let mut req: Vec<u8> = Vec::new();
            req.push(0x2f);
            crate::docs::append_bytes(&mut req, rel.as_slice());
            proof {
                assert(req@ =~= spec_parent_requirement(
                    source_base@,
                    spec_parent_file(map.entries@[i as int].0.source@),
                ));
            }
            reqs.push(req);
            proof {
                assert(views_of(reqs@) =~= before_reqs.push(
                    spec_parent_requirement(
                        source_base@,
                        spec_parent_file(map.entries@[i as int].0.source@),
                    ),
                ));
            }
        }
        let new_patch = Patch {
            id: entry.0.id,
            source: copy_range(entry.0.source.as_slice(), 0, entry.0.source.len()),
        };
        let new_meta = RawMeta {
            path: copy_range(entry.1.path.as_slice(), 0, entry.1.path.len()),
            requirements: reqs,
            weight: entry.1.weight.duplicate(),
        };
        proof {
            assert(new_patch.source@ =~= map.entries@[i as int].0.source@);
            assert(new_meta.path@ =~= map.entries@[i as int].1.path@);
            assert(new_meta.weight.num@ == map.entries@[i as int].1.weight.num@);
            assert(new_meta.weight.den@ == map.entries@[i as int].1.weight.den@);
        }
        out.push((new_patch, new_meta));
        i = i + 1;
    }
    proof {
        assert forall|a: int|
            0 <= a < out@.len() implies (#[trigger] out@[a]).0.id == path_uuid_of(
            out@[a].0.source@,
        ) && weight_wf(out@[a].1.weight) by {
            assert(out@[a].0.id == map.entries@[a].0.id);
            assert(out@[a].0.source@ == map.entries@[a].0.source@);
            assert(weight_wf(map.entries@[a].1.weight));
            assert(out@[a].1.weight.num@ == map.entries@[a].1.weight.num@);
            assert(out@[a].1.weight.den@ == map.entries@[a].1.weight.den@);
        }
        assert forall|a: int, b: int|
            0 <= a < b < out@.len() implies (#[trigger] out@[a]).0.id != (
        #[trigger] out@[b]).0.id by {
            assert(out@[a].0.id == map.entries@[a].0.id);
            assert(out@[b].0.id == map.entries@[b].0.id);
        }
    }
    RawMap { entries: out }
}

} // verus!