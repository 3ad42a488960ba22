use vstd::prelude::*;

use crate::docs::append_bytes;
use crate::error::Error;
use crate::textutil::bytes_eq;
use std::io::Write;

verus! {

/// The archive formats a snapshot can use.
#[derive(Copy, Clone, Debug, PartialEq, Eq, Structural)]
pub enum Format {
    TarGz,
}

/// The file ending of the tar-gzip format.
pub open spec fn spec_targz_tag() -> Seq<u8> {
    seq![0x2eu8, 0x74u8, 0x61u8, 0x72u8, 0x2eu8, 0x67u8, 0x7au8]
}

impl Format {
    /// The format's file ending, `.tar.gz`.
    pub fn as_str(&self) -> (r: Vec<u8>)
        ensures
            r@ == spec_targz_tag(),
    {
        let r: Vec<u8> = vec![0x2eu8, 0x74u8, 0x61u8, 0x72u8, 0x2eu8, 0x67u8, 0x7au8];
        proof {
            assert(r@ =~= spec_targz_tag());
        }
        r
    }

    /// The format a tag denotes; every other tag is rejected.
    pub fn from(value: &[u8]) -> (r: Result<Format, Error>)
        ensures
            match r {
                Ok(f) => value@ == spec_targz_tag() && f == Format::TarGz,
                Err(e) => value@ != spec_targz_tag() && e is Io,
            },
    {
        let tag = Format::TarGz.as_str();
        if bytes_eq(value, tag.as_slice()) {
            Ok(Format::TarGz)
        } else {
            let mut message: Vec<u8> = Vec::new();
            append_bytes(&mut message, value);
            Err(Error::Io { message })
        }
    }
}

/// One file of an archive: its path inside the archive and its bytes.
#[derive(Clone, Debug)]
pub struct ArchiveEntry {
    pub path: Vec<u8>,
    pub content: Vec<u8>,
}

/// An in-memory tar stream under construction. The builder of the tar
/// crate cannot be declared to the verifier (its type parameter is
/// bound by an outside trait), so it is held in an opaque struct.
#[verifier::external_body]
pub struct TarArchive {
    inner: tar::Builder<Vec<u8>>,
}

/// What a tar archive holds: the paths and contents appended so far,
/// in order.
pub uninterp spec fn tar_entries(b: TarArchive) -> Seq<(Seq<u8>, Seq<u8>)>;

/// The archive bytes the tar format assigns to a list of entries
/// appended with fixed metadata; a function of the entries alone.
pub uninterp spec fn tar_bytes_of(entries: Seq<(Seq<u8>, Seq<u8>)>) -> Seq<u8>;

/// Relies on tar::Builder::new: a fresh builder holds no entries.
#[verifier::external_body]
fn tar_new() -> (r: TarArchive)
    ensures
        tar_entries(r) == Seq::<(Seq<u8>, Seq<u8>)>::empty(),
{
    TarArchive { inner: tar::Builder::new(Vec::new()) }
}

/// A byte string that the tar format accepts as an entry name:
/// non-empty, relative, and free of parent-directory segments.
pub open spec fn spec_tar_path_ok(path: Seq<u8>) -> bool {
    &&& path.len() > 0
    &&& path[0] != 0x2fu8
    &&& forall|i: int|
        0 <= i < crate::pathutil::spec_segments(path).len()
            ==> #[trigger] crate::pathutil::spec_segments(path)[i] != seq![0x2eu8, 0x2eu8]
}

/// Relies on tar::Builder::append_data with a GNU header of fixed
/// mode, zero mtime and the given size: appends exactly this entry.
/// The header's path validation rejects absolute names and
/// parent-directory segments, so those are excluded here; long names
/// take the GNU long-name fallback. Writing into a memory buffer
/// cannot fail.
#[verifier::external_body]
fn tar_append(b: &mut TarArchive, path: &[u8], data: &[u8])
    requires
        spec_tar_path_ok(path@),
    ensures
        tar_entries(*final(b)) == tar_entries(*old(b)).push((path@, data@)),
{
    let mut header = tar::Header::new_gnu();
    header.set_size(data.len() as u64);
    header.set_mode(0o644);
    header.set_cksum();
    let name = String::from_utf8_lossy(path).into_owned();
    let _ = b.inner.append_data(&mut header, name, data);
}

/// Relies on tar::Builder::into_inner: finishing yields the archive
/// bytes, a function of the appended entries alone (the headers carry
/// no clock or environment data).
#[verifier::external_body]
fn tar_finish(b: TarArchive) -> (r: Vec<u8>)
    ensures
        r@ == tar_bytes_of(tar_entries(b)),
{
    b.inner.into_inner().unwrap_or_default()
}

/// Relies on libflate::gzip::Encoder: compresses the bytes into a gzip
/// stream. The gzip header records the wall clock, so the output is
/// not a function of the input; nothing more is claimed of it. Writing
/// into a memory buffer cannot fail.
#[verifier::external_body]
fn gzip_compress(data: &[u8]) -> (r: Vec<u8>)
{
    let mut enc = match libflate::gzip::Encoder::new(Vec::new()) {
        Ok(e) => e,
        Err(_) => {
            return Vec::new();
        },
    };
    let _ = enc.write_all(data);
    enc.finish().into_result().unwrap_or_default()
}

/// The archive entry names and contents of a snapshot: each file
/// under `root/<path>`.
pub open spec fn spec_snapshot_entries(root: Seq<u8>, entries: Seq<ArchiveEntry>) -> Seq<
    (Seq<u8>, Seq<u8>),
> {
    Seq::new(entries.len(), |i: int| (root + seq![0x2fu8] + entries[i].path@, entries[i].content@))
}

/// Is this entry acceptable to the archive under this root?
pub open spec fn spec_snapshot_entry_ok(root: Seq<u8>, rel: Seq<u8>) -> bool {
    spec_tar_path_ok(root + seq![0x2fu8] + rel)
}

/// Check an entry path before archiving: the combined name must be
/// non-empty, relative, and free of parent-directory segments.
pub fn snapshot_entry_ok(root: &[u8], rel: &[u8]) -> (r: bool)
    ensures
        r == spec_snapshot_entry_ok(root@, rel@),
{
    let mut full: Vec<u8> = Vec::new();
    append_bytes(&mut full, root);
    full.push(0x2f);
    append_bytes(&mut full, rel);
    proof {
        assert(full@ =~= root@ + seq![0x2fu8] + rel@);
    }
    if full.len() == 0 || full[0] == 0x2f {
        return false;
    }
    let segs = crate::pathutil::segments(full.as_slice());
    let ghost sv = crate::textutil::views_of(segs@);
    let ghost full_view = root@ + seq![0x2fu8] + rel@;
    proof {
        assert(sv == crate::pathutil::spec_segments(full_view));
    }
    let dotdot: [u8; 2] = [0x2e, 0x2e];
    proof {
        assert(dotdot@ =~= seq![0x2eu8, 0x2eu8]);
    }
    let mut i: usize = 0;
    while i < segs.len()
        invariant
            i <= segs@.len(),
            sv == crate::textutil::views_of(segs@),
            sv == crate::pathutil::spec_segments(full_view),
            full_view == root@ + seq![0x2fu8] + rel@,
            full_view.len() > 0 && full_view[0] != 0x2fu8,
            sv.len() == segs@.len(),
            dotdot@ == seq![0x2eu8, 0x2eu8],
            forall|j: int| 0 <= j < sv.len() ==> sv[j] == #[trigger] segs@[j]@,
            forall|j: int| 0 <= j < i ==> #[trigger] sv[j] != seq![0x2eu8, 0x2eu8],
        decreases segs@.len() - i,
    {
        let hit = bytes_eq(segs[i].as_slice(), &dotdot);
        proof {
            assert(sv[i as int] == segs@[i as int]@);
        }
        if hit {
            proof {
                assert(sv[i as int] == seq![0x2eu8, 0x2eu8]);
                assert(crate::pathutil::spec_segments(full_view)[i as int] == seq![
                    0x2eu8,
                    0x2eu8,
                ]);
                assert(!spec_tar_path_ok(full_view));
            }
            return false;
        }
        proof {
            assert(sv[i as int] != seq![0x2eu8, 0x2eu8]);
        }
        i = i + 1;
    }
    proof {
        assert(spec_tar_path_ok(full_view));
    }
    true
}

/// Build the tar archive for the given files, each under
/// `root/<path>`, with fixed header metadata: the bytes are a function
/// of the names and contents alone.
pub fn tar_archive_bytes(root: &[u8], entries: &Vec<ArchiveEntry>) -> (r: Vec<u8>)
    requires
        forall|i: int|
            0 <= i < entries@.len() ==> spec_snapshot_entry_ok(
                root@,
                (#[trigger] entries@[i]).path@,
            ),
    ensures
        r@ == tar_bytes_of(spec_snapshot_entries(root@, entries@)),
{
    let mut b = tar_new();
    let mut i: usize = 0;
    proof {
        assert(tar_entries(b) =~= spec_snapshot_entries(root@, entries@).take(0));
    }
    while i < entries.len()
        invariant
            i <= entries@.len(),
            forall|j: int|
                0 <= j < entries@.len() ==> spec_snapshot_entry_ok(
                    root@,
                    (#[trigger] entries@[j]).path@,
                ),
            tar_entries(b) == spec_snapshot_entries(root@, entries@).take(i as int),
        decreases entries@.len() - i,
    {
        let mut full: Vec<u8> = Vec::new();
        append_bytes(&mut full, root);
        full.push(0x2f);
        append_bytes(&mut full, entries[i].path.as_slice());
        proof {
            assert(full@ =~= root@ + seq![0x2fu8] + entries@[i as int].path@);
        }
        tar_append(&mut b, full.as_slice(), entries[i].content.as_slice());
        proof {
            assert(tar_entries(b) =~= spec_snapshot_entries(root@, entries@).take(i + 1));
        }
        i = i + 1;
    }
    proof {
        assert(spec_snapshot_entries(root@, entries@).take(i as int) =~= spec_snapshot_entries(
            root@,
            entries@,
        ));
    }
    tar_finish(b)
}

/// A migration folder archived: the format and the archive bytes.
#[derive(Clone, Debug)]
pub struct Snapshot {
    pub format: Format,
    pub data: Vec<u8>,
}

impl Snapshot {
    /// Archive the given files, each under `root/<path>`, as a gzipped
    /// tar stream. The caller supplies the folder's files; `root` is
    /// the archive root entry name. The tar bytes handed to gzip are
    /// exactly `tar_bytes_of` the entry list; of the gzip stream
    /// itself nothing further holds, as its header records the clock.
    pub fn take(format: Format, root: &[u8], entries: &Vec<ArchiveEntry>) -> (r: Snapshot)
        requires
            forall|i: int|
                0 <= i < entries@.len() ==> spec_snapshot_entry_ok(
                    root@,
                    (#[trigger] entries@[i]).path@,
                ),
        ensures
            r.format == format,
    {
        let tar_bytes = tar_archive_bytes(root, entries);
        let data = gzip_compress(tar_bytes.as_slice());
        Snapshot { format, data }
    }
}

} // verus!
