//! Trusted boundary to the container codec (the `zip` crate).
//!
//! An archive is held as a plain byte vector.  What the codec reads out of
//! such bytes is named by two uninterpreted functions, `zip_parse_ok` and
//! `zip_entries`; what an open writer holds is named by `writer_entries`.
//! Every wrapper below states its effect over those names, and the engine
//! is verified against these contracts alone.

use vstd::prelude::*;

use crate::errors::ArchiveError;

verus! {

/// An open sequential writer of the codec, building an archive in an
/// in-memory buffer.  The `zip` writer type carries trait bounds that the
/// verifier refuses to declare, so it is held opaquely in a private field;
/// what it has accumulated is named by `writer_entries`.
#[verifier::external_body]
pub struct ArchiveWriter {
    inner: zip::write::ZipWriter<std::io::Cursor<Vec<u8>>>,
}

/// Whether the codec accepts these bytes as a well-formed container.
/// This is a function of the bytes alone.
pub uninterp spec fn zip_parse_ok(b: Seq<u8>) -> bool;

/// The entries the codec reads out of a well-formed container, in index
/// order.  Each entry is `(name, is_dir, meta_ok, size, compressed_size,
/// data)`: `meta_ok` says whether the entry's headers can be opened at
/// all, and `data` is `Some(content)` exactly when a full streaming read
/// of the entry succeeds, which includes the codec's checksum comparison.
/// This too is a function of the bytes alone.
pub uninterp spec fn zip_entries(b: Seq<u8>) -> Seq<(Seq<char>, bool, bool, nat, nat, Option<
    Seq<u8>,
>)>;

/// The entries an open writer has accumulated so far, in the order they
/// were added.  Each is `(name, is_dir, data, stored)`, where `stored`
/// means the non-compressing method was requested for it.
pub uninterp spec fn writer_entries(w: ArchiveWriter) -> Seq<(Seq<char>, bool, Seq<u8>, bool)>;

pub open spec fn entry_count(b: Seq<u8>) -> nat {
    zip_entries(b).len()
}

pub open spec fn entry_name(b: Seq<u8>, i: int) -> Seq<char> {
    zip_entries(b)[i].0
}

pub open spec fn entry_is_dir(b: Seq<u8>, i: int) -> bool {
    zip_entries(b)[i].1
}

pub open spec fn entry_meta_ok(b: Seq<u8>, i: int) -> bool {
    zip_entries(b)[i].2
}

pub open spec fn entry_size(b: Seq<u8>, i: int) -> nat {
    zip_entries(b)[i].3
}

pub open spec fn entry_csize(b: Seq<u8>, i: int) -> nat {
    zip_entries(b)[i].4
}

pub open spec fn entry_data(b: Seq<u8>, i: int) -> Option<Seq<u8>> {
    zip_entries(b)[i].5
}

/// How the entries of a finished writer are read back out of the bytes it
/// produced: same order, same names, same contents, every entry readable.
/// An entry written with the non-compressing method occupies exactly its
/// own size.
pub open spec fn finished_archive_matches(
    es: Seq<(Seq<char>, bool, Seq<u8>, bool)>,
    b: Seq<u8>,
) -> bool {
    &&& zip_parse_ok(b)
    &&& entry_count(b) == es.len()
    &&& forall|i: int|
        0 <= i < es.len() ==> {
            &&& entry_name(b, i) == es[i].0
            &&& entry_is_dir(b, i) == es[i].1
            &&& entry_meta_ok(b, i)
            &&& entry_size(b, i) == es[i].2.len()
            &&& entry_data(b, i) == Some(es[i].2)
            &&& (es[i].3 ==> entry_csize(b, i) == es[i].2.len())
        }
}

/// The two ways an entry's bytes can be laid down in the container.
#[derive(Debug, Clone, Copy, PartialEq, Eq, Structural)]
pub enum StorageMethod {
    /// Bytes kept as they are.
    Stored,
    /// Bytes run through the codec's compressor.
    Deflated,
}

/// A compression level the codec's encoders accept for the compressing
/// method: its default when absent, otherwise 1 to 9 for the standard
/// encoder and 10 to 264 for the exhaustive one.
pub open spec fn deflate_level_ok(level: Option<i64>) -> bool {
    level is None || (1 <= level->0 <= 264)
}

/// An entry size the codec records in a plain field without the
/// large-file option; the slack below the 4 GiB field limit covers the
/// compressed stream's bounded framing overhead.
pub open spec fn entry_size_ok(len: nat) -> bool {
    len <= 4000000000
}

/// An entry name the codec can record: its length in UTF-8 bytes must
/// fit the container's two-byte name-length field.
pub open spec fn entry_name_bytes_ok(name: Seq<char>) -> bool {
    vstd::utf8::encode_utf8(name).len() <= 65535
}

/// Every entry the writer holds fits the codec's plain size field, so
/// none of their deferred header writes can overflow it.
pub open spec fn held_entries_size_ok(es: Seq<(Seq<char>, bool, Seq<u8>, bool)>) -> bool {
    forall|k: int| 0 <= k < es.len() ==> entry_size_ok((#[trigger] es[k]).2.len())
}

/// The header fields of one entry, as the codec reports them.
pub struct EntryMeta {
    pub name: String,
    pub is_dir: bool,
    pub size: u64,
    pub compressed_size: u64,
}

/// Relies on `zip::ZipWriter::new`: a writer over an empty in-memory
/// buffer holds no entries.
#[verifier::external_body]
pub(crate) fn writer_new() -> (w: ArchiveWriter)
    ensures
        writer_entries(w) == Seq::<(Seq<char>, bool, Seq<u8>, bool)>::empty(),
{
    ArchiveWriter { inner: zip::write::ZipWriter::new(std::io::Cursor::new(Vec::new())) }
}

/// Relies on `zip::ZipWriter::start_file` and `std::io::Write::write_all`:
/// on success one file entry is appended, under exactly the given name,
/// holding exactly the given bytes, with the requested method and level.
/// The call succeeds whenever the name is new to the writer and fits the
/// two-byte name-length field, the level is one the encoder accepts, the
/// entry fits a plain size field, and so does everything already held
/// (an oversized earlier entry fails here, when its header is finished):
/// the in-memory buffer itself cannot fail.  A name ending in a
/// separator would be read back as a directory, so such names are left
/// to `writer_add_directory`.
#[verifier::external_body]
pub(crate) fn writer_add_file(
    w: &mut ArchiveWriter,
    name: &String,
    data: &Vec<u8>,
    method: StorageMethod,
    level: Option<i64>,
) -> (r: Result<(), ArchiveError>)
    requires
        name@.len() > 0 ==> (name@.last() != '/' && name@.last() != '\\'),
    ensures
        r is Ok ==> writer_entries(*final(w)) == writer_entries(*old(w)).push(
            (name@, false, data@, method is Stored),
        ),
        r is Err ==> r->Err_0 == ArchiveError::CodecError,
        (forall|k: int|
            0 <= k < writer_entries(*old(w)).len() ==> (#[trigger] writer_entries(*old(w))[k]).0
                != name@) && held_entries_size_ok(writer_entries(*old(w)))
            && entry_name_bytes_ok(name@) && (method is Deflated ==> deflate_level_ok(level)) && (
        method is Stored ==> level is None) && entry_size_ok(data@.len()) ==> r is Ok,
{
    let m = match method {
        StorageMethod::Stored => zip::CompressionMethod::Stored,
        StorageMethod::Deflated => zip::CompressionMethod::Deflated,
    };
    let opts = zip::write::SimpleFileOptions::default().compression_method(m).compression_level(
        level,
    );
    w.inner.start_file(name.as_str(), opts).map_err(|_| ArchiveError::CodecError)?;
    std::io::Write::write_all(&mut w.inner, data.as_slice()).map_err(|_| ArchiveError::CodecError)?;
    Ok(())
}

/// Relies on `zip::ZipWriter::add_directory`: on success one directory
/// entry is appended under exactly the given name; a name new to the
/// writer succeeds when it fits the two-byte name-length field and
/// everything already held fits its plain size field.  The codec stores
/// the name as given when it already ends in `/`, so that is required
/// here.
#[verifier::external_body]
pub(crate) fn writer_add_directory(
    w: &mut ArchiveWriter,
    name: &String,
) -> (r: Result<(), ArchiveError>)
    requires
        name@.len() > 0,
        name@.last() == '/',
    ensures
        r is Ok ==> writer_entries(*final(w)) == writer_entries(*old(w)).push(
            (name@, true, Seq::<u8>::empty(), true),
        ),
        r is Err ==> r->Err_0 == ArchiveError::CodecError,
        (forall|k: int|
            0 <= k < writer_entries(*old(w)).len() ==> (#[trigger] writer_entries(*old(w))[k]).0
                != name@) && held_entries_size_ok(writer_entries(*old(w)))
            && entry_name_bytes_ok(name@) ==> r is Ok,
{
    let opts = zip::write::SimpleFileOptions::default();
    w.inner.add_directory(name.as_str(), opts).map_err(|_| ArchiveError::CodecError)?;
    Ok(())
}

/// Relies on `zip::ZipWriter::finish`: the bytes it produces read back as
/// exactly the entries that were written, in order, each with its content
/// intact.  Closing succeeds whenever every held entry fits the plain
/// size field — the last entry's header is finished here, and a
/// compressed stream past that field is the one failure an in-memory
/// close can hit; counts and offsets that outgrow their fields switch to
/// the wide container form automatically.
#[verifier::external_body]
pub(crate) fn writer_finish(w: ArchiveWriter) -> (r: Result<Vec<u8>, ArchiveError>)
    ensures
        held_entries_size_ok(writer_entries(w)) ==> r is Ok,
        r is Ok ==> finished_archive_matches(writer_entries(w), r->Ok_0@),
        r is Err ==> r->Err_0 == ArchiveError::CodecError,
{
    match w.inner.finish() {
        Ok(cursor) => Ok(cursor.into_inner()),
        Err(_) => Err(ArchiveError::CodecError),
    }
}

/// Relies on `zip::ZipArchive::new` and `zip::ZipArchive::len`: parsing an
/// in-memory container succeeds exactly when the bytes are well formed,
/// and then reports how many entries it holds.
#[verifier::external_body]
pub(crate) fn zip_count(bytes: &Vec<u8>) -> (r: Result<usize, ArchiveError>)
    ensures
        r is Ok <==> zip_parse_ok(bytes@),
        r is Ok ==> r->Ok_0 as nat == zip_entries(bytes@).len(),
        r is Err ==> r->Err_0 == ArchiveError::CodecError,
{
    match zip::read::ZipArchive::new(std::io::Cursor::new(bytes.as_slice())) {
        Ok(archive) => Ok(archive.len()),
        Err(_) => Err(ArchiveError::CodecError),
    }
}

/// Relies on `zip::ZipArchive::by_index` and the header accessors `name`,
/// `is_dir`, `size` and `compressed_size`: opening entry `i` succeeds
/// exactly when its headers are readable, and then reports its fields.
#[verifier::external_body]
pub(crate) fn zip_entry_meta(bytes: &Vec<u8>, i: usize) -> (r: Result<EntryMeta, ArchiveError>)
    requires
        zip_parse_ok(bytes@),
        i < entry_count(bytes@),
    ensures
        r is Ok <==> entry_meta_ok(bytes@, i as int),
        r is Ok ==> {
            &&& r->Ok_0.name@ == entry_name(bytes@, i as int)
            &&& r->Ok_0.is_dir == entry_is_dir(bytes@, i as int)
            &&& r->Ok_0.size as nat == entry_size(bytes@, i as int)
            &&& r->Ok_0.compressed_size as nat == entry_csize(bytes@, i as int)
        },
        r is Err ==> r->Err_0 == ArchiveError::CodecError,
{
    let mut archive = zip::read::ZipArchive::new(std::io::Cursor::new(bytes.as_slice())).map_err(
        |_| ArchiveError::CodecError,
    )?;
    let meta = match archive.by_index(i) {
        Ok(entry) => Ok(
            EntryMeta {
                name: entry.name().to_owned(),
                is_dir: entry.is_dir(),
                size: entry.size(),
                compressed_size: entry.compressed_size(),
            },
        ),
        Err(_) => Err(ArchiveError::CodecError),
    };
    meta
}

/// Relies on `zip::ZipArchive::by_index` and `std::io::Read::read_to_end`:
/// a full read of entry `i` succeeds exactly when its content passes the
/// codec's integrity check, and then yields that content.
#[verifier::external_body]
pub(crate) fn zip_read_entry(bytes: &Vec<u8>, i: usize) -> (r: Result<Vec<u8>, ArchiveError>)
    requires
        zip_parse_ok(bytes@),
        i < entry_count(bytes@),
        entry_meta_ok(bytes@, i as int),
    ensures
        r is Ok <==> entry_data(bytes@, i as int) is Some,
        r is Ok ==> Some(r->Ok_0@) == entry_data(bytes@, i as int),
        r is Err ==> r->Err_0 == ArchiveError::CodecError,
{
    let mut archive = zip::read::ZipArchive::new(std::io::Cursor::new(bytes.as_slice())).map_err(
        |_| ArchiveError::CodecError,
    )?;
    let mut entry = archive.by_index(i).map_err(|_| ArchiveError::CodecError)?;
    let mut out = Vec::new();
    std::io::Read::read_to_end(&mut entry, &mut out).map_err(|_| ArchiveError::CodecError)?;
    Ok(out)
}

} // verus!
