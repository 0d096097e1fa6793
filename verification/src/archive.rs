//! The archive engine: create, extract, list, validate, stats and hash
//! over in-memory archives.

use vstd::prelude::*;

use crate::codec;
use crate::codec::{entry_count, entry_csize, entry_data, entry_is_dir, entry_meta_ok, entry_name,
    entry_size, finished_archive_matches, zip_parse_ok, StorageMethod};
use crate::digest;
use crate::entropy;
use crate::errors::ArchiveError;
use crate::path_safety;
use crate::path_safety::{join_components, sanitize_spec};
use vstd::string::StrSliceExecFns;
use vstd::string::StringExecFns;
use vstd::utf8::{encode_scalar, encode_utf8};

verus! {

/// Receives `(current, total)` and the operation's label after each
/// unit of work; the fraction follows from the pair.
pub trait ProgressSink {
    fn report(&mut self, current: u64, total: u64, label: &str);
}

/// A sink that ignores every report, for callers without a use for
/// progress.
pub struct SilentSink;

impl ProgressSink for SilentSink {
    fn report(&mut self, _current: u64, _total: u64, _label: &str) {
    }
}

/// Engine configuration, immutable per engine instance.  The entropy
/// threshold is in tenths of a bit per byte, so the default of 78 stands
/// for 7.8 bits of entropy per byte.
#[derive(Debug, Clone, Copy, PartialEq, Eq, Structural)]
pub struct ArchiveOptions {
    /// Level handed to the compressor; `None` means its default.
    pub compression_level: Option<i64>,
    /// Whether dense files are stored without compression.
    pub auto_store: bool,
    /// Entropy at or above which a file counts as incompressible, in
    /// tenths of a bit per byte.
    pub store_entropy_threshold: u64,
    /// Buffer size for streaming reads at the boundary, in bytes.
    pub io_buffer_size: usize,
}

pub open spec fn default_options() -> ArchiveOptions {
    ArchiveOptions {
        compression_level: None,
        auto_store: true,
        store_entropy_threshold: 78,
        io_buffer_size: 262144,
    }
}

impl Default for ArchiveOptions {
    fn default() -> (r: Self)
        ensures
            r == default_options(),
    {
        ArchiveOptions {
            compression_level: None,
            auto_store: true,
            store_entropy_threshold: 78,
            io_buffer_size: 262144,
        }
    }
}

/// Aggregate figures over one archive.  The compression ratio is a whole
/// percentage, 0 when the uncompressed total is 0.
#[derive(Debug, Clone, Copy, PartialEq, Eq, Structural)]
pub struct ArchiveStats {
    pub file_count: usize,
    pub dir_count: usize,
    pub total_uncompressed_size: u64,
    pub total_compressed_size: u64,
    pub compression_ratio: u64,
}

/// The archive engine.
pub struct ArchiveManager {
    pub options: ArchiveOptions,
}

impl Default for ArchiveManager {
    fn default() -> (r: Self)
        ensures
            r.options == default_options(),
    {
        ArchiveManager { options: ArchiveOptions::default() }
    }
}

/// Every entry between 0 and `n` has readable headers.
pub open spec fn metas_ok_upto(b: Seq<u8>, n: int) -> bool {
    forall|i: int| 0 <= i < n ==> entry_meta_ok(b, i)
}

/// The container parses and every entry's headers are readable: what
/// `list` and `stats` need of the bytes to succeed.
pub open spec fn listing_ok(b: Seq<u8>) -> bool {
    zip_parse_ok(b) && metas_ok_upto(b, entry_count(b) as int)
}

/// `names` are exactly the entry names of the container, in order.
pub open spec fn listing_matches(b: Seq<u8>, names: Seq<Seq<char>>) -> bool {
    &&& names.len() == entry_count(b)
    &&& forall|i: int| 0 <= i < names.len() ==> names[i] == entry_name(b, i)
}

/// Every entry between 0 and `n` can be read in full, passing the codec's
/// integrity check.
pub open spec fn entries_readable_upto(b: Seq<u8>, n: int) -> bool {
    forall|i: int| 0 <= i < n ==> entry_meta_ok(b, i) && entry_data(b, i) is Some
}

/// The container parses and every entry streams out without an integrity
/// failure: what `validate` certifies.
pub open spec fn archive_fully_readable(b: Seq<u8>) -> bool {
    zip_parse_ok(b) && entries_readable_upto(b, entry_count(b) as int)
}

/// A sum clamped to what a 64-bit counter can hold.
pub open spec fn sat64(x: nat) -> nat {
    if x > u64::MAX { u64::MAX as nat } else { x }
}

/// How many of the first `n` entries are files.
pub open spec fn file_count_upto(b: Seq<u8>, n: int) -> nat
    decreases n,
{
    if n <= 0 {
        0
    } else {
        file_count_upto(b, n - 1) + if entry_is_dir(b, n - 1) { 0 as nat } else { 1 as nat }
    }
}

/// How many of the first `n` entries are directories.
pub open spec fn dir_count_upto(b: Seq<u8>, n: int) -> nat
    decreases n,
{
    if n <= 0 {
        0
    } else {
        dir_count_upto(b, n - 1) + if entry_is_dir(b, n - 1) { 1 as nat } else { 0 as nat }
    }
}

/// Total uncompressed size of the files among the first `n` entries.
pub open spec fn unc_total_upto(b: Seq<u8>, n: int) -> nat
    decreases n,
{
    if n <= 0 {
        0
    } else {
        unc_total_upto(b, n - 1) + if entry_is_dir(b, n - 1) {
            0 as nat
        } else {
            entry_size(b, n - 1)
        }
    }
}

/// Total compressed size of the files among the first `n` entries.
pub open spec fn comp_total_upto(b: Seq<u8>, n: int) -> nat
    decreases n,
{
    if n <= 0 {
        0
    } else {
        comp_total_upto(b, n - 1) + if entry_is_dir(b, n - 1) {
            0 as nat
        } else {
            entry_csize(b, n - 1)
        }
    }
}

/// Compressed size as a whole percentage of the uncompressed size, 0 when
/// nothing is uncompressed.
pub open spec fn ratio_percent(unc: nat, comp: nat) -> nat {
    if unc == 0 {
        0
    } else {
        sat64(comp * 100 / unc)
    }
}

/// The figures `stats` owes for these bytes: exact counts, totals clamped
/// to 64 bits, and the ratio computed from the clamped totals.
pub open spec fn stats_matches(b: Seq<u8>, s: ArchiveStats) -> bool {
    let n = entry_count(b) as int;
    &&& s.file_count as nat == file_count_upto(b, n)
    &&& s.dir_count as nat == dir_count_upto(b, n)
    &&& s.total_uncompressed_size as nat == sat64(unc_total_upto(b, n))
    &&& s.total_compressed_size as nat == sat64(comp_total_upto(b, n))
    &&& s.compression_ratio as nat == ratio_percent(
        sat64(unc_total_upto(b, n)),
        sat64(comp_total_upto(b, n)),
    )
}

/// Addition on 64-bit counters that clamps instead of overflowing.
fn sat_add_u64(a: u64, b: u64) -> (r: u64)
    ensures
        r as nat == sat64(a as nat + b as nat),
{
    if a > u64::MAX - b {
        u64::MAX
    } else {
        a + b
    }
}

impl ArchiveManager {
    /// An engine with the default options.
    pub fn new() -> (r: Self)
        ensures
            r.options == default_options(),
    {
        ArchiveManager { options: ArchiveOptions::default() }
    }

    /// An engine with the given options.
    pub fn with_options(options: ArchiveOptions) -> (r: Self)
        ensures
            r.options == options,
    {
        ArchiveManager { options }
    }

    /// Calculate the SHA-256 hash of a file's content, as 64 lowercase
    /// hexadecimal characters.
    pub fn calculate_file_hash(&self, data: &Vec<u8>) -> (r: String)
        ensures
            r@ == digest::sha256_hex_of(data@),
            r@.len() == 64,
            forall|i: int| 0 <= i < r@.len() ==> digest::is_lower_hex_digit(#[trigger] r@[i]),
    {
        digest::sha256_hex(data)
    }

    /// List the entry names of an archive, in order; no side effects.
    pub fn list_archive(&self, archive: &Vec<u8>) -> (r: Result<Vec<String>, ArchiveError>)
        ensures
            r is Ok <==> listing_ok(archive@),
            r is Ok ==> listing_matches(archive@, r->Ok_0.deep_view()),
            r is Err ==> r->Err_0 == ArchiveError::CodecError,
    {
        let n = codec::zip_count(archive)?;
        let mut names: Vec<String> = Vec::new();
        let mut i: usize = 0;
        while i < n
            invariant
                zip_parse_ok(archive@),
                n == entry_count(archive@),
                i <= n,
                metas_ok_upto(archive@, i as int),
                names.deep_view().len() == i,
                forall|j: int|
                    0 <= j < i ==> names.deep_view()[j] == entry_name(archive@, j),
            decreases n - i,
        {
            let meta = codec::zip_entry_meta(archive, i)?;
            names.push(meta.name);
            i += 1;
        }
        Ok(names)
    }

    /// Force a full streaming read of every entry, so that the codec's
    /// integrity check fires; success means every entry was read without
    /// error.
    pub fn validate_archive<S: ProgressSink>(&self, archive: &Vec<u8>, sink: &mut S) -> (r: Result<
        bool,
        ArchiveError,
    >)
        ensures
            r is Ok <==> archive_fully_readable(archive@),
            r is Ok ==> r->Ok_0 == true,
            r is Err ==> r->Err_0 == ArchiveError::CodecError,
    {
        let n = codec::zip_count(archive)?;
        let mut i: usize = 0;
        while i < n
            invariant
                zip_parse_ok(archive@),
                n == entry_count(archive@),
                i <= n,
                entries_readable_upto(archive@, i as int),
            decreases n - i,
        {
            let _meta = codec::zip_entry_meta(archive, i)?;
            let _data = codec::zip_read_entry(archive, i)?;
            proof {
                assert(entry_meta_ok(archive@, i as int) && entry_data(archive@, i as int)
                    is Some);
                assert forall|j: int| 0 <= j < i + 1 implies entry_meta_ok(archive@, j)
                    && entry_data(archive@, j) is Some by {
                    if j < i as int {
                        assert(entry_meta_ok(archive@, j) && entry_data(archive@, j) is Some);
                    }
                }
            }
            sink.report((i + 1) as u64, n as u64, "validate");
            i += 1;
        }
        Ok(true)
    }

    /// Aggregate counts, totals and the compression ratio of an archive.
    pub fn get_archive_stats(&self, archive: &Vec<u8>) -> (r: Result<ArchiveStats, ArchiveError>)
        ensures
            r is Ok <==> listing_ok(archive@),
            r is Ok ==> stats_matches(archive@, r->Ok_0),
            r is Err ==> r->Err_0 == ArchiveError::CodecError,
    {
        let n = codec::zip_count(archive)?;
        let mut file_count: usize = 0;
        let mut dir_count: usize = 0;
        let mut unc_total: u64 = 0;
        let mut comp_total: u64 = 0;
        let mut i: usize = 0;
        while i < n
            invariant
                zip_parse_ok(archive@),
                n == entry_count(archive@),
                i <= n,
                metas_ok_upto(archive@, i as int),
                file_count as nat == file_count_upto(archive@, i as int),
                dir_count as nat == dir_count_upto(archive@, i as int),
                file_count + dir_count == i,
                unc_total as nat == sat64(unc_total_upto(archive@, i as int)),
                comp_total as nat == sat64(comp_total_upto(archive@, i as int)),
            decreases n - i,
        {
            let meta = codec::zip_entry_meta(archive, i)?;
            if meta.is_dir {
                dir_count += 1;
            } else {
                file_count += 1;
                unc_total = sat_add_u64(unc_total, meta.size);
                comp_total = sat_add_u64(comp_total, meta.compressed_size);
            }
            i += 1;
        }
        let ratio: u64 = if unc_total > 0 {
            let wide: u128 = (comp_total as u128) * 100 / (unc_total as u128);
            if wide > u64::MAX as u128 {
                u64::MAX
            } else {
                wide as u64
            }
        } else {
            0
        };
        Ok(
            ArchiveStats {
                file_count,
                dir_count,
                total_uncompressed_size: unc_total,
                total_compressed_size: comp_total,
                compression_ratio: ratio,
            },
        )
    }
}

/// One record of a walked input directory, as the boundary hands it in:
/// a `/`-separated path relative to the directory, and what stands
/// there.
#[derive(Debug, Clone)]
pub struct WalkedEntry {
    pub relative: String,
    pub kind: WalkedKind,
}

#[derive(Debug, Clone)]
pub enum WalkedKind {
    /// A regular file with its content.
    File(Vec<u8>),
    /// A subdirectory.
    Dir,
}

/// One top-level input to `create`: its archive-facing name (the final
/// path component) and what the boundary found there.
#[derive(Debug, Clone)]
pub struct InputItem {
    pub name: String,
    pub kind: InputKind,
}

#[derive(Debug, Clone)]
pub enum InputKind {
    /// Nothing exists at the input path.
    Missing,
    /// A regular file with its content.
    File(Vec<u8>),
    /// A directory, already walked; the directory's own name roots all
    /// of its entries.
    Dir(Vec<WalkedEntry>),
}

/// The storage policy: a file goes uncompressed when `auto_store` is on
/// and its sampled entropy reaches the threshold.
pub open spec fn should_store(data: Seq<u8>, opts: ArchiveOptions) -> bool {
    opts.auto_store && entropy::entropy_exceeds(data, opts.store_entropy_threshold as nat)
}

/// The archive entry one walked record becomes: files keep the
/// directory's name as their root, subdirectories get a trailing slash.
pub open spec fn planned_for_walked(dir: Seq<char>, e: WalkedEntry, opts: ArchiveOptions) -> (
    Seq<char>,
    bool,
    Seq<u8>,
    bool,
) {
    match e.kind {
        WalkedKind::File(data) => (
            dir + seq!['/'] + e.relative@,
            false,
            data@,
            should_store(data@, opts),
        ),
        WalkedKind::Dir => (dir + seq!['/'] + e.relative@ + seq!['/'], true, Seq::<u8>::empty(), true),
    }
}

/// The archive entries one input becomes, in order.
pub open spec fn planned_for_item(item: InputItem, opts: ArchiveOptions) -> Seq<(
    Seq<char>,
    bool,
    Seq<u8>,
    bool,
)> {
    match item.kind {
        InputKind::Missing => Seq::empty(),
        InputKind::File(data) => seq![
            (item.name@, false, data@, should_store(data@, opts)),
        ],
        InputKind::Dir(entries) => Seq::new(
            entries@.len(),
            |j: int| planned_for_walked(item.name@, entries@[j], opts),
        ),
    }
}

/// All archive entries `create` owes for these inputs, in input order.
pub open spec fn planned_entries(inputs: Seq<InputItem>, opts: ArchiveOptions) -> Seq<(
    Seq<char>,
    bool,
    Seq<u8>,
    bool,
)>
    decreases inputs.len(),
{
    if inputs.len() == 0 {
        Seq::empty()
    } else {
        planned_entries(inputs.drop_last(), opts) + planned_for_item(inputs.last(), opts)
    }
}

pub open spec fn has_missing_input(inputs: Seq<InputItem>) -> bool {
    exists|i: int| 0 <= i < inputs.len() && inputs[i].kind is Missing
}

/// A usable archive-facing name: non-empty and not ending in a
/// separator, so that the codec records it with the intended kind.
pub open spec fn name_ok(s: Seq<char>) -> bool {
    s.len() > 0 && !path_safety::is_sep(s.last())
}

/// The directory's name and one of its records compose into an entry
/// name that fits the codec's two-byte name-length field: the name, a
/// separator, the relative path, and room for a trailing separator on
/// subdirectories.
pub open spec fn composed_name_fits(dir: Seq<char>, rel: Seq<char>) -> bool {
    encode_utf8(dir).len() + 2 + encode_utf8(rel).len() <= 65535
}

pub open spec fn item_well_formed(item: InputItem) -> bool {
    match item.kind {
        InputKind::Missing => true,
        InputKind::File(_) => name_ok(item.name@) && codec::entry_name_bytes_ok(item.name@),
        InputKind::Dir(entries) => name_ok(item.name@) && forall|j: int|
            0 <= j < entries@.len() ==> (name_ok(#[trigger] entries@[j].relative@)
                && composed_name_fits(item.name@, entries@[j].relative@)),
    }
}

/// UTF-8 encoding distributes over concatenation, so a composed entry
/// name's byte length is the sum of its parts'.
proof fn lemma_encode_utf8_concat(a: Seq<char>, b: Seq<char>)
    ensures
        encode_utf8(a + b) == encode_utf8(a) + encode_utf8(b),
    decreases a.len(),
{
    if a.len() == 0 {
        assert(a + b =~= b);
        assert(encode_utf8(a) + encode_utf8(b) =~= encode_utf8(b));
    } else {
        let ab = a + b;
        assert(ab[0] == a[0]);
        assert(ab.drop_first() =~= a.drop_first() + b);
        lemma_encode_utf8_concat(a.drop_first(), b);
        assert(encode_scalar(a[0] as u32) + (encode_utf8(a.drop_first()) + encode_utf8(b)) =~= (
        encode_scalar(a[0] as u32) + encode_utf8(a.drop_first())) + encode_utf8(b));
        assert(encode_utf8(a + b) =~= encode_utf8(a) + encode_utf8(b));
    }
}

/// A separator occupies one UTF-8 byte.
proof fn lemma_encode_utf8_slash()
    ensures
        encode_utf8(seq!['/']).len() == 1,
{
    let s = seq!['/'];
    assert(s.drop_first() =~= Seq::<char>::empty());
    assert(('/' as u32) <= 0x7F);
    assert(encode_utf8(s) == encode_scalar('/' as u32) + encode_utf8(s.drop_first()));
}

pub open spec fn inputs_well_formed(inputs: Seq<InputItem>) -> bool {
    forall|i: int| 0 <= i < inputs.len() ==> item_well_formed(#[trigger] inputs[i])
}

proof fn lemma_no_missing(inputs: Seq<InputItem>)
    requires
        forall|i: int| 0 <= i < inputs.len() ==> !((#[trigger] inputs[i].kind) is Missing),
    ensures
        !has_missing_input(inputs),
{
}

/// No two planned entries share a name.
pub open spec fn planned_names_distinct(es: Seq<(Seq<char>, bool, Seq<u8>, bool)>) -> bool {
    forall|i: int, j: int| 0 <= i < j < es.len() ==> (#[trigger] es[i]).0 != (#[trigger] es[j]).0
}

/// Every planned entry fits the codec's plain size field.
pub open spec fn planned_sizes_ok(es: Seq<(Seq<char>, bool, Seq<u8>, bool)>) -> bool {
    forall|i: int| 0 <= i < es.len() ==> codec::entry_size_ok((#[trigger] es[i]).2.len())
}

/// The inputs on which `create` owes success: everything exists and is
/// well formed, no two planned entries collide on a name, every entry
/// fits the codec's plain size field, and the configured compression
/// level is one the codec accepts.
pub open spec fn creation_ok(inputs: Seq<InputItem>, opts: ArchiveOptions) -> bool {
    &&& !has_missing_input(inputs)
    &&& inputs_well_formed(inputs)
    &&& planned_names_distinct(planned_entries(inputs, opts))
    &&& planned_sizes_ok(planned_entries(inputs, opts))
    &&& codec::deflate_level_ok(opts.compression_level)
}

/// The entries planned for a prefix of the inputs open the entries
/// planned for all of them.
proof fn lemma_planned_prefix(inputs: Seq<InputItem>, opts: ArchiveOptions, i: int)
    requires
        0 <= i <= inputs.len(),
    ensures
        planned_entries(inputs.take(i), opts).len() <= planned_entries(inputs, opts).len(),
        forall|k: int|
            0 <= k < planned_entries(inputs.take(i), opts).len()
                ==> #[trigger] planned_entries(inputs, opts)[k] == planned_entries(
                inputs.take(i),
                opts,
            )[k],
    decreases inputs.len() - i,
{
    if i == inputs.len() {
        assert(inputs.take(i) =~= inputs);
    } else {
        lemma_planned_prefix(inputs, opts, i + 1);
        assert(inputs.take(i + 1).drop_last() =~= inputs.take(i));
        assert(inputs.take(i + 1).last() == inputs[i]);
        assert(planned_entries(inputs.take(i + 1), opts) == planned_entries(inputs.take(i), opts)
            + planned_for_item(inputs[i], opts));
    }
}

/// What the writer's success conditions need of the next planned entry:
/// under `creation_ok`, its name differs from everything already written
/// and its content fits the plain size field.  `prefix` is what the
/// writer holds, `t` the entry about to be added; both sit inside the
/// plan for the first `idx + 1` inputs.
proof fn lemma_writer_step_ok(
    inputs: Seq<InputItem>,
    opts: ArchiveOptions,
    prefix: Seq<(Seq<char>, bool, Seq<u8>, bool)>,
    idx: int,
    t: (Seq<char>, bool, Seq<u8>, bool),
)
    requires
        0 <= idx < inputs.len(),
        creation_ok(inputs, opts),
        prefix.len() + 1 <= planned_entries(inputs.take(idx + 1), opts).len(),
        forall|k: int|
            0 <= k < prefix.len() ==> #[trigger] planned_entries(inputs.take(idx + 1), opts)[k]
                == prefix[k],
        t == planned_entries(inputs.take(idx + 1), opts)[prefix.len() as int],
    ensures
        forall|k: int| 0 <= k < prefix.len() ==> (#[trigger] prefix[k]).0 != t.0,
        codec::held_entries_size_ok(prefix),
        codec::entry_size_ok(t.2.len()),
{
    lemma_planned_prefix(inputs, opts, idx + 1);
    let whole = planned_entries(inputs, opts);
    let part = planned_entries(inputs.take(idx + 1), opts);
    let pos = prefix.len() as int;
    assert(t == whole[pos]);
    assert forall|k: int| 0 <= k < prefix.len() implies (#[trigger] prefix[k]).0 != t.0
        && codec::entry_size_ok(prefix[k].2.len()) by {
        assert(prefix[k] == part[k]);
        assert(whole[k] == part[k]);
        assert(whole[k].0 != whole[pos].0);
        assert(codec::entry_size_ok(whole[k].2.len()));
    }
    assert(codec::entry_size_ok(whole[pos].2.len()));
}

/// The same, set inside a directory input: the writer holds the plan for
/// the earlier inputs and the directory's first `j` records; under
/// `creation_ok` the record about to be added carries a fresh name and
/// an admissible size.
proof fn lemma_dir_step(
    inputs: Seq<InputItem>,
    opts: ArchiveOptions,
    pre: Seq<(Seq<char>, bool, Seq<u8>, bool)>,
    held: Seq<(Seq<char>, bool, Seq<u8>, bool)>,
    idx: int,
    j: int,
    entries: Vec<WalkedEntry>,
    t: (Seq<char>, bool, Seq<u8>, bool),
)
    requires
        0 <= idx < inputs.len(),
        creation_ok(inputs, opts),
        pre == planned_entries(inputs.take(idx), opts),
        inputs[idx].kind == InputKind::Dir(entries),
        0 <= j < entries@.len(),
        held.len() == pre.len() + j,
        forall|k: int| 0 <= k < pre.len() ==> #[trigger] held[k] == pre[k],
        forall|k: int|
            pre.len() <= k < held.len() ==> #[trigger] held[k] == planned_for_walked(
                inputs[idx].name@,
                entries@[k - pre.len()],
                opts,
            ),
        t == planned_for_walked(inputs[idx].name@, entries@[j], opts),
    ensures
        forall|k: int| 0 <= k < held.len() ==> (#[trigger] held[k]).0 != t.0,
        codec::held_entries_size_ok(held),
        codec::entry_size_ok(t.2.len()),
{
    assert(inputs.take(idx + 1).drop_last() =~= inputs.take(idx));
    assert(inputs.take(idx + 1).last() == inputs[idx]);
    let part = planned_entries(inputs.take(idx + 1), opts);
    assert(part == pre + planned_for_item(inputs[idx], opts));
    assert(part.len() == pre.len() + entries@.len());
    assert forall|k: int| 0 <= k < held.len() implies #[trigger] part[k] == held[k] by {
        if k < pre.len() {
            assert(part[k] == pre[k]);
        } else {
            assert(part[k] == planned_for_item(inputs[idx], opts)[k - pre.len()]);
            assert(planned_for_item(inputs[idx], opts)[k - pre.len()] == planned_for_walked(
                inputs[idx].name@,
                entries@[k - pre.len()],
                opts,
            ));
        }
    }
    assert(part[held.len() as int] == planned_for_item(inputs[idx], opts)[j]);
    assert(planned_for_item(inputs[idx], opts)[j] == planned_for_walked(
        inputs[idx].name@,
        entries@[j],
        opts,
    ));
    lemma_writer_step_ok(inputs, opts, held, idx, t);
}

/// The writer holds exactly the entries planned for the first `idx`
/// inputs.
pub open spec fn writer_entries_match_prefix(
    w: codec::ArchiveWriter,
    inputs: Seq<InputItem>,
    idx: int,
    opts: ArchiveOptions,
) -> bool {
    codec::writer_entries(w) == planned_entries(inputs.take(idx), opts)
}

/// One extracted entry: a destination-relative path proven safe, its
/// components, and the entry's content.
#[derive(Debug, Clone)]
pub struct ExtractedItem {
    /// The safe relative path, `/`-separated.
    pub path: String,
    /// The same path as its components.
    pub components: Vec<String>,
    pub is_dir: bool,
    pub data: Vec<u8>,
}

/// Entry `i`'s name resolves to a safe relative path, and to a non-empty
/// one when the entry is a file.
pub open spec fn entry_path_ok(b: Seq<u8>, i: int) -> bool {
    &&& sanitize_spec(entry_name(b, i)) is Some
    &&& (!entry_is_dir(b, i) ==> sanitize_spec(entry_name(b, i))->0.len() > 0)
}

/// What `extract` needs of the bytes to succeed: a well-formed container
/// whose every entry is readable and resolves to a safe path.
pub open spec fn extraction_ok(b: Seq<u8>) -> bool {
    &&& zip_parse_ok(b)
    &&& forall|i: int|
        0 <= i < entry_count(b) ==> #[trigger] entry_meta_ok(b, i) && entry_data(b, i) is Some
            && entry_path_ok(b, i)
}

/// The extracted items correspond one to one with the entries: safe
/// resolved paths, the entry's kind and its exact content.
pub open spec fn extraction_matches(b: Seq<u8>, items: Seq<ExtractedItem>) -> bool {
    &&& items.len() == entry_count(b)
    &&& forall|i: int|
        0 <= i < items.len() ==> {
            &&& Some(#[trigger] items[i].components.deep_view()) == sanitize_spec(entry_name(b, i))
            &&& items[i].path@ == join_components(items[i].components.deep_view())
            &&& items[i].is_dir == entry_is_dir(b, i)
            &&& Some(items[i].data@) == entry_data(b, i)
        }
}

/// Whether a name's last character is a path separator.
fn ends_with_sep(s: &String) -> (r: bool)
    ensures
        r == (s@.len() > 0 && path_safety::is_sep(s@.last())),
{
    let n = s.as_str().unicode_len();
    if n == 0 {
        false
    } else {
        let c = s.as_str().get_char(n - 1);
        c == '/' || c == '\\'
    }
}

impl ArchiveManager {
    /// Create an archive holding the given inputs: one entry per file, a
    /// directory's records rooted under the directory's own name.  When
    /// `auto_store` is on, a file whose sampled entropy reaches the
    /// threshold is stored without compression; every other file is
    /// compressed, at the configured level.  Fails with `NotFound` when
    /// a top-level input does not exist, and with `InputValidation` on a
    /// name that is empty, ends in a separator, or outgrows the codec's
    /// name-length field — both before anything is written.
    pub fn create_archive<S: ProgressSink>(&self, inputs: &Vec<InputItem>, sink: &mut S) -> (r:
        Result<Vec<u8>, ArchiveError>)
        ensures
            has_missing_input(inputs@) ==> r == Err::<Vec<u8>, ArchiveError>(
                ArchiveError::NotFound,
            ),
            r is Err && r->Err_0 == ArchiveError::NotFound ==> has_missing_input(inputs@),
            !has_missing_input(inputs@) && !inputs_well_formed(inputs@) ==> r == Err::<
                Vec<u8>,
                ArchiveError,
            >(ArchiveError::InputValidation),
            r is Err && r->Err_0 == ArchiveError::InputValidation ==> !inputs_well_formed(inputs@),
            r is Ok ==> !has_missing_input(inputs@) && inputs_well_formed(inputs@)
                && finished_archive_matches(planned_entries(inputs@, self.options), r->Ok_0@),
            r is Err ==> r->Err_0 == ArchiveError::NotFound || r->Err_0
                == ArchiveError::InputValidation || r->Err_0 == ArchiveError::CodecError,
            creation_ok(inputs@, self.options) ==> r is Ok,
    {
        let total = inputs.len();
        // Every top-level input must exist before anything is written.
        let mut idx: usize = 0;
        while idx < total
            invariant
                total == inputs@.len(),
                idx <= total,
                forall|i: int| 0 <= i < idx ==> !((#[trigger] inputs@[i].kind) is Missing),
            decreases total - idx,
        {
            if let InputKind::Missing = &inputs[idx].kind {
                proof {
                    assert(has_missing_input(inputs@)) by {
                        assert(inputs@[idx as int].kind is Missing);
                    }
                }
                return Err(ArchiveError::NotFound);
            }
            idx += 1;
        }
        // Every name must be usable as an entry name.
        idx = 0;
        while idx < total
            invariant
                total == inputs@.len(),
                idx <= total,
                forall|i: int| 0 <= i < inputs@.len() ==> !((#[trigger] inputs@[i].kind) is Missing),
                forall|i: int| 0 <= i < idx ==> item_well_formed(#[trigger] inputs@[i]),
            decreases total - idx,
        {
            let item = &inputs[idx];
            match &item.kind {
                InputKind::Missing => {
                    proof {
                        assert(!((inputs@[idx as int].kind) is Missing));
                        assert(false);
                    }
                    return Err(ArchiveError::InputValidation);
                },
                InputKind::File(_) => {
                    if item.name.as_str().unicode_len() == 0 || ends_with_sep(&item.name)
                        || item.name.as_str().as_bytes().len() > 65535 {
                        proof {
                            lemma_no_missing(inputs@);
                            assert(!item_well_formed(inputs@[idx as int]));
                        }
                        return Err(ArchiveError::InputValidation);
                    }
                },
                InputKind::Dir(entries) => {
                    if item.name.as_str().unicode_len() == 0 || ends_with_sep(&item.name) {
                        proof {
                            lemma_no_missing(inputs@);
                            assert(!item_well_formed(inputs@[idx as int]));
                        }
                        return Err(ArchiveError::InputValidation);
                    }
                    let name_bytes = item.name.as_str().as_bytes().len();
                    let mut j: usize = 0;
                    while j < entries.len()
                        invariant
                            total == inputs@.len(),
                            idx < total,
                            forall|i: int|
                                0 <= i < inputs@.len() ==> !((#[trigger] inputs@[i].kind)
                                    is Missing),
                            *item == inputs@[idx as int],
                            item.kind == InputKind::Dir(*entries),
                            name_bytes == encode_utf8(item.name@).len(),
                            j <= entries@.len(),
                            forall|jj: int|
                                0 <= jj < j ==> (name_ok(#[trigger] entries@[jj].relative@)
                                    && composed_name_fits(item.name@, entries@[jj].relative@)),
                        decreases entries@.len() - j,
                    {
                        if entries[j].relative.as_str().unicode_len() == 0 || ends_with_sep(
                            &entries[j].relative,
                        ) || name_bytes > 65535 || entries[j].relative.as_str().as_bytes().len() > 65535
                            || name_bytes + 2 + entries[j].relative.as_str().as_bytes().len()
                                > 65535 {
                            proof {
                                lemma_no_missing(inputs@);
                                assert(!(name_ok(entries@[j as int].relative@)
                                    && composed_name_fits(
                                    item.name@,
                                    entries@[j as int].relative@,
                                )));
                                assert(!item_well_formed(inputs@[idx as int]));
                            }
                            return Err(ArchiveError::InputValidation);
                        }
                        j += 1;
                    }
                },
            }
            idx += 1;
        }
        // Write the planned entries in input order.
        let mut w = codec::writer_new();
        proof {
            assert(planned_entries(inputs@.take(0), self.options) =~= Seq::<(
                Seq<char>,
                bool,
                Seq<u8>,
                bool,
            )>::empty());
        }
        idx = 0;
        while idx < total
            invariant
                total == inputs@.len(),
                idx <= total,
                forall|i: int| 0 <= i < inputs@.len() ==> !((#[trigger] inputs@[i].kind) is Missing),
                inputs_well_formed(inputs@),
                writer_entries_match_prefix(w, inputs@, idx as int, self.options),
            decreases total - idx,
        {
            let ghost opts = self.options;
            let ghost pre = planned_entries(inputs@.take(idx as int), opts);
            proof {
                assert(inputs@.take(idx + 1).drop_last() =~= inputs@.take(idx as int));
                assert(inputs@.take(idx + 1).last() == inputs@[idx as int]);
            }
            let item = &inputs[idx];
            match &item.kind {
                InputKind::Missing => {
                    proof {
                        assert(false);
                    }
                    return Err(ArchiveError::NotFound);
                },
                InputKind::File(data) => {
                    let stored = self.options.auto_store && entropy::is_incompressible(
                        data,
                        self.options.store_entropy_threshold,
                    );
                    let method = if stored {
                        StorageMethod::Stored
                    } else {
                        StorageMethod::Deflated
                    };
                    let level = if stored {
                        None
                    } else {
                        self.options.compression_level
                    };
                    let ghost held = codec::writer_entries(w);
                    if let Err(e) = codec::writer_add_file(&mut w, &item.name, data, method, level) {
                        proof {
                            if creation_ok(inputs@, opts) {
                                let part = planned_entries(inputs@.take(idx + 1), opts);
                                let t = (item.name@, false, data@, method is Stored);
                                assert(part =~~= held.push(t));
                                assert(forall|k: int|
                                    0 <= k < held.len() ==> #[trigger] part[k] == held[k]);
                                assert(t == part[held.len() as int]);
                                lemma_writer_step_ok(inputs@, opts, held, idx as int, t);
                                assert(codec::entry_name_bytes_ok(item.name@));
                                assert(false);
                            }
                        }
                        return Err(e);
                    }
                    proof {
                        assert(codec::writer_entries(w) =~~= pre + planned_for_item(
                            inputs@[idx as int],
                            opts,
                        ));
                    }
                },
                InputKind::Dir(entries) => {
                    let mut j: usize = 0;
                    while j < entries.len()
                        invariant
                            total == inputs@.len(),
                            idx < total,
                            forall|i: int|
                                0 <= i < inputs@.len() ==> !((#[trigger] inputs@[i].kind)
                                    is Missing),
                            inputs_well_formed(inputs@),
                            j <= entries@.len(),
                            *item == inputs@[idx as int],
                            item.kind == InputKind::Dir(*entries),
                            opts == self.options,
                            pre == planned_entries(inputs@.take(idx as int), opts),
                            item_well_formed(inputs@[idx as int]),
                            codec::writer_entries(w) == pre + Seq::new(
                                j as nat,
                                |jj: int| planned_for_walked(item.name@, entries@[jj], opts),
                            ),
                        decreases entries@.len() - j,
                    {
                        let e = &entries[j];
                        proof {
                            reveal_strlit("/");
                            assert("/"@ =~= seq!['/']);
                            assert(name_ok(e.relative@));
                        }
                        let mut full = item.name.clone();
                        full.append("/");
                        full.append(e.relative.as_str());
                        match &e.kind {
                            WalkedKind::File(data) => {
                                proof {
                                    assert(full@ == item.name@ + seq!['/'] + e.relative@);
                                    assert(full@.last() == e.relative@.last());
                                }
                                let stored = self.options.auto_store && entropy::is_incompressible(
                                    data,
                                    self.options.store_entropy_threshold,
                                );
                                let method = if stored {
                                    StorageMethod::Stored
                                } else {
                                    StorageMethod::Deflated
                                };
                                let level = if stored {
                                    None
                                } else {
                                    self.options.compression_level
                                };
                                let ghost held = codec::writer_entries(w);
                                if let Err(e2) = codec::writer_add_file(
                                    &mut w,
                                    &full,
                                    data,
                                    method,
                                    level,
                                ) {
                                    proof {
                                        if creation_ok(inputs@, opts) {
                                            assert((method is Stored) == should_store(
                                                data@,
                                                opts,
                                            ));
                                            assert((full@, false, data@, method is Stored)
                                                == planned_for_walked(
                                                item.name@,
                                                entries@[j as int],
                                                opts,
                                            ));
                                            assert(composed_name_fits(
                                                item.name@,
                                                entries@[j as int].relative@,
                                            ));
                                            lemma_encode_utf8_slash();
                                            lemma_encode_utf8_concat(item.name@, seq!['/']);
                                            lemma_encode_utf8_concat(
                                                item.name@ + seq!['/'],
                                                e.relative@,
                                            );
                                            assert(codec::entry_name_bytes_ok(full@));
                                            assert(held.len() == pre.len() + j as int);
                                            assert forall|k: int|
                                                pre.len() <= k < held.len() implies #[trigger] held[k]
                                                == planned_for_walked(
                                                inputs@[idx as int].name@,
                                                entries@[k - pre.len()],
                                                opts,
                                            ) by {
                                                assert(held[k] == Seq::new(
                                                    j as nat,
                                                    |jj: int| planned_for_walked(
                                                        item.name@,
                                                        entries@[jj],
                                                        opts,
                                                    ),
                                                )[k - pre.len()]);
                                            }
                                            lemma_dir_step(
                                                inputs@,
                                                opts,
                                                pre,
                                                held,
                                                idx as int,
                                                j as int,
                                                *entries,
                                                (full@, false, data@, method is Stored),
                                            );
                                            assert(false);
                                        }
                                    }
                                    return Err(e2);
                                }
                                proof {
                                    assert((method is Stored) == should_store(data@, opts));
                                    assert((full@, false, data@, method is Stored)
                                        == planned_for_walked(item.name@, entries@[j as int], opts));
                                }
                            },
                            WalkedKind::Dir => {
                                full.append("/");
                                proof {
                                    assert(full@ == item.name@ + seq!['/'] + e.relative@
                                        + seq!['/']);
                                    assert(full@.last() == '/');
                                }
                                let ghost held = codec::writer_entries(w);
                                if let Err(e2) = codec::writer_add_directory(&mut w, &full) {
                                    proof {
                                        if creation_ok(inputs@, opts) {
                                            assert((full@, true, Seq::<u8>::empty(), true)
                                                == planned_for_walked(
                                                item.name@,
                                                entries@[j as int],
                                                opts,
                                            ));
                                            assert(composed_name_fits(
                                                item.name@,
                                                entries@[j as int].relative@,
                                            ));
                                            lemma_encode_utf8_slash();
                                            lemma_encode_utf8_concat(item.name@, seq!['/']);
                                            lemma_encode_utf8_concat(
                                                item.name@ + seq!['/'],
                                                e.relative@,
                                            );
                                            lemma_encode_utf8_concat(
                                                item.name@ + seq!['/'] + e.relative@,
                                                seq!['/'],
                                            );
                                            assert(codec::entry_name_bytes_ok(full@));
                                            assert(held.len() == pre.len() + j as int);
                                            assert forall|k: int|
                                                pre.len() <= k < held.len() implies #[trigger] held[k]
                                                == planned_for_walked(
                                                inputs@[idx as int].name@,
                                                entries@[k - pre.len()],
                                                opts,
                                            ) by {
                                                assert(held[k] == Seq::new(
                                                    j as nat,
                                                    |jj: int| planned_for_walked(
                                                        item.name@,
                                                        entries@[jj],
                                                        opts,
                                                    ),
                                                )[k - pre.len()]);
                                            }
                                            lemma_dir_step(
                                                inputs@,
                                                opts,
                                                pre,
                                                held,
                                                idx as int,
                                                j as int,
                                                *entries,
                                                (full@, true, Seq::<u8>::empty(), true),
                                            );
                                            assert(false);
                                        }
                                    }
                                    return Err(e2);
                                }
                                proof {
                                    assert((full@, true, Seq::<u8>::empty(), true)
                                        == planned_for_walked(item.name@, entries@[j as int], opts));
                                }
                            },
                        }
                        proof {
                            assert(Seq::new(
                                (j + 1) as nat,
                                |jj: int| planned_for_walked(item.name@, entries@[jj], opts),
                            ) =~~= Seq::new(
                                j as nat,
                                |jj: int| planned_for_walked(item.name@, entries@[jj], opts),
                            ).push(planned_for_walked(item.name@, entries@[j as int], opts)));
                            assert(codec::writer_entries(w) =~~= (pre + Seq::new(
                                j as nat,
                                |jj: int| planned_for_walked(item.name@, entries@[jj], opts),
                            )).push(planned_for_walked(item.name@, entries@[j as int], opts)));
                            assert(codec::writer_entries(w) =~~= pre + Seq::new(
                                (j + 1) as nat,
                                |jj: int| planned_for_walked(item.name@, entries@[jj], opts),
                            ));
                        }
                        j += 1;
                    }
                    proof {
                        assert(Seq::new(
                            entries@.len(),
                            |jj: int| planned_for_walked(item.name@, entries@[jj], opts),
                        ) =~~= planned_for_item(inputs@[idx as int], opts));
                        assert(codec::writer_entries(w) =~~= pre + planned_for_item(
                            inputs@[idx as int],
                            opts,
                        ));
                    }
                },
            }
            sink.report((idx + 1) as u64, total as u64, "create");
            idx += 1;
        }
        proof {
            assert(inputs@.take(total as int) =~= inputs@);
        }
        let ghost final_entries = codec::writer_entries(w);
        match codec::writer_finish(w) {
            Ok(bytes) => Ok(bytes),
            Err(e) => {
                proof {
                    lemma_no_missing(inputs@);
                    if creation_ok(inputs@, self.options) {
                        assert(final_entries == planned_entries(inputs@, self.options));
                        assert(codec::held_entries_size_ok(final_entries));
                        assert(false);
                    }
                }
                Err(e)
            },
        }
    }

    /// Extract an archive: resolve every entry name through path safety
    /// and hand back safe relative paths with their contents.  One entry
    /// that would escape the destination aborts the whole operation with
    /// `PathTraversal`, before anything is handed out.
    pub fn extract_archive<S: ProgressSink>(&self, archive: &Vec<u8>, sink: &mut S) -> (r: Result<
        Vec<ExtractedItem>,
        ArchiveError,
    >)
        ensures
            r is Ok <==> extraction_ok(archive@),
            r is Ok ==> extraction_matches(archive@, r->Ok_0@),
            r is Err ==> r->Err_0 == ArchiveError::CodecError || r->Err_0
                == ArchiveError::PathTraversal,
            r is Err && r->Err_0 == ArchiveError::PathTraversal ==> exists|i: int|
                0 <= i < entry_count(archive@) && !entry_path_ok(archive@, i),
            archive_fully_readable(archive@) && (exists|i: int|
                0 <= i < entry_count(archive@) && !#[trigger] entry_path_ok(archive@, i)) ==> r
                == Err::<Vec<ExtractedItem>, ArchiveError>(ArchiveError::PathTraversal),
    {
        let n = codec::zip_count(archive)?;
        let mut items: Vec<ExtractedItem> = Vec::new();
        let mut i: usize = 0;
        while i < n
            invariant
                zip_parse_ok(archive@),
                n == entry_count(archive@),
                i <= n,
                items@.len() == i,
                forall|j: int|
                    0 <= j < i ==> #[trigger] entry_meta_ok(archive@, j) && entry_data(archive@, j)
                        is Some && entry_path_ok(archive@, j),
                forall|j: int|
                    0 <= j < i ==> {
                        &&& Some(#[trigger] items@[j].components.deep_view()) == sanitize_spec(
                            entry_name(archive@, j),
                        )
                        &&& items@[j].path@ == join_components(items@[j].components.deep_view())
                        &&& items@[j].is_dir == entry_is_dir(archive@, j)
                        &&& Some(items@[j].data@) == entry_data(archive@, j)
                    },
            decreases n - i,
        {
            let meta = codec::zip_entry_meta(archive, i)?;
            let comps = match path_safety::sanitize_entry_name(meta.name.as_str()) {
                Ok(c) => c,
                Err(e) => {
                    proof {
                        assert(!entry_path_ok(archive@, i as int));
                    }
                    return Err(e);
                },
            };
            if !meta.is_dir && comps.len() == 0 {
                proof {
                    assert(!entry_path_ok(archive@, i as int));
                }
                return Err(ArchiveError::PathTraversal);
            }
            let data = codec::zip_read_entry(archive, i)?;
            let path = path_safety::join_path(&comps);
            proof {
                assert(comps.deep_view().len() == comps@.len());
                assert(entry_path_ok(archive@, i as int));
                assert forall|j: int| 0 <= j < i + 1 implies #[trigger] entry_meta_ok(archive@, j)
                    && entry_data(archive@, j) is Some && entry_path_ok(archive@, j) by {
                    if j < i as int {
                        assert(entry_meta_ok(archive@, j));
                        assert(entry_data(archive@, j) is Some);
                        assert(entry_path_ok(archive@, j));
                    }
                }
            }
            let ghost prev_items = items@;
            let ghost comps_view = comps.deep_view();
            let ghost path_view = path@;
            let ghost data_view = data@;
            items.push(
                ExtractedItem { path, components: comps, is_dir: meta.is_dir, data },
            );
            proof {
                assert forall|j: int| 0 <= j < i + 1 implies {
                    &&& Some(#[trigger] items@[j].components.deep_view()) == sanitize_spec(
                        entry_name(archive@, j),
                    )
                    &&& items@[j].path@ == join_components(items@[j].components.deep_view())
                    &&& items@[j].is_dir == entry_is_dir(archive@, j)
                    &&& Some(items@[j].data@) == entry_data(archive@, j)
                } by {
                    if j < i as int {
                        assert(items@[j] == prev_items[j]);
                        assert(Some(prev_items[j].components.deep_view()) == sanitize_spec(
                            entry_name(archive@, j),
                        ));
                        assert(prev_items[j].path@ == join_components(
                            prev_items[j].components.deep_view(),
                        ));
                        assert(prev_items[j].is_dir == entry_is_dir(archive@, j));
                        assert(Some(prev_items[j].data@) == entry_data(archive@, j));
                    } else {
                        assert(items@[j].components.deep_view() == comps_view);
                        assert(items@[j].path@ == path_view);
                        assert(items@[j].data@ == data_view);
                    }
                }
            }
            sink.report((i + 1) as u64, n as u64, "extract");
            i += 1;
        }
        proof {
            if archive_fully_readable(archive@) && (exists|j: int|
                0 <= j < entry_count(archive@) && !#[trigger] entry_path_ok(archive@, j)) {
                let w = choose|j: int|
                    0 <= j < entry_count(archive@) && !#[trigger] entry_path_ok(archive@, j);
                assert(entry_meta_ok(archive@, w) && entry_data(archive@, w) is Some
                    && entry_path_ok(archive@, w));
                assert(false);
            }
        }
        Ok(items)
    }
}

/// The security guarantee at the extraction boundary: every path handed
/// out by a successful `extract` is made of safe components — none
/// empty, none `.` or `..`, none holding a separator, a NUL, a colon or
/// a device name — so writing each below the destination directory stays
/// inside it.
pub proof fn lemma_extracted_paths_safe(b: Seq<u8>, items: Seq<ExtractedItem>)
    requires
        extraction_matches(b, items),
    ensures
        forall|i: int|
            0 <= i < items.len() ==> path_safety::components_safe(
                #[trigger] items[i].components.deep_view(),
            ),
{
    assert forall|i: int| 0 <= i < items.len() implies path_safety::components_safe(
        #[trigger] items[i].components.deep_view(),
    ) by {
        path_safety::lemma_sanitize_safe(entry_name(b, i), items[i].components.deep_view());
    }
}

proof fn lemma_planned_all_files(inputs: Seq<InputItem>, opts: ArchiveOptions)
    requires
        forall|i: int|
            0 <= i < inputs.len() ==> (#[trigger] inputs[i].kind) matches InputKind::File(_),
    ensures
        planned_entries(inputs, opts).len() == inputs.len(),
        forall|i: int|
            0 <= i < inputs.len() ==> {
                &&& (#[trigger] planned_entries(inputs, opts)[i]).0 == inputs[i].name@
                &&& planned_entries(inputs, opts)[i].1 == false
                &&& (inputs[i].kind matches InputKind::File(d) ==> planned_entries(
                    inputs,
                    opts,
                )[i].2 == d@)
            },
    decreases inputs.len(),
{
    if inputs.len() > 0 {
        lemma_planned_all_files(inputs.drop_last(), opts);
        assert(inputs.last().kind matches InputKind::File(_));
    }
}

/// The round trip: extracting an archive created from a set of regular
/// files yields those files back — the same names, byte-identical
/// content, in order.  The file names must be plain, resolving to
/// themselves under path safety.
pub proof fn lemma_create_extract_round_trip(
    inputs: Seq<InputItem>,
    opts: ArchiveOptions,
    bytes: Seq<u8>,
    items: Seq<ExtractedItem>,
)
    requires
        forall|i: int|
            0 <= i < inputs.len() ==> (#[trigger] inputs[i].kind) matches InputKind::File(_),
        forall|i: int|
            0 <= i < inputs.len() ==> sanitize_spec((#[trigger] inputs[i].name)@) == Some(
                seq![inputs[i].name@],
            ),
        finished_archive_matches(planned_entries(inputs, opts), bytes),
        extraction_matches(bytes, items),
    ensures
        items.len() == inputs.len(),
        forall|i: int|
            0 <= i < items.len() ==> (#[trigger] items[i].path)@ == inputs[i].name@ && !items[i].is_dir,
        forall|i: int|
            0 <= i < items.len() ==> ((#[trigger] inputs[i].kind) matches InputKind::File(d)
                ==> (#[trigger] items[i].data)@ == d@),
{
    lemma_planned_all_files(inputs, opts);
    let planned = planned_entries(inputs, opts);
    assert forall|i: int| 0 <= i < items.len() implies (#[trigger] items[i].path)@
        == inputs[i].name@ && !items[i].is_dir by {
        assert(entry_name(bytes, i) == planned[i].0);
        assert(Some(items[i].components.deep_view()) == sanitize_spec(inputs[i].name@));
        assert(items[i].components.deep_view() == seq![inputs[i].name@]);
        assert(join_components(seq![inputs[i].name@]) == inputs[i].name@);
        assert(entry_is_dir(bytes, i) == false);
    }
    assert forall|i: int|
        0 <= i < items.len() implies ((#[trigger] inputs[i].kind) matches InputKind::File(d)
        ==> (#[trigger] items[i].data)@ == d@) by {
        assert(entry_data(bytes, i) == Some(planned[i].2));
        assert(Some(items[i].components.deep_view()) == sanitize_spec(entry_name(bytes, i)));
        assert(Some(items[i].data@) == entry_data(bytes, i));
        assert(items[i].data@ == planned[i].2);
        assert(inputs[i].kind matches InputKind::File(d) ==> planned[i].2 == d@);
    }
}

/// Two readings of the figures of one unmodified archive are the same:
/// `stats` pins its result to the bytes alone.
pub proof fn lemma_stats_idempotent(b: Seq<u8>, s1: ArchiveStats, s2: ArchiveStats)
    requires
        stats_matches(b, s1),
        stats_matches(b, s2),
    ensures
        s1 == s2,
{
}

/// Two listings of one unmodified archive are the same: `list` pins its
/// result to the bytes alone.
pub proof fn lemma_list_idempotent(b: Seq<u8>, names1: Seq<Seq<char>>, names2: Seq<Seq<char>>)
    requires
        listing_matches(b, names1),
        listing_matches(b, names2),
    ensures
        names1 == names2,
{
    assert(names1 =~= names2);
}

/// Two hashes of one unmodified file are the same 64-character string:
/// `calculate_file_hash` pins its result to the content alone.
pub proof fn lemma_hash_deterministic(data: Seq<u8>, h1: Seq<char>, h2: Seq<char>)
    requires
        h1 == digest::sha256_hex_of(data),
        h2 == digest::sha256_hex_of(data),
    ensures
        h1 == h2,
{
}

} // verus!
