//! How documents and block logs are framed for disk.

use std::io::Write;

use vstd::prelude::*;

use crate::paths::{extension, extension_of};
use crate::schema::{Benchmark, Block, Run};
use crate::text::{joined, replace, replaced, to_chars, to_text};

verus! {

/// The bytes that `zstd::decode_all` reads from a zstd frame, none where it refuses the frame.
pub uninterp spec fn zstd_content(frame: Seq<u8>) -> Option<Seq<u8>>;

/// The content size that a zstd frame declares, what `zstd_safe::get_frame_content_size` reads from
/// it, none where it declares none.
pub uninterp spec fn zstd_declared_size(frame: Seq<u8>) -> Option<u64>;

/// The archive that `tar::Builder` writes of one member, given its path, its mode, and its bytes,
/// with the other header fields those of `tar::Header::new_ustar`.
pub uninterp spec fn tar_archive(name: Seq<char>, mode: u32, bytes: Seq<u8>) -> Seq<u8>;

/// The gzip stream that `flate2::write::GzEncoder` writes of bytes at the default level, none where
/// it fails.
pub uninterp spec fn gzip_stream(bytes: Seq<u8>) -> Option<Seq<u8>>;

/// `zstd::bulk::compress` writes the bytes as one frame at the default level, from which
/// `zstd::decode_all` reads them back. It gives the compressor a buffer of the compress bound, which
/// zstd promises to be large enough, so as long as memory lasts there is always a frame. The frame
/// declares its content size, as zstd writes the size into the header whenever it is known, and that
/// of a whole buffer is. Which frame it is is not stated here.
#[verifier::external_body]
fn zstd_compress(bytes: &Vec<u8>) -> (frame: Option<Vec<u8>>)
    ensures
        frame is Some,
        zstd_content(frame->0@) == Some(bytes@),
        zstd_declared_size(frame->0@) == Some(bytes@.len() as u64),
{
    zstd::bulk::compress(bytes, zstd::DEFAULT_COMPRESSION_LEVEL).ok()
}

/// `zstd::decode_all` reads the content of a frame. What it is depends on the frame alone.
#[verifier::external_body]
fn zstd_decompress(frame: &Vec<u8>) -> (bytes: Option<Vec<u8>>)
    ensures
        match bytes {
            Some(bytes) => zstd_content(frame@) == Some(bytes@),
            None => zstd_content(frame@) is None,
        },
{
    zstd::decode_all(frame.as_slice()).ok()
}

/// Whether a name can stand in an archive header as it is: one component of ASCII letters, digits,
/// dots, hyphens, and underscores that fits the name field and does not begin with a dot.
pub open spec fn is_plain_name(name: Seq<char>) -> bool {
    &&& 0 < name.len() < 100
    &&& name[0] != '.'
    &&& forall|i: int|
        0 <= i < name.len() ==> 'a' <= #[trigger] name[i] <= 'z' || 'A' <= name[i] <= 'Z' || '0'
            <= name[i] <= '9' || name[i] == '.' || name[i] == '-' || name[i] == '_'
}

/// `tar::Builder` with `append_data` and `into_inner` writes an archive of one member with the given
/// name, mode, and bytes. A plain name fits the header, and writing to a vector does not fail, so
/// there is always an archive. Which one it is depends on the name, the mode, and the bytes alone,
/// since a new header holds no time and no owner.
#[verifier::external_body]
fn tar_single(name: &str, mode: u32, bytes: &Vec<u8>) -> (archive: Option<Vec<u8>>)
    requires
        is_plain_name(name@),
        mode <= 0o7777,
    ensures
        archive is Some,
        archive->0@ == tar_archive(name@, mode, bytes@),
{
    let mut builder = tar::Builder::new(Vec::new());
    let mut header = tar::Header::new_ustar();
    header.set_size(bytes.len() as u64);
    header.set_mode(mode);
    header.set_cksum();
    builder.append_data(&mut header, name, bytes.as_slice()).ok()?;
    builder.into_inner().ok()
}

/// `flate2::write::GzEncoder` at the default level writes the bytes as one gzip stream. Which stream
/// it is, and whether the compressor fails, depends on the bytes alone, since the stream's header
/// holds no time, no name, and no system. That the compressor never fails is not stated here.
#[verifier::external_body]
fn gzip(bytes: &Vec<u8>) -> (stream: Option<Vec<u8>>)
    ensures
        match stream {
            Some(stream) => gzip_stream(bytes@) == Some(stream@),
            None => gzip_stream(bytes@) is None,
        },
{
    let mut encoder = flate2::write::GzEncoder::new(Vec::new(), flate2::Compression::default());
    encoder.write_all(bytes).ok()?;
    encoder.finish().ok()
}

/// Whether a path names a zstd-framed document.
pub open spec fn is_compressed(path: Seq<char>) -> bool {
    extension_of(path) == Some("zst"@) || extension_of(path) == Some("zstd"@)
}

/// Whether the path names a zstd-framed document, the suffix the --zstd flag appends or the common
/// short one. The framing is a property of the path alone, so a patch reads back whatever the same
/// path was written as.
pub fn compressed(path: &str) -> (yes: bool)
    ensures
        yes == is_compressed(path@),
{
    match extension(path) {
        Some(extension) => {
            let chars: Vec<char> = to_chars(extension.as_str());
            crate::text::is(chars.as_slice(), "zst") || crate::text::is(chars.as_slice(), "zstd")
        },
        None => false,
    }
}

/// Whether stored bytes hold a document's text at a path: as one zstd frame where the path is a
/// compressed one, and as they are otherwise.
pub open spec fn stores(path: Seq<char>, stored: Seq<u8>, text: Seq<u8>) -> bool {
    if is_compressed(path) {
        zstd_content(stored) == Some(text)
    } else {
        stored == text
    }
}

/// The document text that stored bytes hold at a path, none where they are no zstd frame.
pub open spec fn stored_text(path: Seq<char>, stored: Seq<u8>) -> Option<Seq<u8>> {
    if is_compressed(path) {
        zstd_content(stored)
    } else {
        Some(stored)
    }
}

/// Whether a block is another one without its log lines.
pub open spec fn lean_block(block: Block, lean: Block) -> bool {
    lean == (Block { logs: lean.logs, ..block }) && lean.logs@.len() == 0
}

/// Whether a run is another one without the log lines of its blocks.
pub open spec fn lean_run<S, T>(run: Run<S, T>, lean: Run<S, T>) -> bool {
    &&& lean == (Run { blocks: lean.blocks, ..run })
    &&& lean.blocks@.len() == run.blocks@.len()
    &&& forall|i: int|
        0 <= i < run.blocks@.len() ==> lean_block(#[trigger] run.blocks@[i], lean.blocks@[i])
}

/// Whether a document is another one without the log lines of its blocks.
pub open spec fn lean_document<S, T>(document: Benchmark<S, T>, lean: Benchmark<S, T>) -> bool {
    &&& lean == (Benchmark { runs: lean.runs, ..document })
    &&& lean.runs@.len() == document.runs@.len()
    &&& forall|i: int|
        0 <= i < document.runs@.len() ==> lean_run(#[trigger] document.runs@[i], lean.runs@[i])
}

fn lean_blocks(blocks: Vec<Block>) -> (lean: Vec<Block>)
    ensures
        lean@.len() == blocks@.len(),
        forall|i: int| 0 <= i < blocks@.len() ==> lean_block(#[trigger] blocks@[i], lean@[i]),
{
    let mut lean: Vec<Block> = Vec::new();
    for block in iter: blocks
        invariant
            iter.seq() == blocks@,
            lean@.len() == iter.index(),
            forall|i: int| 0 <= i < iter.index() ==> lean_block(#[trigger] blocks@[i], lean@[i]),
    {
        lean.push(Block { logs: Vec::new(), ..block });
    }
    lean
}

/// The document as it is written: the log lines of its blocks go to the per-block archives and never
/// enter the document.
pub fn lean<S, T>(document: Benchmark<S, T>) -> (lean: Benchmark<S, T>)
    ensures
        lean_document(document, lean),
{
    let mut runs: Vec<Run<S, T>> = Vec::new();
    let full: Vec<Run<S, T>> = document.runs;
    for run in iter: full
        invariant
            iter.seq() == full@,
            runs@.len() == iter.index(),
            forall|i: int| 0 <= i < iter.index() ==> lean_run(#[trigger] full@[i], runs@[i]),
    {
        runs.push(
            Run {
                id: run.id,
                started_at: run.started_at,
                block_count: run.block_count,
                success_count: run.success_count,
                failure_count: run.failure_count,
                statistics: run.statistics,
                blocks: lean_blocks(run.blocks),
                telemetry: run.telemetry,
            },
        );
    }
    Benchmark {
        schema_version: document.schema_version,
        hardware: document.hardware,
        software: document.software,
        id: document.id,
        name: document.name,
        description: document.description,
        runs,
    }
}

/// The bytes that a document's text is written as at a path. A compressed path is written as one zstd
/// frame declaring the uncompressed size, which lets the browser reader allocate the whole document
/// up front instead of growing it block by block.
pub fn write(path: &str, text: Vec<u8>) -> (stored: Option<Vec<u8>>)
    ensures
        stored is Some,
        stores(path@, stored->0@, text@),
        is_compressed(path@) ==> zstd_declared_size(stored->0@) == Some(text@.len() as u64),
{
    if compressed(path) {
        zstd_compress(&text)
    } else {
        Some(text)
    }
}

/// The document text that was written as the given bytes at a path, the existing document a patch
/// appends a run to.
pub fn read(path: &str, stored: Vec<u8>) -> (text: Option<Vec<u8>>)
    ensures
        match text {
            Some(text) => stored_text(path@, stored@) == Some(text@),
            None => stored_text(path@, stored@) is None,
        },
{
    if compressed(path) {
        zstd_decompress(&stored)
    } else {
        Some(stored)
    }
}

/// The archive file stem of a block name.
pub open spec fn stem_of(name: Seq<char>) -> Seq<char> {
    replaced(replaced(name, "::"@, "__"@), "/"@, "_"@)
}

/// Maps a block name to its flat archive file stem, replacing the `::` of an EEST test id with a
/// double underscore and the `/` of its fixture path with a single underscore so every block's
/// archive sits directly under log/{bench_id}/{run_id}/ as a single file rather than nesting under
/// the fixture path's directories. The colon is replaced rather than left in place because a colon
/// in a served path is not matched by the dev server or a static origin, which fall through to the
/// SPA HTML fallback. The slash is replaced because the frontend looks the archive up under one
/// percent-encoded path segment, which a nested tree never matches; brackets and spaces serve fine
/// percent-encoded. This mapping must stay in sync with blockArchivePath in
/// frontend/src/utils/archivePath.ts, which applies the same replacements so both address the same
/// file.
pub fn archive_stem(name: &str) -> (stem: String)
    ensures
        stem@ == stem_of(name@),
{
    proof {
        reveal_strlit("::");
        reveal_strlit("/");
    }
    let flat: Vec<char> = replace(
        to_chars(name).as_slice(),
        to_chars("::").as_slice(),
        to_chars("__").as_slice(),
    );
    to_text(
        replace(
            flat.as_slice(),
            to_chars("/").as_slice(),
            to_chars("_").as_slice(),
        ).as_slice(),
    )
}

/// The archive file name of a block name.
pub open spec fn archive_name(name: Seq<char>) -> Seq<char> {
    stem_of(name) + ".tar.json"@
}

/// The places and archive file names of those of the first `count` blocks that have logs.
pub open spec fn archives_upto(blocks: Seq<Block>, count: int) -> Seq<(usize, Seq<char>)>
    decreases count,
{
    if count <= 0 {
        seq![]
    } else {
        let before = archives_upto(blocks, count - 1);
        let block = blocks[count - 1];
        if block.logs@.len() > 0 {
            before.push(((count - 1) as usize, archive_name(block.name@)))
        } else {
            before
        }
    }
}

/// Which blocks of a run get a log archive, and under which file name. Each goes to a per-block
/// tar.json under log/{bench_id}/{run_id}/ beside the document, so the lean document stays small
/// and a block's log loads only when its trace is opened. The file is a gzipped tar carrying a
/// .tar.json suffix rather than .tar.gz so a static host serves it without a gzip Content-Encoding
/// the browser would transparently inflate, leaving the in-browser reader to decompress the bytes
/// itself. A block with no logs gets no file.
pub fn write_block_logs<S, T>(run: &Run<S, T>) -> (archives: Vec<(usize, String)>)
    ensures
        archives.deep_view() == archives_upto(run.blocks@, run.blocks@.len() as int),
{
    let mut archives: Vec<(usize, String)> = Vec::new();
    assert(archives.deep_view() =~= seq![]);
    for i in 0..run.blocks.len()
        invariant
            archives.deep_view() == archives_upto(run.blocks@, i as int),
    {
        if run.blocks[i].logs.len() > 0 {
            let ghost before = archives.deep_view();
            let stem: String = archive_stem(run.blocks[i].name.as_str());
            let name: Vec<char> = joined(
                to_chars(stem.as_str()).as_slice(),
                to_chars(".tar.json").as_slice(),
            );
            let name: String = to_text(name.as_slice());
            archives.push((i, name));
            assert(archives.deep_view() =~= before.push((i, name@)));
        }
    }
    archives
}

/// The archive of a block's log: the gzip stream of a tar of the one member log.json, none where the
/// compressor fails on it.
pub open spec fn log_archive(json: Seq<u8>) -> Option<Seq<u8>> {
    gzip_stream(tar_archive("log.json"@, 0o644, json))
}

/// Builds the block's log JSON as a single-member gzipped tar, none where it could not be made. The
/// member is named log.json, a short fixed name independent of the block name, so the frontend
/// reads the one member by position and a long block name never lands in a tar header.
pub fn write_log_archive(json: &Vec<u8>) -> (archive: Option<Vec<u8>>)
    ensures
        match archive {
            Some(archive) => log_archive(json@) == Some(archive@),
            None => log_archive(json@) is None,
        },
{
    proof {
        reveal_strlit("log.json");
    }
    match tar_single("log.json", 0o644, json) {
        Some(tar) => gzip(&tar),
        None => None,
    }
}

} // verus!
