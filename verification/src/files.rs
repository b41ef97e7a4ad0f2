//! The file accessor: what is read from the bytes of a file, as a window of
//! lines or as a whole, and what decides whether a write may replace them.
//!
//! A file is text if its bytes are well-formed UTF-8 and hold no NUL byte;
//! anything else is refused as non-text. The digest of a file is taken over
//! its exact bytes.

use crate::digest::{digest_hex, digest_of};
use crate::language::{extension, guess_language_by_ext, language_of};
use crate::lines::{file_lines, join_lines, join_range, read_lines};
use crate::paths::{ensure_within_root, strip_dir};
use crate::resync::{chunk_bounds, chunk_of};
use crate::store::same_text;
use crate::text::{chars_of, string_of};
use vstd::prelude::*;
use vstd::string::StringSliceAdditionalSpecFns;
use vstd::utf8::{decode_utf8, valid_utf8};

verus! {

/// Above this size a window that stops before the end of the file is marked
/// as truncated.
pub const SOFT_SIZE_BYTES: u64 = 2 * 1024 * 1024;

/// Above this size every window is marked as truncated, and the file is not
/// read as a whole.
pub const HARD_SIZE_BYTES: u64 = 5 * 1024 * 1024;

/// Where the files live: the canonical path of the root directory.
#[derive(Debug, Clone)]
pub struct FsConfig {
    pub root: String,
}

impl FsConfig {
    /// The configuration for the files below `root`.
    pub fn new(root: String) -> (cfg: FsConfig)
        ensures
            cfg.root == root,
    {
        FsConfig { root }
    }
}

/// Whether an entry of a directory is a file or a directory.
#[derive(Debug, Clone, Copy, PartialEq, Eq, Structural)]
pub enum EntryType {
    File,
    Dir,
}

/// One entry of a directory: its name, its path from the root, its kind, and
/// its size if it is a file.
#[derive(Debug, Clone)]
pub struct DirEntry {
    pub name: String,
    pub path: String,
    pub entry_type: EntryType,
    pub size: Option<u64>,
}

/// A window of the lines of a file.
#[derive(Debug, Clone)]
pub struct FileChunk {
    pub path: String,
    pub language: String,
    pub size: u64,
    pub total_lines: usize,
    pub start_line: usize,
    pub end_line: usize,
    pub content: String,
    pub truncated: bool,
}

/// A file read as a whole.
#[derive(Debug, Clone)]
pub struct FullFile {
    pub path: String,
    pub language: String,
    pub size: u64,
    pub content: String,
    pub digest: String,
}

/// Why the accessor refused to read.
#[derive(Debug, Clone)]
pub enum CoreError {
    /// The path leads out of the root.
    InvalidPath,
    /// Nothing is at the path.
    NotFound,
    /// The path names a directory.
    NotAFile,
    /// The bytes are no text.
    NonText,
    /// The file is larger than may be read as a whole.
    OverLimit,
    /// The operating system failed; the text is its message.
    Io(String),
}

/// Why the accessor refused to write.
#[derive(Debug, Clone)]
pub enum WriteError {
    /// The file is not the one that the writer has seen; the digest is that
    /// of the file as it is.
    Conflict { current_digest: String },
    /// The operating system failed; the text is its message.
    Io(String),
}

/// What was found at a path: the canonical path if it resolves to anything,
/// and whether that is a regular file.
#[derive(Debug, Clone)]
pub struct Probe {
    pub canonical: Option<String>,
    pub is_file: bool,
}

/// Why a file may not be read, if it may not: nothing is at the path, or the
/// path leads out of the root, or what is there is no regular file.
pub open spec fn path_refusal(root: Seq<char>, probe: Probe) -> Option<CoreError> {
    match probe.canonical {
        None => Some(CoreError::NotFound),
        Some(abs) => if strip_dir(abs@, root) is None {
            Some(CoreError::InvalidPath)
        } else if !probe.is_file {
            Some(CoreError::NotAFile)
        } else {
            None
        },
    }
}

/// Decides whether the file that was found at a path may be read: a path at
/// which nothing is, is not found; one that leads out of the root is invalid;
/// and what is no regular file is refused as such.
pub fn admit_file(cfg: &FsConfig, probe: &Probe) -> (r: Result<(), CoreError>)
    ensures
        match r {
            Ok(_) => path_refusal(cfg.root@, *probe) is None,
            Err(e) => path_refusal(cfg.root@, *probe) == Some(e),
        },
{
    match &probe.canonical {
        None => Err(CoreError::NotFound),
        Some(abs) => {
            if !ensure_within_root(cfg.root.as_str(), abs.as_str()) {
                Err(CoreError::InvalidPath)
            } else if !probe.is_file {
                Err(CoreError::NotAFile)
            } else {
                Ok(())
            }
        },
    }
}

/// The relative path that leads from the directory `base` to `path`, if there
/// is one.
pub uninterp spec fn path_from(base: Seq<char>, path: Seq<char>) -> Option<Seq<char>>;

/// `pathdiff::diff_paths`: the relative path from `base` to `path`, made of
/// the components of the two by the path syntax of the platform, or none
/// where `base` cannot be left that way. Nothing is proved of it; the result
/// is the named value `path_from` of the two paths.
#[verifier::external_body]
fn diff_paths(path: &str, base: &str) -> (r: Option<String>)
    ensures
        match r {
            Some(p) => path_from(base@, path@) == Some(p@),
            None => path_from(base@, path@) is None,
        },
{
    match pathdiff::diff_paths(path, base) {
        Some(p) => Some(p.to_string_lossy().into_owned()),
        None => None,
    }
}

/// The path under which a file is shown: the path that leads from the root to
/// it, or the path that was asked for where none leads there.
pub open spec fn shown(root: Seq<char>, abs: Seq<char>, asked: Seq<char>) -> Seq<char> {
    match path_from(root, abs) {
        Some(p) => p,
        None => asked,
    }
}

/// The path under which the file with the canonical path `abs`, which was
/// asked for as `asked`, is shown.
pub fn shown_path(cfg: &FsConfig, abs: &str, asked: &str) -> (r: String)
    ensures
        r@ == shown(cfg.root@, abs@, asked@),
{
    match diff_paths(abs, cfg.root.as_str()) {
        Some(p) => p,
        None => asked.to_owned(),
    }
}

/// The bytes are no text: they hold a NUL byte or are not well-formed UTF-8.
pub open spec fn non_text(bytes: Seq<u8>) -> bool {
    bytes.contains(0u8) || !valid_utf8(bytes)
}

/// The number of the last line of a window that starts at line `start` and
/// holds at most `max_lines` lines, in a file of `total` lines.
pub open spec fn chunk_end(start: int, max_lines: int, total: int) -> int {
    if start + max_lines == 0 {
        0
    } else if start + max_lines - 1 < total {
        start + max_lines - 1
    } else {
        total
    }
}

/// The lines of the window that starts at line `start` and holds at most
/// `max_lines` lines.
pub open spec fn chunk_lines(lines: Seq<Seq<char>>, start: int, max_lines: int) -> Seq<
    Seq<char>,
> {
    chunk_of(
        lines,
        if start >= 1 {
            start
        } else {
            1
        },
        start + max_lines - 1,
    )
}

/// A window of a file is marked as truncated above the hard ceiling, and
/// above the soft ceiling where it stops before the end of the file.
pub open spec fn is_truncated(size: int, end_line: int, total: int) -> bool {
    size > HARD_SIZE_BYTES || (size > SOFT_SIZE_BYTES && end_line < total)
}

/// `c` is the window of the file at `path` with the bytes `bytes` that starts
/// at line `start` and holds at most `max_lines` lines.
pub open spec fn chunk_is(
    c: FileChunk,
    path: Seq<char>,
    bytes: Seq<u8>,
    start: int,
    max_lines: int,
) -> bool {
    let lines = file_lines(decode_utf8(bytes));
    &&& c.path@ == path
    &&& c.language@ == language_of(extension(path))
    &&& c.size == bytes.len()
    &&& c.total_lines == lines.len()
    &&& c.start_line == start
    &&& c.end_line == chunk_end(start, max_lines, lines.len() as int)
    &&& c.content@ == join_lines(chunk_lines(lines, start, max_lines))
    &&& c.truncated == is_truncated(bytes.len() as int, c.end_line as int, lines.len() as int)
}

/// `f` is the file at `path` with the bytes `bytes`, read as a whole.
pub open spec fn full_is(f: FullFile, path: Seq<char>, bytes: Seq<u8>) -> bool {
    &&& f.path@ == path
    &&& f.language@ == language_of(extension(path))
    &&& f.size == bytes.len()
    &&& f.content@ == decode_utf8(bytes)
    &&& f.digest@ == digest_of(bytes)
}

/// `std::str::from_utf8`: succeeds exactly on well-formed UTF-8, and then
/// gives the text that the bytes encode.
#[verifier::external_body]
fn text_of_bytes(bytes: &[u8]) -> (r: Option<String>)
    ensures
        r is Some <==> valid_utf8(bytes@),
        r matches Some(s) ==> s@ == decode_utf8(bytes@),
{
    match std::str::from_utf8(bytes) {
        Ok(s) => Some(s.to_owned()),
        Err(_) => None,
    }
}

/// Whether `bytes` hold a NUL byte.
pub fn has_nul(bytes: &[u8]) -> (r: bool)
    ensures
        r == bytes@.contains(0u8),
{
    let mut i: usize = 0;
    while i < bytes.len()
        invariant
            i <= bytes@.len(),
            forall|j: int| 0 <= j < i ==> bytes@[j] != 0u8,
        decreases bytes@.len() - i,
    {
        if bytes[i] == 0 {
            return true;
        }
        i += 1;
    }
    false
}

/// The text that `bytes` hold, if they are text.
pub fn decode_text(bytes: &[u8]) -> (r: Option<String>)
    ensures
        r is Some <==> !non_text(bytes@),
        r matches Some(s) ==> s@ == decode_utf8(bytes@),
{
    if has_nul(bytes) {
        return None;
    }
    text_of_bytes(bytes)
}

/// Whether `bytes` are no text.
pub fn is_non_text(bytes: &[u8]) -> (r: bool)
    ensures
        r == non_text(bytes@),
{
    decode_text(bytes).is_none()
}

/// The window of the file at `rel_path` that starts at line `start_line` and
/// holds at most `max_lines` lines, from the bytes of the file. Bytes that are
/// no text are refused.
pub fn read_file_chunk(rel_path: &str, bytes: &[u8], start_line: usize, max_lines: usize) -> (r:
    Result<FileChunk, CoreError>)
    ensures
        match r {
            Ok(c) => !non_text(bytes@) && chunk_is(
                c,
                rel_path@,
                bytes@,
                start_line as int,
                max_lines as int,
            ),
            Err(e) => non_text(bytes@) && e is NonText,
        },
{
    let text = match decode_text(bytes) {
        Some(t) => t,
        None => {
            return Err(CoreError::NonText);
        },
    };
    let size: u64 = bytes.len() as u64;
    let chars = chars_of(text.as_str());
    let lines = read_lines(&chars);
    let total = lines.len();
    let target: i128 = start_line as i128 + max_lines as i128 - 1;
    let first: i128 = if start_line >= 1 {
        start_line as i128
    } else {
        1
    };
    let (lo, hi) = chunk_bounds(total, first, target);
    let content = join_range(&lines, lo, hi);
    let end_line: usize = if target < 0 {
        0
    } else if target < total as i128 {
        target as usize
    } else {
        total
    };
    let truncated = size > HARD_SIZE_BYTES || (size > SOFT_SIZE_BYTES && end_line < total);
    Ok(
        FileChunk {
            path: rel_path.to_owned(),
            language: guess_language_by_ext(rel_path),
            size,
            total_lines: total,
            start_line,
            end_line,
            content: string_of(&content),
            truncated,
        },
    )
}

/// The file at `rel_path` as a whole, from its bytes, however large it is.
/// Bytes that are no text are refused.
pub fn decode_file(rel_path: &str, bytes: &[u8]) -> (r: Result<FullFile, CoreError>)
    ensures
        match r {
            Ok(f) => !non_text(bytes@) && full_is(f, rel_path@, bytes@) && f.digest@.len() == 64,
            Err(e) => non_text(bytes@) && e is NonText,
        },
{
    match decode_text(bytes) {
        None => Err(CoreError::NonText),
        Some(content) => Ok(
            FullFile {
                path: rel_path.to_owned(),
                language: guess_language_by_ext(rel_path),
                size: bytes.len() as u64,
                content,
                digest: digest_hex(bytes),
            },
        ),
    }
}

/// The file at `rel_path` as a whole, from its bytes. A file above the hard
/// ceiling is refused as over the limit, and bytes that are no text as
/// non-text.
pub fn read_file_full(rel_path: &str, bytes: &[u8]) -> (r: Result<FullFile, CoreError>)
    ensures
        match r {
            Ok(f) => bytes@.len() <= HARD_SIZE_BYTES && !non_text(bytes@) && full_is(
                f,
                rel_path@,
                bytes@,
            ) && f.digest@.len() == 64,
            Err(e) => if bytes@.len() > HARD_SIZE_BYTES {
                e is OverLimit
            } else {
                non_text(bytes@) && e is NonText
            },
        },
{
    if bytes.len() as u64 > HARD_SIZE_BYTES {
        return Err(CoreError::OverLimit);
    }
    decode_file(rel_path, bytes)
}

/// Whether a write may replace a file with the bytes `current`: it may where
/// the writer names no digest, or names the digest of `current`.
pub open spec fn write_allowed(current: Seq<u8>, base: Option<Seq<char>>) -> bool {
    match base {
        None => true,
        Some(b) => b == digest_of(current),
    }
}

/// What an optional string slice holds.
pub open spec fn opt_str(o: Option<&str>) -> Option<Seq<char>> {
    match o {
        Some(s) => Some(s@),
        None => None,
    }
}

/// Decides a write of `new_content` over a file with the bytes `current`.
///
/// Where the writer names a digest and the file has another, the write is
/// refused with a conflict that carries the digest of the file as it is, and
/// nothing is to be written. Otherwise the file is to be replaced by the
/// bytes of `new_content`, whose digest is returned.
pub fn write_file(current: &[u8], new_content: &str, base_digest: Option<&str>) -> (r: Result<
    String,
    WriteError,
>)
    ensures
        match r {
            Ok(d) => write_allowed(current@, opt_str(base_digest)) && d@ == digest_of(
                new_content.spec_bytes(),
            ) && d@.len() == 64,
            Err(WriteError::Conflict { current_digest }) => !write_allowed(
                current@,
                opt_str(base_digest),
            ) && current_digest@ == digest_of(current@) && current_digest@.len() == 64,
            Err(WriteError::Io(_)) => false,
        },
{
    let current_digest = digest_hex(current);
    match base_digest {
        Some(b) => {
            if !same_text(b, current_digest.as_str()) {
                return Err(WriteError::Conflict { current_digest });
            }
        },
        None => {},
    }
    Ok(digest_hex(new_content.as_bytes()))
}

} // verus!
