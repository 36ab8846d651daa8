//! Gzip-compressed tar archives, written by the `tar` and `flate2` crates
//! into memory. What goes into an archive (its paths and file contents) and
//! which paths are accepted is stated here; the path tar records for a
//! path it rewrites (`tar_stored_path`) and the bytes of the archive
//! (`tar_gz_archive`) are named, not spelled out.

use vstd::prelude::*;
use crate::text::split_on;

verus! {

/// An archive being written: a `tar::Builder` over a
/// `flate2::write::GzEncoder` over a byte buffer. The two generic writer
/// types cannot be declared (their `std::io::Write` bound), so the pair is
/// held in a private field and reached only through the functions below.
#[verifier::external_body]
pub struct TarGz {
    builder: tar::Builder<flate2::write::GzEncoder<Vec<u8>>>,
}

/// The files an archive holds, in the order they were added: the path a
/// tar reader gives back for each, its bytes and its mode.
pub uninterp spec fn tar_entries(t: TarGz) -> Seq<(Seq<char>, Seq<u8>, u32)>;

/// The bytes of a gzip-compressed tar archive holding `entries`, in order,
/// each a regular file in a GNU header (every other header field left as
/// `tar::Header::new_gnu` sets it); a path longer than the header's name
/// field is written whole in a GNU long-name entry before it. The whole is
/// compressed by `flate2` at the default level.
pub uninterp spec fn tar_gz_archive(entries: Seq<(Seq<char>, Seq<u8>, u32)>) -> Seq<u8>;

/// The path `tar::Builder::append_data` records for an entry added at `p`:
/// where the path, tidied (`.` and empty parts dropped), fits the header's
/// name field, the tidied path; else `p` whole, in a GNU long-name entry.
pub uninterp spec fn tar_stored_path(p: Seq<char>) -> Seq<char>;

/// Calls `flate2::write::GzEncoder::new` over an empty buffer at the
/// default level, and `tar::Builder::new` over that encoder: an archive
/// holding no file.
#[verifier::external_body]
fn tar_gz_new() -> (r: TarGz)
    ensures
        tar_entries(r) == Seq::<(Seq<char>, Seq<u8>, u32)>::empty(),
{
    TarGz { builder: tar::Builder::new(flate2::write::GzEncoder::new(Vec::new(), flate2::Compression::default())) }
}

/// A path that every target reads alike: no backslash (a separator on
/// Windows, turned into `/` on wasm32) and no drive prefix such as `C:`.
pub open spec fn portable_path(p: Seq<char>) -> bool {
    &&& !p.contains('\\')
    &&& !(p.len() >= 2 && p[1] == ':')
}

/// A part of a path between slashes that tar keeps as it is: not empty,
/// and neither `.` nor `..`.
pub open spec fn plain_component(c: Seq<char>) -> bool {
    &&& c.len() > 0
    &&& c != "."@
    &&& c != ".."@
}

/// A path the archive takes and records as it is: portable, without a
/// NUL, and made of plain parts only (so not empty, not starting at the
/// root, without `.`, `..` or doubled slashes, not ending in a slash). Its
/// length does not matter: a long one goes into a GNU long-name entry.
pub open spec fn tar_path_ok(p: Seq<char>) -> bool {
    &&& portable_path(p)
    &&& !p.contains('\0')
    &&& forall|k: int| 0 <= k < split_on(p, '/').len() ==> plain_component(#[trigger] split_on(p, '/')[k])
}

/// Calls `tar::Builder::append_data` with a header made by
/// `tar::Header::new_gnu`, `set_size` (the length of `data`) and `set_mode`
/// (`mode`), and `data` as the entry's contents; an I/O error comes back as
/// its message. Writing into memory does not fail, so the crate refuses
/// only on the path (`prepare_header_path`, `copy_path_into_inner`). A path
/// the archive takes as it is (`tar_path_ok`) is accepted and recorded
/// unchanged, however long. Where another portable path is accepted, the
/// archive holds one more file at the path tar records for it
/// (`tar_stored_path`). Nothing is stated of which other paths are refused,
/// of what a non-portable path becomes (it differs between targets), or of
/// what the archive holds after a refusal.
#[verifier::external_body]
fn tar_append_file(t: &mut TarGz, path: &str, data: &[u8], mode: u32) -> (r: Result<(), String>)
    ensures
        r is Ok && portable_path(path@) ==> tar_entries(*final(t)) == tar_entries(*old(t)).push(
            (tar_stored_path(path@), data@, mode),
        ),
        tar_path_ok(path@) ==> r is Ok && tar_entries(*final(t)) == tar_entries(*old(t)).push((path@, data@, mode)),
{
    let mut h = tar::Header::new_gnu();
    h.set_size(data.len() as u64);
    h.set_mode(mode);
    t.builder.append_data(&mut h, path, std::io::Cursor::new(data)).map_err(|e| e.to_string())
}

/// Which stream an archive could not finish, with the I/O error's message.
pub enum FinishError {
    Tar(String),
    Gzip(String),
}

/// Calls `tar::Builder::into_inner`, which finishes the tar stream, then
/// `flate2::write::GzEncoder::finish`, which gives back the compressed
/// bytes: those of an archive of the files `t` holds. Both write into
/// memory and do not fail; an error would come back as its message.
#[verifier::external_body]
fn tar_gz_finish(t: TarGz) -> (r: Result<Vec<u8>, FinishError>)
    ensures
        r matches Ok(b) ==> b@ == tar_gz_archive(tar_entries(t)),
        r is Ok,
{
    let w = t.builder.into_inner().map_err(|e| FinishError::Tar(e.to_string()))?;
    w.finish().map_err(|e| FinishError::Gzip(e.to_string()))
}

/// The mode of the files added: `rw-r--r--`.
pub const FILE_MODE: u32 = 0o644;

/// The entries of files given as path and text: the text's UTF-8 bytes,
/// with `FILE_MODE`.
pub open spec fn file_entries(files: Seq<(Seq<char>, Seq<char>)>) -> Seq<(Seq<char>, Seq<u8>, u32)> {
    files.map_values(|f: (Seq<char>, Seq<char>)| (f.0, vstd::utf8::encode_utf8(f.1), FILE_MODE))
}

/// `file_entries`, each path as tar records it (`tar_stored_path`).
pub open spec fn stored_entries(files: Seq<(Seq<char>, Seq<char>)>) -> Seq<(Seq<char>, Seq<u8>, u32)> {
    files.map_values(|f: (Seq<char>, Seq<char>)| (tar_stored_path(f.0), vstd::utf8::encode_utf8(f.1), FILE_MODE))
}

/// Whether every path of `files` is portable.
pub open spec fn portable_paths(files: Seq<(Seq<char>, Seq<char>)>) -> bool {
    forall|i: int| 0 <= i < files.len() ==> portable_path(#[trigger] files[i].0)
}

impl TarGz {
    /// An empty archive.
    pub fn new() -> (r: TarGz)
        ensures
            tar_entries(r) == Seq::<(Seq<char>, Seq<u8>, u32)>::empty(),
    {
        tar_gz_new()
    }

    /// Adds a regular file (mode `FILE_MODE`) at `path` holding the UTF-8
    /// bytes of `contents`: accepted, and recorded at `path`, where the
    /// archive takes the path as it is (`tar_path_ok`); where another
    /// portable path is accepted, recorded at `tar_stored_path(path)`. A
    /// refusal comes back as its message, and then nothing is stated of what
    /// the archive holds.
    pub fn add_file(&mut self, path: &str, contents: &str) -> (r: Result<(), String>)
        ensures
            r is Ok && portable_path(path@) ==> tar_entries(*final(self)) == tar_entries(*old(self)).push(
                (tar_stored_path(path@), vstd::utf8::encode_utf8(contents@), FILE_MODE),
            ),
            tar_path_ok(path@) ==> r is Ok && tar_entries(*final(self)) == tar_entries(*old(self)).push(
                (path@, vstd::utf8::encode_utf8(contents@), FILE_MODE),
            ),
    {
        let bytes = contents.as_bytes();
        tar_append_file(self, path, bytes, FILE_MODE)
    }

    /// Finishes the tar stream and the gzip stream and gives the bytes of an
    /// archive of the files it holds; it does not fail.
    pub fn finish(self) -> (r: Result<Vec<u8>, FinishError>)
        ensures
            r matches Ok(b) ==> b@ == tar_gz_archive(tar_entries(self)),
            r is Ok,
    {
        tar_gz_finish(self)
    }
}

/// The views of files given as path and text.
pub open spec fn text_pairs(v: Seq<(String, String)>) -> Seq<(Seq<char>, Seq<char>)> {
    v.map_values(|p: (String, String)| (p.0@, p.1@))
}

/// The message for a file the archive refused: the README (the first
/// file), or another file named by its path; then the writer's message.
pub open spec fn refusal_message(i: int, path: Seq<char>, cause: Seq<char>) -> Seq<char> {
    if i == 0 {
        "无法添加README文件: "@ + cause
    } else {
        "无法添加文件 "@ + path + ": "@ + cause
    }
}

/// Why writing an archive of `files` failed, as the message `m` says it:
/// file `i`, whose path the archive does not take, was refused.
pub open spec fn archive_failure(files: Seq<(Seq<char>, Seq<char>)>, m: Seq<char>) -> bool {
    exists|i: int, c: Seq<char>|
        0 <= i < files.len() && !tar_path_ok(files[i].0) && m == #[trigger] refusal_message(i, files[i].0, c)
}

/// Whether the archive takes every path of `files`.
pub open spec fn archive_paths_ok(files: Seq<(Seq<char>, Seq<char>)>) -> bool {
    forall|i: int| 0 <= i < files.len() ==> tar_path_ok(#[trigger] files[i].0)
}

/// Writes `files`, in order, into a gzip-compressed tar archive and gives
/// its bytes: where the archive takes every path as it is
/// (`archive_paths_ok`), the archive of `files`; else either the archive
/// of the files at the paths tar records (stated where the paths are
/// portable), or the first refused file, named in the message
/// (`archive_failure`).
pub fn write_archive(files: &Vec<(String, String)>) -> (r: Result<Vec<u8>, String>)
    ensures
        match r {
            Ok(b) => portable_paths(text_pairs(files@)) ==> b@ == tar_gz_archive(stored_entries(text_pairs(files@))),
            Err(m) => archive_failure(text_pairs(files@), m@),
        },
        archive_paths_ok(text_pairs(files@)) ==> (r matches Ok(b) && b@ == tar_gz_archive(
            file_entries(text_pairs(files@)),
        )),
{
    let ghost fv = text_pairs(files@);
    let mut archive = TarGz::new();
    let mut i: usize = 0;
    while i < files.len()
        invariant
            i <= files@.len(),
            fv == text_pairs(files@),
            portable_paths(fv.take(i as int)) ==> tar_entries(archive) == stored_entries(fv.take(i as int)),
            archive_paths_ok(fv.take(i as int)) ==> tar_entries(archive) == file_entries(fv.take(i as int)),
        decreases files.len() - i,
    {
        let path = files[i].0.as_str();
        let contents = files[i].1.as_str();
        assert(fv[i as int] == (path@, contents@));
        let ghost before = tar_entries(archive);
        match archive.add_file(path, contents) {
            Ok(()) => {
                let ghost pre = fv.take(i as int);
                let ghost next = fv.take(i + 1);
                assert(next =~= pre.push(fv[i as int]));
                assert(file_entries(next) =~= file_entries(pre).push(
                    (path@, vstd::utf8::encode_utf8(contents@), FILE_MODE),
                ));
                assert(stored_entries(next) =~= stored_entries(pre).push(
                    (tar_stored_path(path@), vstd::utf8::encode_utf8(contents@), FILE_MODE),
                ));
                proof {
                    if portable_paths(next) {
                        assert(portable_path(next[i as int].0));
                        assert forall|k: int| 0 <= k < pre.len() implies portable_path(#[trigger] pre[k].0) by {
                            assert(pre[k] == next[k]);
                        }
                    }
                    if archive_paths_ok(next) {
                        assert(tar_path_ok(next[i as int].0));
                        assert forall|k: int| 0 <= k < pre.len() implies tar_path_ok(#[trigger] pre[k].0) by {
                            assert(pre[k] == next[k]);
                        }
                    }
                }
            },
            Err(m) => {
                let mut msg = if i == 0 {
                    "无法添加README文件: ".to_owned()
                } else {
                    let mut t = "无法添加文件 ".to_owned();
                    crate::text::push_str(&mut t, path);
                    crate::text::push_str(&mut t, ": ");
                    t
                };
                crate::text::push_str(&mut msg, m.as_str());
                assert(msg@ == refusal_message(i as int, fv[i as int].0, m@));
                assert(!tar_path_ok(fv[i as int].0));
                return Err(msg);
            },
        }
        i += 1;
    }
    assert(fv.take(fv.len() as int) =~= fv);
    match archive.finish() {
        Ok(bytes) => Ok(bytes),
        Err(FinishError::Tar(m)) => Err(m),
        Err(FinishError::Gzip(m)) => Err(m),
    }
}

} // verus!
