//! Calls into the hashing and compression crates and into parts of std that vstd does not
//! specify, with the facts this library relies on.

use vstd::prelude::*;

verus! {

/// The BLAKE3 digest of a byte string.
pub uninterp spec fn blake3_digest(data: Seq<u8>) -> Seq<u8>;

/// The bytes obtained by decompressing a zstd stream, or `None` when the bytes are not a valid
/// zstd stream.
pub uninterp spec fn zstd_decoded(data: Seq<u8>) -> Option<Seq<u8>>;

/// The bytes written so far into a streaming zstd encoder.
pub uninterp spec fn zstd_pending(encoder: ZstdStream) -> Seq<u8>;

/// The compression level a streaming zstd encoder was made with.
pub uninterp spec fn zstd_level(encoder: ZstdStream) -> i32;

/// Whether a streaming zstd encoder writes a content checksum at the end of its frame.
pub uninterp spec fn zstd_checksum(encoder: ZstdStream) -> bool;

/// The zstd frame that `Encoder::finish` produces for the bytes `data` at compression level
/// `level`, with or without a content checksum. zstd compresses deterministically for fixed
/// parameters, so the frame depends on these alone.
pub uninterp spec fn zstd_frame(level: i32, checksum: bool, data: Seq<u8>) -> Seq<u8>;

/// No data, not even an empty write, has been handed to a streaming zstd encoder yet, so its
/// context is still in the stage where frame parameters may be set.
pub uninterp spec fn zstd_fresh(encoder: ZstdStream) -> bool;

/// A streaming zstd encoder writing into an in-memory buffer. The encoder type cannot be
/// declared directly (its writer bound names `std::io::Write`), so it is held here.
#[verifier::external_body]
pub struct ZstdStream {
    encoder: zstd::stream::Encoder<'static, Vec<u8>>,
}

/// `blake3::hash`: the 32-byte BLAKE3 digest of `data`, a function of the input bytes alone.
#[verifier::external_body]
pub(crate) fn blake3_hash(data: &[u8]) -> (r: [u8; 32])
    ensures
        r@ == blake3_digest(data@),
{
    *blake3::hash(data).as_bytes()
}

/// `zstd::stream::Encoder::new` over an empty `Vec`. Setting the level of a fresh context only
/// clamps it and loading the empty dictionary does nothing, so the call succeeds; the encoder
/// is fresh, with the given level, no checksum, and nothing written yet.
#[verifier::external_body]
pub(crate) fn zstd_encoder_new(level: i32) -> (r: Option<ZstdStream>)
    ensures
        r is Some,
        r matches Some(e) ==> zstd_pending(e) == Seq::<u8>::empty() && zstd_level(e) == level && !zstd_checksum(e)
            && zstd_fresh(e),
{
    zstd::stream::Encoder::new(Vec::new(), level).ok().map(|encoder| ZstdStream { encoder })
}

/// `Encoder::include_checksum`: sets the checksum parameter of the frame and writes no data; a
/// refused setting leaves the encoder as it was. zstd accepts the setting on a fresh context,
/// since the checksum flag has bounds 0 and 1 and the context is still in its init stage.
#[verifier::external_body]
pub(crate) fn zstd_include_checksum(stream: &mut ZstdStream, flag: bool) -> (r: bool)
    ensures
        zstd_fresh(*old(stream)) ==> r,
        zstd_fresh(*final(stream)) == zstd_fresh(*old(stream)),
        zstd_pending(*final(stream)) == zstd_pending(*old(stream)),
        zstd_level(*final(stream)) == zstd_level(*old(stream)),
        zstd_checksum(*final(stream)) == if r { flag } else { zstd_checksum(*old(stream)) },
{
    stream.encoder.include_checksum(flag).is_ok()
}

/// `std::io::Write::write_all` on the encoder: the bytes are appended to the encoder's input.
/// The encoder writes its output into a `Vec`, which accepts every write, and compressing with
/// the encoder's own parameters raises no error, so the write succeeds. Writing changes no
/// parameter of the frame.
#[verifier::external_body]
pub(crate) fn zstd_write_all(stream: &mut ZstdStream, data: &[u8]) -> (r: bool)
    ensures
        r,
        zstd_pending(*final(stream)) == zstd_pending(*old(stream)) + data@,
        zstd_level(*final(stream)) == zstd_level(*old(stream)),
        zstd_checksum(*final(stream)) == zstd_checksum(*old(stream)),
{
    std::io::Write::write_all(&mut stream.encoder, data).is_ok()
}

/// `Encoder::finish`: ends the frame into the in-memory `Vec`, which cannot fail; the returned
/// frame is the one zstd produces for the bytes written at the encoder's level and checksum
/// setting, and it decompresses to exactly those bytes.
#[verifier::external_body]
pub(crate) fn zstd_finish(stream: ZstdStream) -> (r: Option<Vec<u8>>)
    ensures
        r is Some,
        r matches Some(out) ==> out@ == zstd_frame(zstd_level(stream), zstd_checksum(stream), zstd_pending(stream))
            && zstd_decoded(out@) == Some(zstd_pending(stream)),
{
    stream.encoder.finish().ok()
}

/// `zstd::stream::decode_all`: succeeds exactly on valid zstd streams and returns their content.
#[verifier::external_body]
pub(crate) fn zstd_decode_all(data: &[u8]) -> (r: Option<Vec<u8>>)
    ensures
        match zstd_decoded(data@) {
            Some(content) => r matches Some(v) && v@ == content,
            None => r is None,
        },
{
    zstd::stream::decode_all(std::io::Cursor::new(data)).ok()
}

/// `String::push`: appends one character.
#[verifier::external_body]
pub(crate) fn string_push(s: &mut String, c: char)
    ensures
        final(s)@ == old(s)@.push(c),
{
    s.push(c);
}

/// `String::push_str`: appends a string slice.
#[verifier::external_body]
pub(crate) fn string_push_str(s: &mut String, t: &str)
    ensures
        final(s)@ == old(s)@ + t@,
{
    s.push_str(t);
}

/// Text spelling a path that every platform reads as one file name: not empty, neither `.` nor
/// `..`, and free of `/`, `\` and `:`, so that no platform finds a separator or a prefix in it.
pub open spec fn plain_file_name(s: Seq<char>) -> bool {
    &&& s.len() > 0
    &&& s != "."@
    &&& s != ".."@
    &&& forall|i: int| 0 <= i < s.len() ==> s[i] != '/' && s[i] != '\\' && s[i] != ':'
}

/// The index of the last `.` in a file name, or -1 when it has none.
pub open spec fn last_dot(s: Seq<char>) -> int
    decreases s.len(),
{
    if s.len() == 0 {
        -1
    } else if s.last() == '.' {
        s.len() - 1
    } else {
        last_dot(s.drop_last())
    }
}

/// The extension of a file name as `Path::extension` documents it: none without an embedded
/// `.`, none when the only `.` begins the name, and otherwise the text after the final `.`.
pub open spec fn name_extension(s: Seq<char>) -> Option<Seq<char>> {
    if last_dot(s) <= 0 {
        None
    } else {
        Some(s.subrange(last_dot(s) + 1, s.len() as int))
    }
}

/// An optional text by its characters.
pub open spec fn option_text(o: Option<String>) -> Option<Seq<char>> {
    match o {
        Some(t) => Some(t@),
        None => None,
    }
}

/// The extension that `Path::extension` finds in the path spelled by `text`, as text, on the
/// platform the library is built for; it depends on nothing else.
pub uninterp spec fn path_ext(text: Seq<char>) -> Option<Seq<char>>;

/// The final component that `Path::file_name` finds in the path spelled by `text`, as text, on
/// the platform the library is built for; it depends on nothing else.
pub uninterp spec fn path_file(text: Seq<char>) -> Option<Seq<char>>;

/// `Path::extension` of the path spelled by `path`, as text. How a path splits into components
/// depends on the platform, so the result is named; of a plain file name, which is its own final
/// component everywhere, the extension is the one `Path::extension` documents.
#[verifier::external_body]
pub(crate) fn path_extension(path: &str) -> (r: Option<String>)
    ensures
        option_text(r) == path_ext(path@),
        plain_file_name(path@) ==> option_text(r) == name_extension(path@),
{
    std::path::Path::new(path).extension().and_then(|e| e.to_str()).map(|e| e.to_owned())
}

/// `Path::file_name` of the path spelled by `path`, as text; the path is text already, so the
/// conversion loses nothing. How a path splits into components depends on the platform, so the
/// result is named; a plain file name is its own file name everywhere.
#[verifier::external_body]
pub(crate) fn path_file_name(path: &str) -> (r: Option<String>)
    ensures
        option_text(r) == path_file(path@),
        plain_file_name(path@) ==> option_text(r) == Some(path@),
{
    std::path::Path::new(path).file_name().map(|n| n.to_string_lossy().into_owned())
}

/// Lexicographic order of texts by character, which is the order of their UTF-8 bytes.
pub open spec fn text_lt(a: Seq<char>, b: Seq<char>) -> bool
    decreases a.len(),
{
    if a.len() == 0 {
        b.len() > 0
    } else if b.len() == 0 {
        false
    } else if a[0] != b[0] {
        (a[0] as u32) < (b[0] as u32)
    } else {
        text_lt(a.drop_first(), b.drop_first())
    }
}

/// `std::path::PathBuf`, carried through unchanged.
#[verifier::external_type_specification]
#[verifier::external_body]
pub struct ExPathBuf(std::path::PathBuf);

/// The path that `Path::join` builds from `base` and the text `name`, on the platform the
/// library is built for; it depends on nothing else.
pub uninterp spec fn joined_path(base: std::path::PathBuf, name: Seq<char>) -> std::path::PathBuf;

/// `Path::join`: the path `name` below `base`. How paths join depends on the platform, so the
/// result is named, not spelled out.
#[verifier::external_body]
pub(crate) fn path_join(base: &std::path::PathBuf, name: &str) -> (r: std::path::PathBuf)
    ensures
        r == joined_path(*base, name@),
{
    base.join(name)
}

/// The kind of one component of a path, as `Path::components` reports it.
#[derive(Clone, Copy, Debug, PartialEq, Eq, Structural)]
pub enum PathComponentKind {
    Prefix,
    RootDir,
    CurDir,
    ParentDir,
    Normal,
}

/// The kinds of the components that `Path::components` finds in the path spelled by `text`, in
/// order, on the platform the library is built for; they depend on nothing else.
pub uninterp spec fn path_components(text: Seq<char>) -> Seq<PathComponentKind>;

/// `Path::components` of the path spelled by `path`, each component by its kind. Component
/// splitting depends on the platform, so the result is named; on every platform a plain file
/// name is one normal component, and a path that is one normal component is not empty and is
/// neither `.` nor `..`.
#[verifier::external_body]
pub(crate) fn path_component_kinds(path: &str) -> (r: Vec<PathComponentKind>)
    ensures
        r@ == path_components(path@),
        plain_file_name(path@) ==> r@ == seq![PathComponentKind::Normal],
        r@ == seq![PathComponentKind::Normal] ==> path@.len() > 0 && path@ != "."@ && path@ != ".."@,
{
    let mut kinds = Vec::new();
    for c in std::path::Path::new(path).components() {
        kinds.push(match c {
            std::path::Component::Prefix(_) => PathComponentKind::Prefix,
            std::path::Component::RootDir => PathComponentKind::RootDir,
            std::path::Component::CurDir => PathComponentKind::CurDir,
            std::path::Component::ParentDir => PathComponentKind::ParentDir,
            std::path::Component::Normal(_) => PathComponentKind::Normal,
        });
    }
    kinds
}

/// `slice::sort` on texts: the same texts, in ascending order.
#[verifier::external_body]
pub(crate) fn sort_texts(v: &mut Vec<String>)
    ensures
        final(v)@.map_values(|s: String| s@).to_multiset() == old(v)@.map_values(|s: String| s@).to_multiset(),
        forall|i: int, j: int| 0 <= i < j < final(v)@.len() ==> !text_lt(#[trigger] final(v)@[j]@, #[trigger] final(v)@[i]@),
{
    v.sort();
}

/// `Clone` for `PathBuf`: a copy of the path; nothing is stated of it.
pub assume_specification[ <std::path::PathBuf as Clone>::clone ](p: &std::path::PathBuf) -> std::path::PathBuf;

/// The duration of `secs` whole seconds.
pub uninterp spec fn duration_of_secs(secs: u64) -> core::time::Duration;

/// `Duration::from_secs`: the duration of whole seconds, a function of the count alone.
pub assume_specification[ core::time::Duration::from_secs ](secs: u64) -> (r: core::time::Duration)
    ensures
        r == duration_of_secs(secs),
;

/// `Clone` for `Duration`: a copy of the duration; nothing is stated of it.
pub assume_specification[ <core::time::Duration as Clone>::clone ](d: &core::time::Duration) -> core::time::Duration;

/// The `Debug` text of a path: the path quoted and escaped as std writes it, a function of the
/// path alone.
pub uninterp spec fn path_debug(path: std::path::PathBuf) -> Seq<char>;

/// The `Debug` text of a path, as `format!("{:?}", path)` writes it. How a path is quoted and
/// escaped is left to std, so the text is named, not spelled out.
#[verifier::external_body]
pub(crate) fn path_debug_text(path: &std::path::PathBuf) -> (r: String)
    ensures
        r@ == path_debug(*path),
{
    format!("{:?}", path)
}

} // verus!
