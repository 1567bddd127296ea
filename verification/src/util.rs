//! Content hashing and the identifiers derived from it.

use vstd::prelude::*;
use vstd::slice::slice_subrange;
use vstd::utf8::{decode_utf8, encode_utf8, is_char_boundary};


verus! {

/// The BLAKE3 digest of a byte sequence, as `blake3::hash` computes it.
pub uninterp spec fn blake3_digest(data: Seq<u8>) -> Seq<u8>;

/// The number of bytes in a digest.
pub const DIGEST_LEN: usize = 32;

/// The number of hex digits in a project or record identifier.
pub const SHORT_ID_LEN: usize = 12;

/// The lowercase hex digit of a nibble.
pub open spec fn hex_digit(n: int) -> char {
    seq!['0', '1', '2', '3', '4', '5', '6', '7', '8', '9', 'a', 'b', 'c', 'd', 'e', 'f'][n]
}

/// The lowercase hex encoding of `data`: two digits for each byte, the high
/// nibble first.
pub open spec fn hex_lower(data: Seq<u8>) -> Seq<char> {
    Seq::new(
        2 * data.len(),
        |i: int|
            if i % 2 == 0 {
                hex_digit(data[i / 2] as int / 16)
            } else {
                hex_digit(data[i / 2] as int % 16)
            },
    )
}

/// The hex digest that identifies a blob with the given content.
pub open spec fn content_hash(data: Seq<u8>) -> Seq<char> {
    hex_lower(blake3_digest(data))
}

/// The identifier derived from a digest: the first twelve digits of its hex
/// encoding, or all of them if it has fewer.
pub open spec fn short_id_of(digest: Seq<u8>) -> Seq<char> {
    if digest.len() >= 6 {
        hex_lower(digest).take(12)
    } else {
        hex_lower(digest)
    }
}

/// The project id of a canonical root path.
pub open spec fn project_id_of(canonical_root: Seq<char>) -> Seq<char> {
    short_id_of(blake3_digest(encode_utf8(canonical_root)))
}

/// Whether a hash has a two-byte prefix that is text of its own.
pub open spec fn has_shard(sha: Seq<char>) -> bool {
    is_char_boundary(encode_utf8(sha), 2)
}

/// The directory name a blob is sharded under: the first two bytes of its
/// hash.
pub open spec fn shard_of(sha: Seq<char>) -> Seq<char> {
    decode_utf8(encode_utf8(sha).subrange(0, 2))
}

/// Every digit of a hex encoding is an ASCII character.
pub proof fn lemma_hex_is_ascii(data: Seq<u8>)
    ensures
        vstd::utf8::is_ascii_chars(hex_lower(data)),
{
    assert forall|n: int| 0 <= n < 16 implies '\0' <= #[trigger] hex_digit(n) <= '\u{7f}' by {
        if n < 4 {
        } else if n < 8 {
        } else if n < 12 {
        }
    }
    let hex = hex_lower(data);
    assert forall|i: int| 0 <= i < hex.len() implies '\0' <= #[trigger] hex[i] <= '\u{7f}' by {
        let byte = data[i / 2] as int;
        assert(0 <= byte / 16 < 16);
        assert(0 <= byte % 16 < 16);
    }
}

/// The hex encoding of at least one byte has a two-byte prefix to shard a
/// blob by.
pub proof fn lemma_hex_has_shard(data: Seq<u8>)
    requires
        data.len() >= 1,
    ensures
        has_shard(hex_lower(data)),
{
    let hex = hex_lower(data);
    let bytes = encode_utf8(hex);
    lemma_hex_is_ascii(data);
    vstd::utf8::is_ascii_chars_encode_utf8(hex);
    vstd::utf8::encode_utf8_valid_utf8(hex);
    if bytes.len() == 2 {
        vstd::utf8::is_char_boundary_start_end_of_seq(bytes);
    } else {
        vstd::utf8::is_char_boundary_iff_not_is_continuation_byte(bytes, 2);
        assert(hex[2] as u8 == bytes[2]);
        assert('\0' <= hex[2] <= '\u{7f}');
        vstd::utf8::is_ascii_chars_nat_bound(hex);
        assert((hex[2] as nat) < 128);
    }
}

/// `blake3::hash`, with the digest copied out of `Hash::as_bytes`. The digest
/// is a function of the input alone and is always 32 bytes long.
#[verifier::external_body]
pub(crate) fn blake3_hash(data: &[u8]) -> (digest: Vec<u8>)
    ensures
        digest@ == blake3_digest(data@),
        digest@.len() == DIGEST_LEN,
{
    blake3::hash(data).as_bytes().to_vec()
}

/// `hex::encode`: each byte becomes two lowercase hex digits, the high nibble
/// first.
#[verifier::external_body]
fn hex_encode(data: &[u8]) -> (s: String)
    ensures
        s@ == hex_lower(data@),
{
    hex::encode(data)
}

/// The hex encoding of a prefix is a prefix of the hex encoding.
pub proof fn lemma_hex_lower_take(data: Seq<u8>, n: int)
    requires
        0 <= n <= data.len(),
    ensures
        hex_lower(data.take(n)) == hex_lower(data).take(2 * n),
{
    assert(hex_lower(data.take(n)) =~= hex_lower(data).take(2 * n));
}

/// Hex-encodes a whole digest.
pub fn digest_to_hex(digest: &[u8]) -> (s: String)
    ensures
        s@ == hex_lower(digest@),
{
    hex_encode(digest)
}

/// The short identifier of a digest.
pub fn short_id(digest: &[u8]) -> (s: String)
    ensures
        s@ == short_id_of(digest@),
{
    if digest.len() >= 6 {
        proof {
            lemma_hex_lower_take(digest@, 6);
        }
        hex_encode(slice_subrange(digest, 0, 6))
    } else {
        hex_encode(digest)
    }
}

/// The hex digest of `bytes`: the identity of a blob.
pub fn hash_bytes(bytes: &[u8]) -> (h: String)
    ensures
        h@ == content_hash(bytes@),
        h@.len() == 2 * DIGEST_LEN,
        has_shard(h@),
{
    let digest = blake3_hash(bytes);
    proof {
        lemma_hex_has_shard(digest@);
    }
    digest_to_hex(digest.as_slice())
}

/// The project id of an already canonical root path.
pub fn compute_project_id(canonical_root: &str) -> (id: String)
    ensures
        id@ == project_id_of(canonical_root@),
        id@.len() == SHORT_ID_LEN,
{
    let digest = blake3_hash(canonical_root.as_bytes());
    short_id(digest.as_slice())
}

/// The version of the tool that writes records.
pub const TOOL_VERSION: &'static str = "0.1.0";

/// The version of the tool that writes records.
pub fn tool_version() -> (v: String)
    ensures
        v@ == TOOL_VERSION@,
{
    TOOL_VERSION.to_owned()
}

/// What is left of a path once a base is taken off its front, as
/// `std::path::Path::strip_prefix` finds it: the names of the path that
/// follow those of the base, or nothing where the path does not begin with
/// the names of the base.
pub uninterp spec fn path_relative(base: Seq<char>, path: Seq<char>) -> Option<Seq<char>>;

/// `std::path::Path::strip_prefix`, from text to text. What comes back
/// depends on the two paths alone.
#[verifier::external_body]
fn strip_path_prefix(path: &str, base: &str) -> (r: Option<String>)
    ensures
        crate::models::opt_str_view(r) == path_relative(base@, path@),
{
    let below = std::path::Path::new(path).strip_prefix(base).ok();
    below.map(|p| p.to_string_lossy().into_owned())
}

/// The path of a file relative to the project root, if it lies below it.
pub fn relative_path(project_root: &str, path: &str) -> (r: Option<String>)
    ensures
        crate::models::opt_str_view(r) == path_relative(project_root@, path@),
{
    strip_path_prefix(path, project_root)
}

} // verus!
