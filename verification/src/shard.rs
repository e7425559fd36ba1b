use vstd::prelude::*;
use crate::digest::hex_bytes_of;
use crate::digest::hex_sha256;
use crate::digest::sha256_of;

verus! {

/// How the shard key for a file is chosen: from its base name, or from a
/// hash of its contents.
#[derive(Copy, Clone, Debug, PartialEq, Eq, Structural)]
pub enum ShardMode {
    Filename,
    Content,
}

/// Lowercases a single byte if it is an ASCII uppercase letter, and leaves
/// every other byte unchanged. Shard keys are treated as byte strings:
/// the prefix length counts bytes, and lowercasing folds ASCII letters only,
/// so a non-ASCII byte passes through untouched.
pub open spec fn ascii_lower_byte(b: u8) -> u8 {
    if 0x41 <= b && b <= 0x5a {
        (b + 0x20) as u8
    } else {
        b
    }
}

/// The byte string with every ASCII uppercase letter folded to lowercase.
pub open spec fn ascii_lower(s: Seq<u8>) -> Seq<u8> {
    s.map_values(|b: u8| ascii_lower_byte(b))
}

/// The number of bytes a shard prefix keeps: the configured length, capped
/// by the length of the key itself.
pub open spec fn prefix_len(key_len: nat, shard_len: nat) -> nat {
    if shard_len < key_len {
        shard_len
    } else {
        key_len
    }
}

/// The shard prefix of a key: its first `min(shard_len, |key|)` bytes,
/// lowercased. A key shorter than `shard_len` is used whole; `shard_len == 0`
/// yields the empty prefix.
pub open spec fn shard_prefix_spec(key: Seq<u8>, shard_len: nat) -> Seq<u8> {
    ascii_lower(key.take(prefix_len(key.len(), shard_len) as int))
}

/// Computes the shard prefix of `key`.
pub fn shard_prefix(key: &[u8], shard_len: usize) -> (r: Vec<u8>)
    ensures
        r@ == shard_prefix_spec(key@, shard_len as nat),
{
    let n: usize = if shard_len < key.len() {
        shard_len
    } else {
        key.len()
    };
    let mut out: Vec<u8> = Vec::new();
    let mut i: usize = 0;
    while i < n
        invariant
            i <= n,
            n == prefix_len(key@.len(), shard_len as nat),
            n <= key@.len(),
            out@.len() == i,
            forall|j: int| 0 <= j < i ==> out@[j] == ascii_lower_byte(key@[j]),
        decreases n - i,
    {
        let b: u8 = key[i];
        let lb: u8 = if 0x41 <= b && b <= 0x5a {
            b + 0x20
        } else {
            b
        };
        out.push(lb);
        i = i + 1;
    }
    proof {
        assert(out@ =~= shard_prefix_spec(key@, shard_len as nat));
    }
    out
}

/// The produced shard directory name is never longer than the configured
/// `shard_len`, and is exactly `shard_len` bytes unless the key itself was
/// shorter.
pub proof fn lemma_prefix_bound(key: Seq<u8>, shard_len: nat)
    ensures
        shard_prefix_spec(key, shard_len).len() <= shard_len,
        key.len() >= shard_len ==> shard_prefix_spec(key, shard_len).len() == shard_len,
        key.len() < shard_len ==> shard_prefix_spec(key, shard_len).len() == key.len(),
{
}

/// Whether an entry's extension matches the configured target extension,
/// case-sensitively. An entry without an extension never matches.
pub open spec fn extension_matches(ext: Option<Seq<u8>>, file_type: Seq<u8>) -> bool {
    match ext {
        Some(e) => e == file_type,
        None => false,
    }
}

/// Decides whether a file with extension `ext` (`None` when the name has no
/// extension) survives the filter for the configured `file_type`.
pub fn matches_extension(ext: &Option<Vec<u8>>, file_type: &Vec<u8>) -> (r: bool)
    ensures
        r == extension_matches(opt_bytes_view(*ext), file_type@),
{
    match ext {
        Some(e) => eq_bytes(e.as_slice(), file_type.as_slice()),
        None => false,
    }
}

/// The sequence view of an optional byte vector.
pub open spec fn opt_bytes_view(o: Option<Vec<u8>>) -> Option<Seq<u8>> {
    match o {
        Some(v) => Some(v@),
        None => None,
    }
}

/// Byte-string equality.
pub fn eq_bytes(a: &[u8], b: &[u8]) -> (r: bool)
    ensures
        r == (a@ == b@),
{
    if a.len() != b.len() {
        return false;
    }
    let mut i: usize = 0;
    while i < a.len()
        invariant
            i <= a.len(),
            a@.len() == b@.len(),
            forall|j: int| 0 <= j < i ==> a@[j] == b@[j],
        decreases a@.len() - i,
    {
        if a[i] != b[i] {
            return false;
        }
        i = i + 1;
    }
    proof {
        assert(a@ =~= b@);
    }
    true
}

/// The shard key of a file: its base name verbatim in filename mode, the
/// lowercase hex SHA-256 digest of its contents in content mode.
pub open spec fn shard_key_spec(mode: ShardMode, name: Seq<u8>, content: Seq<u8>) -> Seq<u8> {
    match mode {
        ShardMode::Filename => name,
        ShardMode::Content => hex_bytes_of(sha256_of(content)),
    }
}

/// Computes the shard key for a file with base name `name` and contents
/// `content` under the given mode.
pub fn shard_key(mode: ShardMode, name: &[u8], content: &[u8]) -> (r: Vec<u8>)
    ensures
        r@ == shard_key_spec(mode, name@, content@),
{
    match mode {
        ShardMode::Filename => copy_bytes(name),
        ShardMode::Content => hex_sha256(content),
    }
}

/// A fresh vector holding the same bytes.
pub fn copy_bytes(src: &[u8]) -> (r: Vec<u8>)
    ensures
        r@ == src@,
{
    let mut out: Vec<u8> = Vec::new();
    let mut i: usize = 0;
    while i < src.len()
        invariant
            i <= src@.len(),
            out@.len() == i,
            forall|j: int| 0 <= j < i ==> out@[j] == src@[j],
        decreases src@.len() - i,
    {
        out.push(src[i]);
        i = i + 1;
    }
    proof {
        assert(out@ =~= src@);
    }
    out
}

/// In content mode the shard key, and with it the shard prefix, depends on
/// the file's bytes alone: two files with identical contents receive the
/// same prefix whatever their names are.
pub proof fn lemma_content_key_stable(
    name1: Seq<u8>,
    name2: Seq<u8>,
    content: Seq<u8>,
    shard_len: nat,
)
    ensures
        shard_key_spec(ShardMode::Content, name1, content) == shard_key_spec(
            ShardMode::Content,
            name2,
            content,
        ),
        shard_prefix_spec(shard_key_spec(ShardMode::Content, name1, content), shard_len)
            == shard_prefix_spec(shard_key_spec(ShardMode::Content, name2, content), shard_len),
{
}

/// In content mode, two files whose full shard keys agree have colliding
/// SHA-256 digests, whatever their names: with the digests treated as
/// collision-free, equal full keys come from equal contents only.
pub proof fn lemma_equal_content_keys_collide(
    name1: Seq<u8>,
    name2: Seq<u8>,
    c1: Seq<u8>,
    c2: Seq<u8>,
)
    requires
        shard_key_spec(ShardMode::Content, name1, c1) == shard_key_spec(
            ShardMode::Content,
            name2,
            c2,
        ),
    ensures
        sha256_of(c1) == sha256_of(c2),
{
    crate::digest::lemma_hex_bytes_injective(sha256_of(c1), sha256_of(c2));
}

} // verus!
