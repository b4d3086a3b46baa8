//! The calls into gix, similar and the standard library that this crate relies on without
//! proof. Object ids are SHA-1 digests, as raw bytes.
use vstd::prelude::*;
use vstd::utf8::{decode_utf8, valid_utf8};

verus! {

/// `String::push` appends the given character to the end of the string.
pub assume_specification[ String::push ](s: &mut String, ch: char)
    ensures
        final(s)@ == old(s)@.push(ch),
;

/// A filesystem path. It is only handed on to the platform.
#[verifier::external_type_specification]
#[verifier::external_body]
pub struct ExPathBuf(std::path::PathBuf);

/// The bytes of an optional buffer.
pub open spec fn opt_bytes(r: Option<Vec<u8>>) -> Option<Seq<u8>> {
    match r {
        Some(v) => Some(v@),
        None => None,
    }
}

/// One entry of a decoded git tree.
#[derive(Debug)]
pub struct TreeEntry {
    /// Whether the entry is a tree itself.
    pub is_tree: bool,
    /// The file name; bytes that are not UTF-8 show as replacement characters.
    pub name: String,
    /// The id of the object that the entry names.
    pub oid: Vec<u8>,
}

/// The entries of an optional list.
pub open spec fn opt_entries(r: Option<Vec<TreeEntry>>) -> Option<
    Seq<(bool, Seq<char>, Seq<u8>)>,
> {
    match r {
        Some(v) => Some(v@.map_values(|e: TreeEntry| (e.is_tree, e.name@, e.oid@))),
        None => None,
    }
}

/// What a commit points at.
#[derive(Debug)]
pub struct CommitLinks {
    /// The tree of the commit.
    pub tree: Vec<u8>,
    /// The parents of the commit, in their order.
    pub parents: Vec<Vec<u8>>,
}

/// The tree and the parents of an optional commit.
pub open spec fn opt_links(r: Option<CommitLinks>) -> Option<(Seq<u8>, Seq<Seq<u8>>)> {
    match r {
        Some(c) => Some((c.tree@, c.parents@.map_values(|p: Vec<u8>| p@))),
        None => None,
    }
}

/// The value of a hexadecimal digit, or 16 for any other byte.
pub open spec fn hex_value(b: u8) -> int {
    if 0x30 <= b <= 0x39 {
        b - 0x30
    } else if 0x61 <= b <= 0x66 {
        b - 0x61 + 10
    } else if 0x41 <= b <= 0x46 {
        b - 0x41 + 10
    } else {
        16
    }
}

/// The lower-case hexadecimal digit of `n`, for `n` below 16.
pub open spec fn hex_digit(n: int) -> char {
    if n < 10 {
        (0x30 + n) as char
    } else {
        (0x61 + n - 10) as char
    }
}

/// `bytes` in lower-case hexadecimal digits, two for each byte.
pub open spec fn hex(bytes: Seq<u8>) -> Seq<char> {
    Seq::new(
        2 * bytes.len(),
        |i: int|
            if i % 2 == 0 {
                hex_digit(bytes[i / 2] as int / 16)
            } else {
                hex_digit(bytes[i / 2] as int % 16)
            },
    )
}

/// Whether `text` holds the 40 hexadecimal digits of an object id.
pub open spec fn is_hex_id(text: Seq<u8>) -> bool {
    text.len() == 40 && forall|i: int| 0 <= i < 40 ==> hex_value(#[trigger] text[i]) < 16
}

/// The bytes that the digits `text` stand for.
pub open spec fn unhex(text: Seq<u8>) -> Seq<u8> {
    Seq::new(
        text.len() / 2,
        |i: int| (16 * hex_value(text[2 * i]) + hex_value(text[2 * i + 1])) as u8,
    )
}

/// The id that git gives to a blob with the content `data`; `None` where SHA-1 collision
/// detection rejects the content.
pub uninterp spec fn blob_digest(data: Seq<u8>) -> Option<Seq<u8>>;

/// Calls `gix::objs::compute_hash` for a blob. Its result depends on the content alone and is
/// named `blob_digest`; a digest has 20 bytes.
#[verifier::external_body]
pub(crate) fn compute_blob_digest(data: &[u8]) -> (r: Option<Vec<u8>>)
    ensures
        opt_bytes(r) == blob_digest(data@),
        r matches Some(d) ==> d@.len() == 20,
{
    gix::objs::compute_hash(gix::hash::Kind::Sha1, gix::objs::Kind::Blob, data)
        .ok()
        .map(|id| id.as_slice().to_vec())
}

/// Calls `gix::ObjectId::to_string`, which writes the 20 bytes of the id as lower-case
/// hexadecimal digits.
#[verifier::external_body]
pub(crate) fn id_to_hex(id: &[u8]) -> (r: String)
    requires
        id@.len() == 20,
    ensures
        r@ == hex(id@),
{
    gix::ObjectId::from_bytes_or_panic(id).to_string()
}

/// Calls `gix::ObjectId::from_hex`, which takes exactly 40 hexadecimal digits of either case
/// and returns the bytes that they stand for.
#[verifier::external_body]
pub(crate) fn id_from_hex(text: &[u8]) -> (r: Option<Vec<u8>>)
    ensures
        r is Some == is_hex_id(text@),
        r matches Some(id) ==> id@ == unhex(text@),
{
    gix::ObjectId::from_hex(text).ok().map(|id| id.as_slice().to_vec())
}

/// Calls `gix::ObjectId::empty_tree`, which returns the well-known id of the tree without entries.
#[verifier::external_body]
pub(crate) fn empty_tree_id() -> (r: Vec<u8>)
    ensures
        r@.len() == 20,
        hex(r@) == "4b825dc642cb6eb9a060e54bf8d69288fbee4904"@,
{
    gix::ObjectId::empty_tree(gix::hash::Kind::Sha1).as_slice().to_vec()
}

/// The entries of the git tree object `data`, in their order; `None` if it is malformed.
pub uninterp spec fn tree_entries(data: Seq<u8>) -> Option<Seq<(bool, Seq<char>, Seq<u8>)>>;

/// Calls `gix::objs::TreeRef::from_bytes`. The entries depend on the bytes alone and are named
/// `tree_entries`; every object id has 20 bytes.
#[verifier::external_body]
pub(crate) fn decode_tree(data: &[u8]) -> (r: Option<Vec<TreeEntry>>)
    ensures
        opt_entries(r) == tree_entries(data@),
        r matches Some(v) ==> forall|i: int|
            0 <= i < v@.len() ==> (#[trigger] v@[i]).oid@.len() == 20,
{
    let tree = gix::objs::TreeRef::from_bytes(data, gix::hash::Kind::Sha1).ok()?;
    Some(
        tree.entries
            .iter()
            .map(|e| TreeEntry {
                is_tree: e.mode.is_tree(),
                name: e.filename.to_string(),
                oid: e.oid.as_bytes().to_vec(),
            })
            .collect(),
    )
}

/// The tree and the parents that the git commit object `data` names; `None` if it is malformed.
pub uninterp spec fn commit_links(data: Seq<u8>) -> Option<(Seq<u8>, Seq<Seq<u8>>)>;

/// Calls `gix::objs::CommitRef::from_bytes`. The links depend on the bytes alone and are named
/// `commit_links`.
#[verifier::external_body]
pub(crate) fn decode_commit(data: &[u8]) -> (r: Option<CommitLinks>)
    ensures
        opt_links(r) == commit_links(data@),
{
    let commit = gix::objs::CommitRef::from_bytes(data, gix::hash::Kind::Sha1).ok()?;
    Some(CommitLinks {
        tree: commit.tree().as_slice().to_vec(),
        parents: commit.parents().map(|p| p.as_slice().to_vec()).collect(),
    })
}

/// The unified diff, with three lines of context, that turns the lines of `old` into those of
/// `new`, under the file names `old_name` and `new_name`.
pub uninterp spec fn line_diff(
    old: Seq<char>,
    new: Seq<char>,
    old_name: Seq<char>,
    new_name: Seq<char>,
) -> Seq<char>;

/// The two lines that head a unified diff.
pub open spec fn diff_header(old_name: Seq<char>, new_name: Seq<char>) -> Seq<char> {
    seq!['-', '-', '-', ' '] + old_name + seq!['\n', '+', '+', '+', ' '] + new_name + seq!['\n']
}

/// Calls `similar::TextDiff::from_lines`, `unified_diff`, `header` and `to_string`. The text
/// depends on the four arguments alone and is named `line_diff`. Texts that differ give a diff
/// that is not empty, and such a diff starts with the two lines that name the files.
#[verifier::external_body]
pub(crate) fn unified_diff(old: &str, new: &str, old_name: &str, new_name: &str) -> (r: String)
    ensures
        r@ == line_diff(old@, new@, old_name@, new_name@),
        old@ != new@ ==> r@.len() > 0,
        r@.len() > 0 ==> diff_header(old_name@, new_name@).is_prefix_of(r@),
{
    similar::TextDiff::from_lines(old, new).unified_diff().header(old_name, new_name).to_string()
}

/// Calls `std::str::from_utf8`, which accepts exactly the valid UTF-8 and returns the text that
/// it encodes.
#[verifier::external_body]
pub(crate) fn utf8_text(bytes: &[u8]) -> (r: Option<&str>)
    ensures
        r is Some == valid_utf8(bytes@),
        r matches Some(t) ==> t@ == decode_utf8(bytes@),
{
    std::str::from_utf8(bytes).ok()
}

/// `bytes` read as UTF-8, with replacement characters for what is not valid.
pub uninterp spec fn lossy_utf8(bytes: Seq<u8>) -> Seq<char>;

/// Calls `String::from_utf8_lossy`. The text depends on the bytes alone and is named
/// `lossy_utf8`; valid UTF-8 is decoded as it stands.
#[verifier::external_body]
pub(crate) fn lossy_text(bytes: &[u8]) -> (r: String)
    ensures
        r@ == lossy_utf8(bytes@),
        valid_utf8(bytes@) ==> r@ == decode_utf8(bytes@),
{
    String::from_utf8_lossy(bytes).into_owned()
}

/// Reading the digits of an object id gives the id back.
pub proof fn law_hex_round_trip(id: Seq<u8>, text: Seq<u8>)
    requires
        id.len() == 20,
        text == vstd::utf8::encode_utf8(hex(id)),
    ensures
        is_hex_id(text),
        unhex(text) == id,
{
    let digits = hex(id);
    assert forall|i: int| 0 <= i < digits.len() implies (digits[i] as u32) < 128 && hex_value(
        #[trigger] digits[i] as u8,
    ) == if i % 2 == 0 {
        id[i / 2] as int / 16
    } else {
        id[i / 2] as int % 16
    } by {
        let b = id[i / 2] as int;
        assert(0 <= b / 16 < 16 && 0 <= b % 16 < 16);
    }
    assert(vstd::utf8::is_ascii_chars(digits));
    vstd::utf8::is_ascii_chars_encode_utf8(digits);
    assert(text =~= Seq::new(40, |i: int| digits[i] as u8));
    assert forall|i: int| 0 <= i < 40 implies hex_value(#[trigger] text[i]) < 16 by {
        assert(text[i] == digits[i] as u8);
    }
    assert forall|i: int| 0 <= i < 20 implies unhex(text)[i] == id[i] by {
        assert(text[2 * i] == digits[2 * i] as u8);
        assert(text[2 * i + 1] == digits[2 * i + 1] as u8);
        assert((2 * i) / 2 == i && (2 * i) % 2 == 0);
        assert((2 * i + 1) / 2 == i && (2 * i + 1) % 2 == 1);
        assert(16 * (id[i] as int / 16) + id[i] as int % 16 == id[i]);
    }
    assert(unhex(text) =~= id);
}

} // verus!
