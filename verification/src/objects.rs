//! Object ids and the names by which git resolves them.
use crate::text::opt_text;
use crate::trusted::{
    blob_digest, compute_blob_digest, empty_tree_id, hex, hex_digit, hex_value, id_from_hex,
    id_to_hex, is_hex_id, opt_bytes, unhex,
};
use vstd::prelude::*;
use vstd::utf8::{encode_utf8, is_ascii_chars, is_ascii_chars_encode_utf8};

verus! {

/// The id of a blob with the content `data`, in hexadecimal digits.
pub open spec fn content_oid(data: Seq<u8>) -> Option<Seq<char>> {
    match blob_digest(data) {
        Some(id) => Some(hex(id)),
        None => None,
    }
}

/// The object id that the text `digits` stands for.
pub open spec fn oid_bytes(digits: Seq<char>) -> Option<Seq<u8>> {
    if is_hex_id(encode_utf8(digits)) {
        Some(unhex(encode_utf8(digits)))
    } else {
        None
    }
}

/// How git names the object at `path` in the tree of `rev`.
pub open spec fn path_spec(rev: Seq<char>, path: Seq<char>) -> Seq<char> {
    rev + seq![':'] + path
}

/// The git blob id (hex) of `data`, without writing it anywhere; `None` if the content cannot be
/// hashed.
pub fn hash_blob(data: &[u8]) -> (r: Option<String>)
    ensures
        opt_text(r) == content_oid(data@),
{
    match compute_blob_digest(data) {
        Some(id) => Some(id_to_hex(id.as_slice())),
        None => None,
    }
}

/// The object id written as `digits`: exactly 40 hexadecimal digits.
pub fn parse_oid(digits: &str) -> (r: Option<Vec<u8>>)
    ensures
        opt_bytes(r) == oid_bytes(digits@),
{
    id_from_hex(digits.as_bytes())
}

/// The name under which git resolves `path` in the tree of `rev`.
pub fn spec_of(rev: &str, path: &str) -> (r: String)
    ensures
        r@ == path_spec(rev@, path@),
        r@ == rev@ + seq![':'] + path@,
{
    let mut r: String = rev.to_owned();
    r.push(':');
    r.append(path);
    assert(r@ =~= path_spec(rev@, path@));
    r
}

/// The tree that a commit starts from: that of `HEAD`, or the empty tree while there is no commit.
pub fn base_tree(head_tree: Option<Vec<u8>>) -> (r: Vec<u8>)
    ensures
        match head_tree {
            Some(id) => r == id,
            None => r@.len() == 20 && hex(r@) == "4b825dc642cb6eb9a060e54bf8d69288fbee4904"@,
        },
{
    match head_tree {
        Some(id) => id,
        None => empty_tree_id(),
    }
}

/// Whether two contents are the same.
pub fn same_bytes(a: &Vec<u8>, b: &Vec<u8>) -> (r: bool)
    ensures
        r == (a@ == b@),
{
    let n: usize = a.len();
    if n != b.len() {
        return false;
    }
    for i in 0..n
        invariant
            n == a@.len(),
            n == b@.len(),
            forall|j: int| 0 <= j < i ==> a@[j] == b@[j],
    {
        if a[i] != b[i] {
            return false;
        }
    }
    assert(a@ =~= b@);
    true
}

/// Whether two optional ids are the same.
pub fn same_id(a: &Option<Vec<u8>>, b: &Option<Vec<u8>>) -> (r: bool)
    ensures
        r == (opt_bytes(*a) == opt_bytes(*b)),
{
    match (a, b) {
        (Some(x), Some(y)) => same_bytes(x, y),
        (None, None) => true,
        _ => false,
    }
}

/// The name of a path in a revision begins with the revision, goes on with a colon and ends with
/// the path, and has nothing else in it.
pub proof fn law_path_is_named_in_its_revision(rev: Seq<char>, path: Seq<char>)
    ensures
        path_spec(rev, path).len() == rev.len() + 1 + path.len(),
        path_spec(rev, path).take(rev.len() as int) == rev,
        path_spec(rev, path)[rev.len() as int] == ':',
        path_spec(rev, path).skip(rev.len() as int + 1) == path,
{
    let s = path_spec(rev, path);
    assert(s.take(rev.len() as int) =~= rev);
    assert(s.skip(rev.len() as int + 1) =~= path);
}

/// Distinct revisions give a path distinct names, and so do distinct paths in one revision: what
/// is found under a name is about that very path at that very revision. A revision has no colon.
pub proof fn law_distinct_revisions_have_distinct_names(
    rev: Seq<char>,
    other: Seq<char>,
    path: Seq<char>,
    other_path: Seq<char>,
)
    requires
        !rev.contains(':'),
        !other.contains(':'),
    ensures
        path_spec(rev, path) == path_spec(other, other_path) <==> rev == other && path
            == other_path,
{
    law_path_is_named_in_its_revision(rev, path);
    law_path_is_named_in_its_revision(other, other_path);
    if path_spec(rev, path) == path_spec(other, other_path) {
        let s = path_spec(rev, path);
        if rev.len() < other.len() {
            assert(s.take(other.len() as int)[rev.len() as int] == ':');
            assert(other[rev.len() as int] == ':');
        } else if other.len() < rev.len() {
            assert(s.take(rev.len() as int)[other.len() as int] == ':');
            assert(rev[other.len() as int] == ':');
        }
    }
}

/// The id of an object, written as text and read back, is the id again: 40 digits for its 20 bytes,
/// so that two ids are never written alike.
pub proof fn law_written_id_reads_back(id: Seq<u8>)
    requires
        id.len() == 20,
    ensures
        hex(id).len() == 40,
        oid_bytes(hex(id)) == Some(id),
{
    let digits = hex(id);
    assert forall|i: int| 0 <= i < digits.len() implies (#[trigger] digits[i]) as u32 == (if i % 2
        == 0 {
        digit_code(id[i / 2] as int / 16)
    } else {
        digit_code(id[i / 2] as int % 16)
    }) by {
        let n = if i % 2 == 0 {
            id[i / 2] as int / 16
        } else {
            id[i / 2] as int % 16
        };
        assert(0 <= n < 16);
        lemma_digit_code(n);
    }
    assert(is_ascii_chars(digits)) by {
        assert forall|i: int| 0 <= i < digits.len() implies #[trigger] digits[i] as nat
            <= 127 by {
            assert(digits[i] as u32 <= 127);
        }
    }
    is_ascii_chars_encode_utf8(digits);
    let bytes = encode_utf8(digits);
    assert forall|i: int| 0 <= i < 40 implies hex_value(#[trigger] bytes[i]) == (if i % 2 == 0 {
        id[i / 2] as int / 16
    } else {
        id[i / 2] as int % 16
    }) by {
        assert(bytes[i] == digits[i] as u8);
        assert(digits[i] as u32 <= 127);
    }
    assert(is_hex_id(bytes));
    assert(unhex(bytes) =~= id) by {
        assert forall|i: int| 0 <= i < 20 implies #[trigger] unhex(bytes)[i] == id[i] by {
            assert(hex_value(bytes[2 * i]) == id[i] as int / 16);
            assert(hex_value(bytes[2 * i + 1]) == id[i] as int % 16);
        }
    }
}

/// The code point of the digit for `n`.
pub open spec fn digit_code(n: int) -> int {
    if n < 10 {
        48 + n
    } else {
        87 + n
    }
}

proof fn lemma_digit_code(n: int)
    requires
        0 <= n < 16,
    ensures
        hex_digit(n) as u32 == digit_code(n),
        digit_code(n) <= 127,
{
    broadcast use vstd::utf8::char_u32_cast;

}

/// The id under which content is known is what its digest is written as, and tells the digest.
pub proof fn law_content_is_known_by_its_digest(data: Seq<u8>, digest: Seq<u8>)
    requires
        digest.len() == 20,
    ensures
        blob_digest(data) == Some(digest) ==> content_oid(data) == Some(hex(digest)) && oid_bytes(
            content_oid(data)->0,
        ) == Some(digest),
        blob_digest(data) is None <==> content_oid(data) is None,
{
    law_written_id_reads_back(digest);
}

/// What stands for an id are 40 hexadecimal digits, of either case, and nothing else.
pub proof fn law_only_hexadecimal_digits_are_an_id(text: Seq<char>)
    ensures
        oid_bytes(text) is Some <==> {
            let bytes = encode_utf8(text);
            &&& bytes.len() == 40
            &&& forall|i: int|
                0 <= i < 40 ==> {
                    ||| 0x30 <= #[trigger] bytes[i] <= 0x39
                    ||| 0x41 <= bytes[i] <= 0x46
                    ||| 0x61 <= bytes[i] <= 0x66
                }
        },
        oid_bytes(text) matches Some(id) ==> id.len() == 20,
{
    let bytes = encode_utf8(text);
    if is_hex_id(bytes) {
        assert forall|i: int| 0 <= i < 40 implies {
            ||| 0x30 <= #[trigger] bytes[i] <= 0x39
            ||| 0x41 <= bytes[i] <= 0x46
            ||| 0x61 <= bytes[i] <= 0x66
        } by {
            assert(hex_value(bytes[i]) < 16);
        }
    }
}

} // verus!
