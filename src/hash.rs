//! Deterministic content hashing: SHA-256 of file contents as lowercase hex,
//! and a directory digest that depends only on the set of (relative path,
//! file hash) pairs, never on the order in which they were enumerated.
use crate::error::KaguyaError;
use sha2::Digest;
use vstd::prelude::*;
use vstd::relations::{sorted_by, total_ordering};

verus! {

/// The SHA-256 digest of a byte string.
pub uninterp spec fn sha256_of(data: Seq<u8>) -> Seq<u8>;

/// Relies on sha2's `Sha256::digest`: the 32-byte digest of `data`.
#[verifier::external_body]
fn sha256(data: &[u8]) -> (r: Vec<u8>)
    ensures
        r@ == sha256_of(data@),
        r@.len() == 32,
{
    sha2::Sha256::digest(data).to_vec()
}

/// The lowercase hex digit of a value below 16.
pub open spec fn hex_digit(n: u8) -> char {
    if n < 10 {
        (('0' as u8) + n) as char
    } else {
        (('a' as u8) + (n - 10)) as char
    }
}

/// Two lowercase hex digits per byte, high nibble first.
pub open spec fn hex_text(b: Seq<u8>) -> Seq<char>
    decreases b.len(),
{
    if b.len() == 0 {
        Seq::empty()
    } else {
        hex_text(b.drop_last()) + seq![hex_digit(b.last() / 16), hex_digit(b.last() % 16)]
    }
}

/// Hex text has two digits per byte.
pub proof fn lemma_hex_text_len(b: Seq<u8>)
    ensures
        hex_text(b).len() == 2 * b.len(),
    decreases b.len(),
{
    if b.len() > 0 {
        lemma_hex_text_len(b.drop_last());
    }
}

/// Relies on `hex::encode`: each byte becomes two lowercase hex digits, high
/// nibble first, in order.
#[verifier::external_body]
fn to_hex(b: &[u8]) -> (r: String)
    ensures
        r@ == hex_text(b@),
{
    hex::encode(b)
}

/// The hash of a file's content: SHA-256 as lowercase hex.
pub fn calculate_content_hash(data: &[u8]) -> (r: String)
    ensures
        r@ == hex_text(sha256_of(data@)),
        r@.len() == 64,
{
    let digest = sha256(data);
    proof {
        lemma_hex_text_len(digest@);
    }
    to_hex(digest.as_slice())
}

/// One file of a directory: its path relative to the directory root, and the
/// hash of its content.
#[derive(Debug, Clone)]
pub struct FileDigest {
    pub rel_path: String,
    pub hash: String,
}

impl View for FileDigest {
    type V = (Seq<char>, Seq<char>);

    open spec fn view(&self) -> (Seq<char>, Seq<char>) {
        (self.rel_path@, self.hash@)
    }
}

/// Lexicographic order on text by code point (the order of the UTF-8 bytes).
pub open spec fn text_lt(a: Seq<char>, b: Seq<char>) -> bool
    decreases a.len(),
{
    if a.len() == 0 {
        b.len() > 0
    } else if b.len() == 0 {
        false
    } else if a[0] != b[0] {
        (a[0] as int) < (b[0] as int)
    } else {
        text_lt(a.drop_first(), b.drop_first())
    }
}

/// The listing order as a relation.
pub open spec fn digest_order() -> spec_fn((Seq<char>, Seq<char>), (Seq<char>, Seq<char>)) -> bool {
    |x: (Seq<char>, Seq<char>), y: (Seq<char>, Seq<char>)| digest_le(x, y)
}

/// The listing order: by relative path, then by hash.
pub open spec fn digest_le(x: (Seq<char>, Seq<char>), y: (Seq<char>, Seq<char>)) -> bool {
    text_lt(x.0, y.0) || (x.0 == y.0 && (text_lt(x.1, y.1) || x.1 == y.1))
}

proof fn lemma_text_lt_trichotomy(a: Seq<char>, b: Seq<char>)
    ensures
        text_lt(a, b) || a == b || text_lt(b, a),
        !(text_lt(a, b) && text_lt(b, a)),
    decreases a.len(),
{
    if a.len() == 0 || b.len() == 0 {
        if a.len() == 0 && b.len() == 0 {
            assert(a =~= b);
        }
    } else if a[0] != b[0] {
        if (a[0] as int) == (b[0] as int) {
            assert(a[0] == b[0]);
        }
    } else {
        lemma_text_lt_trichotomy(a.drop_first(), b.drop_first());
        if a.drop_first() == b.drop_first() {
            assert(a =~= seq![a[0]] + a.drop_first());
            assert(b =~= seq![b[0]] + b.drop_first());
        }
    }
}

proof fn lemma_text_lt_transitive(a: Seq<char>, b: Seq<char>, c: Seq<char>)
    requires
        text_lt(a, b),
        text_lt(b, c),
    ensures
        text_lt(a, c),
    decreases a.len(),
{
    if a.len() > 0 && b.len() > 0 && c.len() > 0 {
        if a[0] == b[0] && b[0] == c[0] {
            lemma_text_lt_transitive(a.drop_first(), b.drop_first(), c.drop_first());
        }
    }
}

/// The listing order is a total order.
pub proof fn lemma_digest_le_total()
    ensures
        total_ordering(digest_order()),
{
    let leq = digest_order();
    assert forall|x: (Seq<char>, Seq<char>)| #[trigger] leq(x, x) by {}
    assert forall|x: (Seq<char>, Seq<char>), y: (Seq<char>, Seq<char>)| #[trigger] leq(x, y) && #[trigger] leq(y, x) implies x == y by {
        lemma_text_lt_trichotomy(x.0, y.0);
        lemma_text_lt_trichotomy(x.1, y.1);
    }
    assert forall|x: (Seq<char>, Seq<char>), y: (Seq<char>, Seq<char>), z: (Seq<char>, Seq<char>)|
        #[trigger] leq(x, y) && #[trigger] leq(y, z) implies leq(x, z) by {
        if text_lt(x.0, y.0) && text_lt(y.0, z.0) {
            lemma_text_lt_transitive(x.0, y.0, z.0);
        }
        if x.0 == y.0 && y.0 == z.0 && text_lt(x.1, y.1) && text_lt(y.1, z.1) {
            lemma_text_lt_transitive(x.1, y.1, z.1);
        }
    }
    assert forall|x: (Seq<char>, Seq<char>), y: (Seq<char>, Seq<char>)| #[trigger] leq(x, y) || #[trigger] leq(y, x) by {
        lemma_text_lt_trichotomy(x.0, y.0);
        lemma_text_lt_trichotomy(x.1, y.1);
    }
}


proof fn lemma_text_lt_skip(a: Seq<char>, b: Seq<char>, i: int)
    requires
        0 <= i < a.len(),
        i < b.len(),
        a[i] == b[i],
    ensures
        text_lt(a.skip(i), b.skip(i)) == text_lt(a.skip(i + 1), b.skip(i + 1)),
{
    assert(a.skip(i).drop_first() =~= a.skip(i + 1));
    assert(b.skip(i).drop_first() =~= b.skip(i + 1));
}

/// Whether `a` sorts strictly before `b`.
pub fn text_less(a: &String, b: &String) -> (r: bool)
    ensures
        r == text_lt(a@, b@),
{
    let la = a.as_str().unicode_len();
    let lb = b.as_str().unicode_len();
    let mut i: usize = 0;
    assert(a@.skip(0) =~= a@);
    assert(b@.skip(0) =~= b@);
    while i < la && i < lb
        invariant
            la == a@.len(),
            lb == b@.len(),
            i <= la,
            i <= lb,
            text_lt(a@, b@) == text_lt(a@.skip(i as int), b@.skip(i as int)),
        decreases la - i,
    {
        let ca = a.as_str().get_char(i);
        let cb = b.as_str().get_char(i);
        if ca != cb {
            assert(a@.skip(i as int)[0] == ca);
            assert(b@.skip(i as int)[0] == cb);
            return (ca as u32) < (cb as u32);
        }
        proof {
            lemma_text_lt_skip(a@, b@, i as int);
        }
        i = i + 1;
    }
    assert(a@.skip(i as int).len() == la - i);
    assert(b@.skip(i as int).len() == lb - i);
    i < lb && i == la
}

/// Whether `x` comes no later than `y` in the listing order.
pub fn digest_less_eq(x: &FileDigest, y: &FileDigest) -> (r: bool)
    ensures
        r == digest_le(x@, y@),
{
    if text_less(&x.rel_path, &y.rel_path) {
        true
    } else if x.rel_path == y.rel_path {
        text_less(&x.hash, &y.hash) || x.hash == y.hash
    } else {
        false
    }
}


/// The views of a list of file digests.
pub open spec fn digests_view(s: Seq<FileDigest>) -> Seq<(Seq<char>, Seq<char>)> {
    s.map_values(|d: FileDigest| d@)
}

/// Each pair's relative path followed by its hash, pair after pair.
pub open spec fn listing_text(s: Seq<(Seq<char>, Seq<char>)>) -> Seq<char>
    decreases s.len(),
{
    if s.len() == 0 {
        Seq::empty()
    } else {
        listing_text(s.drop_last()) + s.last().0 + s.last().1
    }
}

/// The digest of a directory listing: SHA-256, as lowercase hex, of the
/// UTF-8 text of its pairs in listing order.
pub open spec fn dir_digest(entries: Seq<(Seq<char>, Seq<char>)>) -> Seq<char> {
    hex_text(sha256_of(vstd::utf8::encode_utf8(listing_text(entries.sort_by(digest_order())))))
}

/// The digests in listing order.
pub fn sort_digests(files: Vec<FileDigest>) -> (r: Vec<FileDigest>)
    ensures
        sorted_by(digests_view(r@), digest_order()),
        digests_view(r@).to_multiset() == digests_view(files@).to_multiset(),
{
    broadcast use vstd::seq_lib::group_to_multiset_ensures;
    proof {
        lemma_digest_le_total();
    }
    let mut out: Vec<FileDigest> = Vec::new();
    let mut i: usize = 0;
    let ghost input = digests_view(files@);
    assert(digests_view(out@) =~= Seq::<(Seq<char>, Seq<char>)>::empty());
    assert(input.take(0) =~= Seq::<(Seq<char>, Seq<char>)>::empty());
    while i < files.len()
        invariant
            i <= files@.len(),
            input == digests_view(files@),
            total_ordering(digest_order()),
            sorted_by(digests_view(out@), digest_order()),
            digests_view(out@).to_multiset() == input.take(i as int).to_multiset(),
        decreases files.len() - i,
    {
        let x = &files[i];
        let mut j: usize = 0;
        while j < out.len() && digest_less_eq(&out[j], x)
            invariant
                j <= out@.len(),
                forall|k: int| 0 <= k < j ==> digest_le((#[trigger] out@[k])@, x@),
            decreases out.len() - j,
        {
            j = j + 1;
        }
        let ghost before = digests_view(out@);
        out.insert(j, FileDigest { rel_path: x.rel_path.clone(), hash: x.hash.clone() });
        proof {
            let after = digests_view(out@);
            assert(after =~= before.insert(j as int, x@));
            assert(input.take(i + 1) =~= input.take(i as int).push(x@));
            assert(input[i as int] == x@);
            vstd::seq_lib::to_multiset_insert(before, j as int, x@);
            vstd::seq_lib::to_multiset_build(input.take(i as int), x@);
            let leq = digest_order();
            assert forall|a: int, b: int| 0 <= a < b < after.len() implies #[trigger] leq(after[a], after[b]) by {
                if b < j {
                    assert(leq(before[a], before[b]));
                } else if b == j {
                    assert(digest_le(before[a], x@));
                } else if a < j {
                    assert(leq(before[a], before[b - 1]));
                    if j < before.len() {
                        assert(!digest_le(before[j as int], x@));
                        assert(leq(x@, before[j as int]) || leq(before[j as int], x@));
                    }
                    assert(digest_le(before[a], x@));
                } else if a == j {
                    assert(!digest_le(before[j as int], x@));
                    assert(leq(x@, before[j as int]) || leq(before[j as int], x@));
                    if b - 1 > j {
                        assert(leq(before[j as int], before[b - 1]));
                    }
                } else {
                    assert(leq(before[a - 1], before[b - 1]));
                }
            }
        }
        i = i + 1;
    }
    assert(input.take(files.len() as int) =~= input);
    out
}

/// The directory digest of a listing of (relative path, content hash)
/// pairs; the order in which the pairs are given does not matter.
pub fn calculate_dir_checksum(files: Vec<FileDigest>) -> (r: String)
    ensures
        r@ == dir_digest(digests_view(files@)),
        r@.len() == 64,
{
    let ghost input = digests_view(files@);
    let sorted = sort_digests(files);
    let mut text = String::new();
    let mut i: usize = 0;
    while i < sorted.len()
        invariant
            i <= sorted@.len(),
            text@ == listing_text(digests_view(sorted@).take(i as int)),
        decreases sorted.len() - i,
    {
        let ghost before = text@;
        text.append(sorted[i].rel_path.as_str());
        text.append(sorted[i].hash.as_str());
        proof {
            let s = digests_view(sorted@);
            assert(s.take(i + 1).drop_last() =~= s.take(i as int));
            assert(text@ == before + s[i as int].0 + s[i as int].1);
        }
        i = i + 1;
    }
    proof {
        let s = digests_view(sorted@);
        assert(s.take(sorted@.len() as int) =~= s);
        lemma_digest_le_total();
        input.lemma_sort_by_ensures(digest_order());
        vstd::seq_lib::lemma_sorted_unique(s, input.sort_by(digest_order()), digest_order());
    }
    let digest = sha256(text.as_str().as_bytes());
    proof {
        lemma_hex_text_len(digest@);
    }
    to_hex(digest.as_slice())
}

/// Reordering a directory listing does not change its digest: the digest is
/// a function of the multiset of (relative path, content hash) pairs alone.
pub proof fn lemma_dir_digest_order_free(a: Seq<(Seq<char>, Seq<char>)>, b: Seq<(Seq<char>, Seq<char>)>)
    requires
        a.to_multiset() == b.to_multiset(),
    ensures
        dir_digest(a) == dir_digest(b),
{
    lemma_digest_le_total();
    a.lemma_sort_by_ensures(digest_order());
    b.lemma_sort_by_ensures(digest_order());
    vstd::seq_lib::lemma_sorted_unique(a.sort_by(digest_order()), b.sort_by(digest_order()), digest_order());
}

/// The content of a filesystem entry, as the checksum needs it.
pub enum EntryContent {
    /// Nothing exists at the path.
    Missing { path: String },
    /// A regular file with these bytes.
    File { bytes: Vec<u8> },
    /// A directory with these files (relative path and content hash each).
    Directory { files: Vec<FileDigest> },
    /// Something that is neither a file nor a directory.
    Other { path: String },
}

/// The checksum of an entry: the content hash of a file, the directory
/// digest of a directory; `PathNotFound` when nothing is there and
/// `InvalidInput` for any other kind of entry.
pub fn calculate_entry_checksum(entry: EntryContent) -> (r: Result<String, KaguyaError>)
    ensures
        entry matches EntryContent::File { bytes } ==> r matches Ok(h) && h@ == hex_text(sha256_of(bytes@)),
        entry matches EntryContent::Directory { files } ==> r matches Ok(h) && h@ == dir_digest(digests_view(files@)),
        entry matches EntryContent::Missing { path } ==> r matches Err(KaguyaError::PathNotFound(p)) && p@ == path@,
        entry matches EntryContent::Other { path } ==> r matches Err(KaguyaError::InvalidInput(_)),
        r matches Ok(h) ==> h@.len() == 64,
{
    match entry {
        EntryContent::Missing { path } => Err(KaguyaError::PathNotFound(path)),
        EntryContent::File { bytes } => Ok(calculate_content_hash(bytes.as_slice())),
        EntryContent::Directory { files } => Ok(calculate_dir_checksum(files)),
        EntryContent::Other { path } => Err(KaguyaError::InvalidInput(path)),
    }
}

} // verus!
