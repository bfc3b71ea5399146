//! Directory content digests: each file's contents are digested, the hex
//! forms are concatenated in file order, and the digest of that concatenation
//! is truncated to its first eight hex digits.

use vstd::prelude::*;
use vstd::string::*;

use md5::{Digest, Md5};

use crate::strutil::push_char;

verus! {

/// The digest of a byte sequence. The outside routine computes it; it is a
/// function of the data alone.
pub uninterp spec fn md5_of(data: Seq<u8>) -> Seq<u8>;

/// Relies on md5's `Md5` through the `Digest` trait: the 128-bit digest of
/// the data, as 16 bytes.
#[verifier::external_body]
fn md5_bytes(data: &[u8]) -> (r: Vec<u8>)
    ensures
        r@ == md5_of(data@),
        r@.len() == 16,
{
    let mut hasher = Md5::new();
    hasher.update(data);
    hasher.finalize().to_vec()
}

/// The lowercase hex digit for a value below sixteen, as an ASCII code.
pub open spec fn hex_digit(d: int) -> u8 {
    if d < 10 {
        (48 + d) as u8
    } else {
        (87 + d) as u8
    }
}

/// The lowercase hex form of a byte sequence, two digits per byte, as ASCII
/// codes.
pub open spec fn hex_of(bs: Seq<u8>) -> Seq<u8>
    decreases bs,
{
    if bs.len() == 0 {
        Seq::empty()
    } else {
        hex_of(bs.drop_last()) + seq![
            hex_digit(bs.last() as int / 16),
            hex_digit(bs.last() as int % 16),
        ]
    }
}

fn hex_digit_exec(d: u8) -> (r: u8)
    requires
        d < 16,
    ensures
        r == hex_digit(d as int),
{
    if d < 10 {
        48 + d
    } else {
        87 + d
    }
}

/// The lowercase hex rendering of bytes.
fn hex_bytes(bs: &Vec<u8>) -> (r: Vec<u8>)
    ensures
        r@ == hex_of(bs@),
{
    let mut r: Vec<u8> = Vec::new();
    let mut i: usize = 0;
    proof {
        assert(r@ =~= hex_of(bs@.take(0)));
    }
    while i < bs.len()
        invariant
            i <= bs@.len(),
            r@ == hex_of(bs@.take(i as int)),
        decreases bs@.len() - i,
    {
        let b = bs[i];
        r.push(hex_digit_exec(b / 16));
        r.push(hex_digit_exec(b % 16));
        proof {
            assert(bs@.take(i + 1).drop_last() =~= bs@.take(i as int));
            assert(bs@.take(i + 1).last() == bs@[i as int]);
            assert(r@ =~= hex_of(bs@.take(i + 1)));
        }
        i = i + 1;
    }
    proof {
        assert(bs@.take(bs@.len() as int) =~= bs@);
    }
    r
}

/// The concatenated hex digests of the files' contents, in file order.
pub open spec fn digest_concat(files: Seq<(Seq<char>, Seq<u8>)>) -> Seq<u8>
    decreases files,
{
    if files.len() == 0 {
        Seq::empty()
    } else {
        digest_concat(files.drop_last()) + hex_of(md5_of(files.last().1))
    }
}

/// The ASCII codes of a byte sequence read as characters.
pub open spec fn ascii_chars(bs: Seq<u8>) -> Seq<char> {
    Seq::new(bs.len(), |i: int| bs[i] as char)
}

/// The directory digest: the digest of the concatenated per-file hex
/// digests, rendered in hex and truncated to its first eight digits.
pub open spec fn dir_md5_spec(files: Seq<(Seq<char>, Seq<u8>)>) -> Seq<char> {
    ascii_chars(hex_of(md5_of(digest_concat(files))).take(8))
}

/// The views of a vector of named file contents.
pub open spec fn file_views(s: Seq<(String, Vec<u8>)>) -> Seq<(Seq<char>, Seq<u8>)>
    decreases s,
{
    if s.len() == 0 {
        Seq::empty()
    } else {
        file_views(s.drop_last()).push((s.last().0@, s.last().1@))
    }
}

/// `file_views` maps the sequence pointwise.
pub proof fn lemma_file_views(s: Seq<(String, Vec<u8>)>)
    ensures
        file_views(s).len() == s.len(),
        forall|i: int| 0 <= i < s.len() ==> file_views(s)[i] == (s[i].0@, s[i].1@),
    decreases s,
{
    if s.len() > 0 {
        lemma_file_views(s.drop_last());
        assert(file_views(s) == file_views(s.drop_last()).push((s.last().0@, s.last().1@)));
        assert forall|i: int| 0 <= i < s.len() implies file_views(s)[i] == (s[i].0@, s[i].1@) by {
            if i < s.len() - 1 {
                assert(file_views(s)[i] == file_views(s.drop_last())[i]);
                assert(s.drop_last()[i] == s[i]);
            }
        }
    } else {
        assert(file_views(s) == Seq::<(Seq<char>, Seq<u8>)>::empty());
    }
}

/// The eight-digit digest of a directory's contents: each entry carries a
/// file's path and its bytes. The digest is order-sensitive; callers hand
/// the files sorted by path, so that the result is stable across walks.
pub fn compute_dir_md5(files: &Vec<(String, Vec<u8>)>) -> (r: String)
    ensures
        r@ == dir_md5_spec(file_views(files@)),
{
    let ghost views = file_views(files@);
    proof {
        lemma_file_views(files@);
    }
    let mut concat: Vec<u8> = Vec::new();
    let mut i: usize = 0;
    proof {
        assert(concat@ =~= digest_concat(views.take(0)));
    }
    while i < files.len()
        invariant
            i <= files@.len(),
            views == file_views(files@),
            views.len() == files@.len(),
            forall|j: int| 0 <= j < files@.len() ==> views[j] == (files@[j].0@, files@[j].1@),
            concat@ == digest_concat(views.take(i as int)),
        decreases files@.len() - i,
    {
        let d = md5_bytes(files[i].1.as_slice());
        let hx = hex_bytes(&d);
        let ghost pre = concat@;
        let mut k: usize = 0;
        while k < hx.len()
            invariant
                k <= hx@.len(),
                concat@ =~= pre + hx@.take(k as int),
            decreases hx@.len() - k,
        {
            concat.push(hx[k]);
            k = k + 1;
        }
        proof {
            assert(hx@.take(hx@.len() as int) =~= hx@);
            assert(views.take(i + 1).drop_last() =~= views.take(i as int));
            assert(views.take(i + 1).last() == views[i as int]);
            assert(concat@ =~= digest_concat(views.take(i + 1)));
        }
        i = i + 1;
    }
    proof {
        assert(views.take(files@.len() as int) =~= views);
    }
    let final_digest = md5_bytes(concat.as_slice());
    let hx = hex_bytes(&final_digest);
    let mut out = String::new();
    let mut k: usize = 0;
    proof {
        assert(hx@.len() == 32) by {
            lemma_hex_len(md5_of(concat@));
        }
    }
    while k < 8
        invariant
            k <= 8,
            hx@.len() == 32,
            hx@ == hex_of(md5_of(digest_concat(views))),
            out@ =~= ascii_chars(hx@.take(8)).take(k as int),
        decreases 8 - k,
    {
        push_char(&mut out, hx[k] as char);
        proof {
            assert(ascii_chars(hx@.take(8)).take(k + 1) =~= ascii_chars(hx@.take(8)).take(
                k as int,
            ).push(hx@[k as int] as char));
        }
        k = k + 1;
    }
    proof {
        assert(ascii_chars(hx@.take(8)).take(8) =~= ascii_chars(hx@.take(8)));
        assert(out@ =~= dir_md5_spec(views));
    }
    out
}

/// Hex rendering doubles the length.
proof fn lemma_hex_len(bs: Seq<u8>)
    ensures
        hex_of(bs).len() == 2 * bs.len(),
    decreases bs,
{
    if bs.len() > 0 {
        lemma_hex_len(bs.drop_last());
    }
}

} // verus!
