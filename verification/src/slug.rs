//! Names derived from arbitrary text: slugs, and short digests.

use crate::text;
use sha2::Digest;
use vstd::prelude::*;

verus! {

/// The most characters a slug has.
pub const MAX_LEN: usize = 32;

/// The lower-case letters and digits of `s`, a dash where something else stood between two of
/// them; and whether something else stands at the end.
pub open spec fn dashed(s: Seq<char>) -> (Seq<char>, bool)
    decreases s.len(),
{
    if s.len() == 0 {
        (Seq::empty(), false)
    } else {
        let (out, pending) = dashed(s.drop_last());
        let c = text::lower_char(s.last());
        if text::alnum(c) {
            (if pending && out.len() > 0 {
                out.push('-').push(c)
            } else {
                out.push(c)
            }, false)
        } else {
            (out, true)
        }
    }
}

/// `s` without the dashes at its end.
pub open spec fn without_dashes(s: Seq<char>) -> Seq<char>
    decreases s.len(),
{
    if s.len() > 0 && s.last() == '-' {
        without_dashes(s.drop_last())
    } else {
        s
    }
}

/// The slug of a text.
pub open spec fn slug_of(s: Seq<char>) -> Seq<char> {
    let out = dashed(s).0;
    let cut = if out.len() > MAX_LEN {
        without_dashes(out.take(MAX_LEN as int))
    } else {
        out
    };
    if cut.len() == 0 {
        "worktree"@
    } else {
        cut
    }
}

/// Turn arbitrary text into a stable, lowercase, `[a-z0-9-]` slug.
pub fn slugify(input: &str) -> (r: String)
    ensures
        r@ == slug_of(input@),
{
    let v = text::chars(input);
    let mut out: Vec<char> = Vec::new();
    let mut pending = false;
    let mut i: usize = 0;
    assert(input@.take(0) =~= Seq::<char>::empty());
    while i < v.len()
        invariant
            v@ == input@,
            i <= v@.len(),
            dashed(input@.take(i as int)) == (out@, pending),
        decreases v@.len() - i,
    {
        assert(input@.take(i + 1).drop_last() =~= input@.take(i as int));
        let c = text::to_lower_char(v[i]);
        if text::is_alnum(c) {
            if pending && out.len() > 0 {
                out.push('-');
            }
            pending = false;
            out.push(c);
        } else {
            pending = true;
        }
        i += 1;
    }
    assert(input@.take(i as int) =~= input@);
    let ghost full = out@;
    if out.len() > MAX_LEN {
        out.truncate(MAX_LEN);
        assert(out@ =~= full.take(MAX_LEN as int));
        while out.len() > 0 && out[out.len() - 1] == '-'
            invariant
                without_dashes(full.take(MAX_LEN as int)) == without_dashes(out@),
            decreases out@.len(),
        {
            let ghost before = out@;
            out.pop();
            assert(out@ =~= before.drop_last());
        }
    }
    if out.len() == 0 {
        text::own("worktree")
    } else {
        text::from_chars(&out)
    }
}

/// Whether a text is a slug: letters, digits and single dashes between them.
pub open spec fn is_slug(s: Seq<char>) -> bool {
    &&& 0 < s.len() <= MAX_LEN
    &&& forall|i: int|
        0 <= i < s.len() ==> text::lower(#[trigger] s[i]) || text::digit(s[i]) || s[i] == '-'
    &&& s[0] != '-'
    &&& s.last() != '-'
    &&& forall|i: int| 0 < i < s.len() && #[trigger] s[i] == '-' ==> s[i - 1] != '-'
}

spec fn dashed_shape(out: Seq<char>) -> bool {
    &&& forall|i: int|
        0 <= i < out.len() ==> text::lower(#[trigger] out[i]) || text::digit(out[i]) || out[i]
            == '-'
    &&& out.len() > 0 ==> out[0] != '-' && out.last() != '-'
    &&& forall|i: int| 0 < i < out.len() && #[trigger] out[i] == '-' ==> out[i - 1] != '-'
}

proof fn dashed_has_shape(s: Seq<char>)
    ensures
        dashed_shape(dashed(s).0),
    decreases s.len(),
{
    if s.len() > 0 {
        dashed_has_shape(s.drop_last());
        let (out, pending) = dashed(s.drop_last());
        let c = text::lower_char(s.last());
        if text::alnum(c) {
            assert(text::lower(c) || text::digit(c));
            let next = dashed(s).0;
            assert forall|i: int| 0 < i < next.len() && #[trigger] next[i] == '-' implies next[i - 1]
                != '-' by {
                if i < out.len() {
                    assert(out[i] == next[i]);
                    assert(next[i - 1] == out[i - 1]);
                } else if i == out.len() {
                    assert(next[i - 1] == out.last());
                }
            }
            assert forall|i: int| 0 <= i < next.len() implies text::lower(#[trigger] next[i])
                || text::digit(next[i]) || next[i] == '-' by {
                if i < out.len() {
                    assert(out[i] == next[i]);
                }
            }
        }
    }
}

/// Every slug is a non-empty run of lower-case letters, digits and single dashes, at most
/// [`MAX_LEN`] characters long, that neither begins nor ends with a dash.
pub proof fn slugs_are_slugs(s: Seq<char>)
    ensures
        is_slug(slug_of(s)),
{
    dashed_has_shape(s);
    let out = dashed(s).0;
    reveal_strlit("worktree");
    if out.len() > MAX_LEN {
        let t = out.take(MAX_LEN as int);
        assert(t.drop_last()[t.len() - 2] == out[t.len() - 2]);
        assert(out[0] == t[0]);
        if t.last() == '-' {
            assert(out[MAX_LEN - 1] == '-');
            assert(out[MAX_LEN - 2] != '-');
            assert(t.drop_last().last() == out[MAX_LEN - 2]);
            assert(without_dashes(t.drop_last()) == t.drop_last());
        }
        let cut = without_dashes(t);
        assert(cut == t || cut == t.drop_last());
        assert forall|i: int| 0 <= i < cut.len() implies text::lower(#[trigger] cut[i])
            || text::digit(cut[i]) || cut[i] == '-' by {
            assert(cut[i] == out[i]);
        }
        assert forall|i: int| 0 < i < cut.len() && #[trigger] cut[i] == '-' implies cut[i - 1]
            != '-' by {
            assert(cut[i] == out[i]);
        }
        assert(cut[0] == out[0]);
    }
}

proof fn dashed_keeps_slugs(s: Seq<char>, i: int)
    requires
        is_slug(s),
        0 <= i <= s.len(),
    ensures
        dashed(s.take(i)) == (if i > 0 && s[i - 1] == '-' {
            (s.take(i - 1), true)
        } else {
            (s.take(i), false)
        }),
    decreases i,
{
    if i > 0 {
        dashed_keeps_slugs(s, i - 1);
        let t = s.take(i);
        assert(t.drop_last() =~= s.take(i - 1));
        let c = s[i - 1];
        assert(t.last() == c);
        assert(text::lower(c) || text::digit(c) || c == '-');
        if c != '-' {
            if i > 1 && s[i - 2] == '-' {
                assert(i > 2);
                assert(s.take(i - 2).push('-').push(c) =~= t);
            } else {
                assert(s.take(i - 1).push(c) =~= t);
            }
        }
    } else {
        assert(s.take(0) =~= Seq::<char>::empty());
    }
}

/// The slug of a slug is that slug.
pub proof fn slugify_is_idempotent(s: Seq<char>)
    ensures
        slug_of(slug_of(s)) == slug_of(s),
{
    slugs_are_slugs(s);
    let t = slug_of(s);
    dashed_keeps_slugs(t, t.len() as int);
    assert(t.take(t.len() as int) =~= t);
}

// ---------------------------------------------------------------------------
// Digests
// ---------------------------------------------------------------------------

/// The SHA-256 digest of some bytes.
pub uninterp spec fn sha256_of(bytes: Seq<u8>) -> Seq<u8>;

/// `sha2::Sha256::digest`: the digest that [`sha256_of`] names, which is 32 bytes long.
#[verifier::external_body]
pub(crate) fn sha256(bytes: &[u8]) -> (r: Vec<u8>)
    ensures
        r@ == sha256_of(bytes@),
        r@.len() == 32,
{
    sha2::Sha256::digest(bytes).to_vec()
}

/// The digest of a text, which is taken in UTF-8.
pub open spec fn digest_of(s: Seq<char>) -> Seq<u8> {
    sha256_of(vstd::utf8::encode_utf8(s))
}

/// The hexadecimal digit that stands for `n`.
pub open spec fn hex_char(n: int) -> char {
    if n < 10 {
        (n + 48) as char
    } else {
        (n + 87) as char
    }
}

/// Bytes in hexadecimal, two digits each.
pub open spec fn hex_of(bytes: Seq<u8>) -> Seq<char>
    decreases bytes.len(),
{
    if bytes.len() == 0 {
        Seq::empty()
    } else {
        hex_of(bytes.drop_last()).push(hex_char(bytes.last() as int / 16)).push(
            hex_char(bytes.last() as int % 16),
        )
    }
}

fn to_hex_char(n: u8) -> (r: char)
    requires
        n < 16,
    ensures
        r == hex_char(n as int),
{
    if n < 10 {
        (n + 48) as char
    } else {
        (n + 87) as char
    }
}

/// The first `count` bytes in hexadecimal.
pub(crate) fn hex(bytes: &Vec<u8>, count: usize) -> (r: String)
    requires
        count <= bytes@.len(),
    ensures
        r@ == hex_of(bytes@.take(count as int)),
{
    let mut r = String::new();
    let mut i: usize = 0;
    assert(bytes@.take(0) =~= Seq::<u8>::empty());
    while i < count
        invariant
            i <= count <= bytes@.len(),
            r@ == hex_of(bytes@.take(i as int)),
        decreases count - i,
    {
        assert(bytes@.take(i + 1).drop_last() =~= bytes@.take(i as int));
        r.push(to_hex_char(bytes[i] / 16));
        r.push(to_hex_char(bytes[i] % 16));
        i += 1;
    }
    r
}

/// The first four bytes of a text's digest, in hexadecimal.
pub open spec fn short_hash_of(s: Seq<char>) -> Seq<char> {
    hex_of(digest_of(s).take(4))
}

/// Short deterministic hash digest used to disambiguate names and keys.
pub fn short_hash(input: &str) -> (r: String)
    ensures
        r@ == short_hash_of(input@),
{
    let digest = sha256(input.as_bytes());
    hex(&digest, 4)
}

/// The number that bytes stand for, most significant first.
pub open spec fn big_endian(bytes: Seq<u8>) -> nat
    decreases bytes.len(),
{
    if bytes.len() == 0 {
        0
    } else {
        256 * big_endian(bytes.drop_last()) + bytes.last() as nat
    }
}

/// The first eight bytes of a text's digest as a number.
pub open spec fn hash64_of(s: Seq<char>) -> nat {
    big_endian(digest_of(s).take(8))
}

spec fn power256(n: int) -> nat
    decreases n,
{
    if n <= 0 {
        1
    } else {
        256 * power256(n - 1)
    }
}

/// 64-bit digest used for port block selection.
pub fn hash64(input: &str) -> (r: u64)
    ensures
        r == hash64_of(input@),
{
    let digest = sha256(input.as_bytes());
    let mut n: u64 = 0;
    let mut i: usize = 0;
    assert(digest@.take(0) =~= Seq::<u8>::empty());
    while i < 8
        invariant
            i <= 8,
            digest@.len() == 32,
            n == big_endian(digest@.take(i as int)),
            n < power256(i as int),
        decreases 8 - i,
    {
        assert(digest@.take(i + 1).drop_last() =~= digest@.take(i as int));
        assert(power256(i + 1) == 256 * power256(i as int));
        assert(n < 0x100_0000_0000_0000) by {
            reveal_with_fuel(power256, 8);
        }
        n = 256 * n + digest[i] as u64;
        i += 1;
    }
    n
}

} // verus!
