use vstd::prelude::*;

use sha2::Digest;

verus! {

use vstd::string::StringSliceAdditionalSpecFns;

use crate::strutil::{chars_of, is_unicode_whitespace, is_ws_char, string_from_chars};

/// The lowercase hexadecimal SHA-256 digest of a byte sequence.
/// What the digest is on given bytes is not stated: it is the result of
/// `sha2::Sha256`, named so that contracts can relate calls on equal inputs.
pub uninterp spec fn sha256_hex_of(bytes: Seq<u8>) -> Seq<char>;

/// Relies on `sha2::Sha256`: the digest is a function of the input bytes
/// alone, and 32 digest bytes render as exactly 64 lowercase hex digits.
#[verifier::external_body]
pub(crate) fn sha256_hex(s: &str) -> (r: String)
    ensures
        r@ == sha256_hex_of(s.spec_bytes()),
        r@.len() == 64,
{
    let mut hasher = sha2::Sha256::new();
    hasher.update(s.as_bytes());
    format!("{:x}", hasher.finalize())
}

/// The characters of `s` with every Unicode whitespace character removed.
pub open spec fn stripped_of(s: Seq<char>) -> Seq<char> {
    s.filter(|c: char| !is_unicode_whitespace(c))
}

proof fn lemma_filter_step(s: Seq<char>, i: int)
    requires
        0 <= i < s.len(),
    ensures
        stripped_of(s.take(i + 1)) == if !is_unicode_whitespace(s[i]) {
            stripped_of(s.take(i)).push(s[i])
        } else {
            stripped_of(s.take(i))
        },
{
    reveal(Seq::filter);
    assert(s.take(i + 1).drop_last() =~= s.take(i));
    assert(s.take(i + 1).last() == s[i]);
}

/// The content fingerprint: SHA-256 over the UTF-8 bytes of the content
/// with all whitespace removed, as lowercase hex.
pub open spec fn fingerprint_of(s: Seq<char>) -> Seq<char> {
    sha256_hex_of(vstd::utf8::encode_utf8(stripped_of(s)))
}

pub fn fingerprint_content(content: &str) -> (r: String)
    ensures
        r@ == fingerprint_of(content@),
        r@.len() == 64,
{
    let cs = chars_of(content);
    let mut kept: Vec<char> = Vec::new();
    let mut i: usize = 0;
    while i < cs.len()
        invariant
            i <= cs@.len(),
            cs@ == content@,
            kept@ == stripped_of(cs@.take(i as int)),
        decreases cs@.len() - i,
    {
        proof {
            lemma_filter_step(cs@, i as int);
        }
        if !is_ws_char(cs[i]) {
            kept.push(cs[i]);
        }
        i = i + 1;
    }
    proof {
        assert(cs@.take(cs@.len() as int) =~= cs@);
    }
    let normalized = string_from_chars(&kept);
    sha256_hex(normalized.as_str())
}

/// Equal whitespace-stripped content gives equal fingerprints.
pub proof fn lemma_fingerprint_of_stripped(a: Seq<char>, b: Seq<char>)
    requires
        stripped_of(a) == stripped_of(b),
    ensures
        fingerprint_of(a) == fingerprint_of(b),
{
}

} // verus!
