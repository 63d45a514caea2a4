//! Hashes of texts, and ids.

use vstd::prelude::*;

verus! {

/// Whether a character is a lower-case hexadecimal digit.
pub open spec fn hex_digit(c: char) -> bool {
    ('0' <= c && c <= '9') || ('a' <= c && c <= 'f')
}

/// Whether a text is `n` lower-case hexadecimal digits.
pub open spec fn hex_text(s: Seq<char>, n: nat) -> bool {
    s.len() == n && forall|i: int| 0 <= i < s.len() ==> hex_digit(#[trigger] s[i])
}

/// The SHA-256 digest of a text's UTF-8 form, in hexadecimal digits.
pub uninterp spec fn sha256_hex(s: Seq<char>) -> Seq<char>;

/// `sha2::Sha256::digest` on the bytes of `s`, written with `{:x}`: 64 lower-case
/// hexadecimal digits. Which digits is named, not stated.
#[verifier::external_body]
fn sha256_digits(s: &str) -> (r: String)
    ensures
        r@ == sha256_hex(s@),
        hex_text(r@, 64),
{
    format!("{:x}", <sha2::Sha256 as sha2::Digest>::digest(s.as_bytes()))
}

/// The hash of a text, with its prefix.
pub open spec fn sha256_of(s: Seq<char>) -> Seq<char> {
    "sha256:"@ + sha256_hex(s)
}

/// The hash of a text: `sha256:` and 64 hexadecimal digits.
pub fn sha256_text(s: &str) -> (r: String)
    ensures
        r@ == sha256_of(s@),
        hex_text(r@.skip(7), 64),
{
    let digits = sha256_digits(s);
    let mut r = "sha256:".to_owned();
    r.append(digits.as_str());
    proof {
        reveal_strlit("sha256:");
        assert(r@.skip(7) =~= digits@);
    }
    r
}

/// `uuid::Uuid::new_v4` written by `simple`: 32 lower-case hexadecimal digits. Which ones is
/// left to chance.
#[verifier::external_body]
fn random_digits() -> (r: String)
    ensures
        hex_text(r@, 32),
{
    uuid::Uuid::new_v4().simple().to_string()
}

/// The id of a new instance: `wf_` and 32 hexadecimal digits.
pub fn new_workflow_id() -> (r: String)
    ensures
        "wf_"@.is_prefix_of(r@),
        hex_text(r@.skip(3), 32),
{
    let digits = random_digits();
    let mut r = "wf_".to_owned();
    r.append(digits.as_str());
    proof {
        reveal_strlit("wf_");
        assert(r@.skip(3) =~= digits@);
        assert("wf_"@ =~= r@.subrange(0, 3));
    }
    r
}

/// The id that ties the entries of one request together: `cor_` and 32 hexadecimal digits.
pub fn new_correlation_id() -> (r: String)
    ensures
        "cor_"@.is_prefix_of(r@),
        hex_text(r@.skip(4), 32),
{
    let digits = random_digits();
    let mut r = "cor_".to_owned();
    r.append(digits.as_str());
    proof {
        reveal_strlit("cor_");
        assert(r@.skip(4) =~= digits@);
        assert("cor_"@ =~= r@.subrange(0, 4));
    }
    r
}

} // verus!
