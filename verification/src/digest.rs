//! Content addressing: the SHA-256 digest of a section or file body,
//! rendered as upper-case hex.

use vstd::prelude::*;

verus! {

/// The SHA-256 digest of a character sequence, rendered as lowercase hex.
/// Named, not spelled out: it is a pure function of the input alone.
pub uninterp spec fn sha256_hex(s: Seq<char>) -> Seq<char>;

/// Relies on `sha256::digest`: returns the SHA-256 digest of the input as
/// a lowercase hex string, a function of the input characters alone.
#[verifier::external_body]
fn sha256_digest(s: &str) -> (r: String)
    ensures
        r@ == sha256_hex(s@),
{
    sha256::digest(s)
}

/// Uppercases one lowercase hex digit; leaves every other character alone.
pub open spec fn upper_hex_char(c: char) -> char {
    if c == 'a' { 'A' }
    else if c == 'b' { 'B' }
    else if c == 'c' { 'C' }
    else if c == 'd' { 'D' }
    else if c == 'e' { 'E' }
    else if c == 'f' { 'F' }
    else { c }
}

pub open spec fn upper_hex(s: Seq<char>) -> Seq<char> {
    s.map_values(|c: char| upper_hex_char(c))
}

/// The digest stored in markers and metafiles: upper-case hex SHA-256.
pub open spec fn content_digest(content: Seq<char>) -> Seq<char> {
    upper_hex(sha256_hex(content))
}

fn upper_hex_char_exec(c: char) -> (r: char)
    ensures
        r == upper_hex_char(c),
{
    match c {
        'a' => 'A',
        'b' => 'B',
        'c' => 'C',
        'd' => 'D',
        'e' => 'E',
        'f' => 'F',
        _ => c,
    }
}

fn to_upper_hex(s: &str) -> (r: String)
    ensures
        r@ == upper_hex(s@),
{
    let n = s.unicode_len();
    let mut out = String::new();
    let mut i: usize = 0;
    proof {
        assert(out@ =~= upper_hex(s@.subrange(0, 0)));
    }
    while i < n
        invariant
            0 <= i <= n,
            n == s@.len(),
            out@ == upper_hex(s@.subrange(0, i as int)),
        decreases n - i,
    {
        let c = s.get_char(i);
        out.push(upper_hex_char_exec(c));
        proof {
            assert(s@.subrange(0, i + 1) =~= s@.subrange(0, i as int).push(s@[i as int]));
            assert(upper_hex(s@.subrange(0, i + 1)) =~= upper_hex(
                s@.subrange(0, i as int),
            ).push(upper_hex_char(s@[i as int])));
        }
        i = i + 1;
    }
    proof {
        assert(s@.subrange(0, n as int) =~= s@);
    }
    out
}

/// Digest of a content string, as this library stores it.
pub fn hexdigest(content: &str) -> (r: String)
    ensures
        r@ == content_digest(content@),
{
    let lower = sha256_digest(content);
    to_upper_hex(lower.as_str())
}

} // verus!
