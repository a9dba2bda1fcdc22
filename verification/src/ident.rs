//! Task ids and the addresses that tasks are served under.

use vstd::prelude::*;
use vstd::string::StringSliceAdditionalSpecFns;
use vstd::string::StringExecFns;

verus! {

/// What `md5::compute` gives for the bytes: their 16-byte MD5 digest.
pub uninterp spec fn md5_digest(data: Seq<u8>) -> Seq<u8>;

/// Calls `md5::compute`. Claims only that the digest returned is the one that
/// `md5_digest` names for these bytes; nothing is said of how it is computed.
#[verifier::external_body]
fn md5_of(data: &[u8]) -> (d: [u8; 16])
    ensures
        d@ == md5_digest(data@),
{
    md5::compute(data).0
}

/// Calls `String::push`: the character is appended.
#[verifier::external_body]
fn push_char(s: &mut String, c: char)
    ensures
        final(s)@ == old(s)@.push(c),
{
    s.push(c)
}

/// The lowercase hexadecimal digit of a value below 16.
pub open spec fn hex_digit(v: u8) -> char {
    if v < 10 {
        (v + 48) as char
    } else {
        (v + 87) as char
    }
}

/// Each byte as two lowercase hexadecimal digits, the high one first.
pub open spec fn hex_text(bytes: Seq<u8>) -> Seq<char>
    decreases bytes.len(),
{
    if bytes.len() == 0 {
        seq![]
    } else {
        hex_text(bytes.drop_last()) + seq![
            hex_digit(bytes.last() / 16),
            hex_digit(bytes.last() % 16),
        ]
    }
}

fn hex_char(v: u8) -> (c: char)
    requires
        v < 16,
    ensures
        c == hex_digit(v),
{
    if v < 10 {
        (v + 48) as char
    } else {
        (v + 87) as char
    }
}

/// The bytes written as lowercase hexadecimal, two digits each.
pub fn digest_hex(digest: &[u8]) -> (s: String)
    ensures
        s@ == hex_text(digest@),
{
    let mut s = String::new();
    let mut i: usize = 0;
    while i < digest.len()
        invariant
            i <= digest@.len(),
            s@ == hex_text(digest@.take(i as int)),
        decreases digest@.len() - i,
    {
        let b = digest[i];
        push_char(&mut s, hex_char(b / 16));
        push_char(&mut s, hex_char(b % 16));
        proof {
            let t = digest@.take(i + 1);
            assert(t.drop_last() =~= digest@.take(i as int));
            assert(t.last() == b);
            assert(s@ =~= hex_text(t));
        }
        i = i + 1;
    }
    proof {
        assert(digest@.take(i as int) =~= digest@);
    }
    s
}

/// The decimal digits of a number, without leading zeros.
pub open spec fn decimal_digits(n: nat) -> Seq<char>
    decreases n,
{
    if n < 10 {
        seq![(n + 48) as char]
    } else {
        decimal_digits(n / 10).push(((n % 10) + 48) as char)
    }
}

/// The number in decimal, as `to_string` writes it.
pub fn decimal_text(n: u32) -> (s: String)
    ensures
        s@ == decimal_digits(n as nat),
    decreases n,
{
    let mut s = if n < 10 {
        String::new()
    } else {
        decimal_text(n / 10)
    };
    push_char(&mut s, ((n % 10) as u8 + 48) as char);
    proof {
        if n < 10 {
            assert(s@ =~= seq![(n + 48) as char]);
        }
    }
    s
}

/// The id of a task: the MD5 digest of the text that describes its request, in
/// lowercase hexadecimal.
pub fn task_id(description: &str) -> (id: String)
    ensures
        id@ == hex_text(md5_digest(description.spec_bytes())),
{
    let d = md5_of(description.as_bytes());
    digest_hex(&d)
}

/// Where a machine that wrote a whole task serves its image.
pub fn image_url(id: &str) -> (url: String)
    ensures
        url@ == "https://handwrite.herokuapp.com/image/"@ + id@ + ".svg"@,
{
    let mut url = "https://handwrite.herokuapp.com/image/".to_owned();
    url.append(id);
    url.append(".svg");
    url
}

/// Where a server that joined the lines of a task serves its image.
pub fn file_url(id: &str) -> (url: String)
    ensures
        url@ == "https://handwrite.herokuapp.com/file/"@ + id@ + ".svg"@,
{
    let mut url = "https://handwrite.herokuapp.com/file/".to_owned();
    url.append(id);
    url.append(".svg");
    url
}

} // verus!
