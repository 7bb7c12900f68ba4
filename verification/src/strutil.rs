//! Bridging ASCII bytes and strings.

use vstd::prelude::*;

verus! {

/// The characters that a sequence of ASCII bytes stands for.
pub open spec fn chars_of(bs: Seq<u8>) -> Seq<char> {
    bs.map_values(|b: u8| b as char)
}

/// All bytes below 128, so the sequence is valid ASCII (and UTF-8).
pub open spec fn ascii_bytes(bs: Seq<u8>) -> bool {
    forall|i: int| 0 <= i < bs.len() ==> #[trigger] bs[i] < 128
}

/// Relies on `core::str::from_utf8`: for ASCII input it returns `Ok` with a
/// string slice whose characters are exactly the bytes.
#[verifier::external_body]
fn ascii_str<'a>(bytes: &'a [u8]) -> (r: &'a str)
    requires
        ascii_bytes(bytes@),
    ensures
        r@ == chars_of(bytes@),
{
    match core::str::from_utf8(bytes) {
        Ok(s) => s,
        Err(_) => "",
    }
}

/// Copies a vector of ASCII bytes into an owned string with the same
/// characters.
pub fn ascii_string(bytes: &Vec<u8>) -> (r: String)
    requires
        ascii_bytes(bytes@),
    ensures
        r@ == chars_of(bytes@),
{
    ascii_str(bytes.as_slice()).to_owned()
}

/// The ASCII bytes of a sequence of characters below 128.
pub open spec fn bytes_of_chars(s: Seq<char>) -> Seq<u8> {
    s.map_values(|c: char| c as u8)
}

/// Appends a whole byte slice.
pub fn push_bytes(out: &mut Vec<u8>, s: &[u8])
    ensures
        final(out)@ == old(out)@ + s@,
{
    let mut i: usize = 0;
    while i < s.len()
        invariant
            i <= s@.len(),
            out@ == old(out)@ + s@.subrange(0, i as int),
        decreases s@.len() - i,
    {
        out.push(s[i]);
        i = i + 1;
        proof {
            assert(out@ =~= old(out)@ + s@.subrange(0, i as int));
        }
    }
    proof {
        assert(final(out)@ =~= old(out)@ + s@);
    }
}

/// Whether two strings hold the same characters.
pub fn str_eq(a: &str, b: &str) -> (r: bool)
    ensures
        r == (a@ == b@),
{
    let la: usize = a.unicode_len();
    let lb: usize = b.unicode_len();
    if la != lb {
        return false;
    }
    let mut i: usize = 0;
    while i < la
        invariant
            i <= la,
            la == a@.len(),
            la == b@.len(),
            forall|k: int| 0 <= k < i ==> a@[k] == b@[k],
        decreases la - i,
    {
        if a.get_char(i) != b.get_char(i) {
            return false;
        }
        i = i + 1;
    }
    proof {
        assert(a@ =~= b@);
    }
    true
}

/// The decimal rendering of a number as an owned string.
pub fn u64_string(n: u64) -> (r: String)
    ensures
        r@ == chars_of(crate::time::dec_digits(n as nat)),
{
    let mut bytes: Vec<u8> = Vec::new();
    crate::time::push_u64_digits(&mut bytes, n);
    proof {
        crate::time::lemma_dec_digits_ascii(n as nat);
    }
    ascii_string(&bytes)
}

/// Whether two byte slices hold the same bytes.
pub fn bytes_eq(a: &[u8], b: &[u8]) -> (r: bool)
    ensures
        r == (a@ == b@),
{
    if a.len() != b.len() {
        return false;
    }
    let mut i: usize = 0;
    while i < a.len()
        invariant
            i <= a@.len(),
            a@.len() == b@.len(),
            forall|k: int| 0 <= k < i ==> a@[k] == b@[k],
        decreases a@.len() - i,
    {
        if a[i] != b[i] {
            return false;
        }
        i = i + 1;
    }
    proof {
        assert(a@ =~= b@);
    }
    true
}

} // verus!
