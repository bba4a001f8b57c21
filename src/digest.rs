//! The outside computations the handshake and the decoder rely on.

use crypto::digest::Digest;
use crypto::sha1::Sha1;
use rustc_serialize::base64::{Config, Newline, Standard, ToBase64};
use vstd::prelude::*;
use vstd::utf8::{decode_utf8, valid_utf8};

verus! {

/// The SHA-1 digest of a byte string.
pub uninterp spec fn sha1_of(data: Seq<u8>) -> Seq<u8>;

/// The character of the standard base64 alphabet for a 6-bit value, as an ASCII byte.
pub open spec fn base64_digit(v: nat) -> u8 {
    if v < 26 {
        (65 + v) as u8
    } else if v < 52 {
        (97 + (v - 26)) as u8
    } else if v < 62 {
        (48 + (v - 52)) as u8
    } else if v == 62 {
        43u8
    } else {
        47u8
    }
}

/// The padded base64 encoding, standard alphabet, no line breaks, of a byte
/// string: each group of three bytes gives four digits, and a final group of
/// one or two bytes gives two or three digits followed by `=` padding.
pub open spec fn base64_of(data: Seq<u8>) -> Seq<u8>
    decreases data.len(),
{
    if data.len() == 0 {
        seq![]
    } else if data.len() == 1 {
        let n = data[0] as nat * 65536;
        seq![base64_digit(n / 262144), base64_digit(n / 4096 % 64), 61u8, 61u8]
    } else if data.len() == 2 {
        let n = data[0] as nat * 65536 + data[1] as nat * 256;
        seq![base64_digit(n / 262144), base64_digit(n / 4096 % 64), base64_digit(n / 64 % 64), 61u8]
    } else {
        let n = data[0] as nat * 65536 + data[1] as nat * 256 + data[2] as nat;
        seq![
            base64_digit(n / 262144),
            base64_digit(n / 4096 % 64),
            base64_digit(n / 64 % 64),
            base64_digit(n % 64),
        ] + base64_of(data.subrange(3, data.len() as int))
    }
}

/// A character of the standard base64 alphabet, as an ASCII byte.
pub open spec fn is_base64_digit(c: u8) -> bool {
    (65 <= c && c <= 90) || (97 <= c && c <= 122) || (48 <= c && c <= 57) || c == 43 || c == 47
}

/// The shape of the padded base64 of a byte string whose length leaves 2 over 3:
/// its length, one `=` at the end, and alphabet characters before it.
pub open spec fn base64_shape_two_over(r: Seq<u8>, n: nat) -> bool {
    &&& r.len() == 4 * ((n + 2) / 3)
    &&& r[r.len() - 1] == 61u8
    &&& forall|i: int| 0 <= i < r.len() - 1 ==> is_base64_digit(#[trigger] r[i])
}

proof fn lemma_base64_digit(v: nat)
    ensures
        is_base64_digit(base64_digit(v)),
{
}

/// The padded base64 of `n` bytes, with `n % 3 == 2`, has `4 * ceil(n / 3)`
/// characters, all from the alphabet but the single `=` at the end.
pub proof fn lemma_base64_shape(d: Seq<u8>)
    requires
        d.len() % 3 == 2,
    ensures
        base64_shape_two_over(base64_of(d), d.len()),
    decreases d.len(),
{
    let r = base64_of(d);
    if d.len() == 2 {
        let n = d[0] as nat * 65536 + d[1] as nat * 256;
        lemma_base64_digit(n / 262144);
        lemma_base64_digit(n / 4096 % 64);
        lemma_base64_digit(n / 64 % 64);
    } else {
        let n = d[0] as nat * 65536 + d[1] as nat * 256 + d[2] as nat;
        let rest = d.subrange(3, d.len() as int);
        lemma_base64_shape(rest);
        lemma_base64_digit(n / 262144);
        lemma_base64_digit(n / 4096 % 64);
        lemma_base64_digit(n / 64 % 64);
        lemma_base64_digit(n % 64);
        let head = seq![
            base64_digit(n / 262144),
            base64_digit(n / 4096 % 64),
            base64_digit(n / 64 % 64),
            base64_digit(n % 64),
        ];
        let tail = base64_of(rest);
        assert(r == head + tail);
        assert forall|i: int| 0 <= i < r.len() - 1 implies is_base64_digit(#[trigger] r[i]) by {
            if i >= 4 {
                assert(r[i] == tail[i - 4]);
            }
        }
    }
}

/// Relies on rust-crypto's `Sha1` (`new`, `input`, `result`): the 20-byte digest
/// of the input. `input` panics once the bit count overflows a `u64`.
#[verifier::external_body]
pub(crate) fn sha1_digest(data: &[u8]) -> (r: Vec<u8>)
    requires
        data@.len() < 0x2000_0000_0000_0000,
    ensures
        r@ == sha1_of(data@),
        r@.len() == 20,
{
    let mut hasher = Sha1::new();
    hasher.input(data);
    let mut out = [0u8; 20];
    hasher.result(&mut out);
    out.to_vec()
}

/// Relies on rustc-serialize's `ToBase64::to_base64` with the standard
/// alphabet, padding and no line breaks: the encoding `base64_of` states.
#[verifier::external_body]
pub(crate) fn base64_encode(data: &[u8]) -> (r: Vec<u8>)
    ensures
        r@ == base64_of(data@),
{
    let config = Config { char_set: Standard, newline: Newline::CRLF, pad: true, line_length: None };
    data.to_base64(config).into_bytes()
}

/// Relies on `String::from_utf8`: it accepts exactly the valid UTF-8 byte
/// strings and keeps their characters.
#[verifier::external_body]
pub(crate) fn text_from_utf8(data: Vec<u8>) -> (r: Option<String>)
    ensures
        match r {
            Some(s) => valid_utf8(data@) && s@ == decode_utf8(data@),
            None => !valid_utf8(data@),
        },
{
    String::from_utf8(data).ok()
}

} // verus!
