//! Encoding and decoding of one text data frame.

use crate::digest::text_from_utf8;
use crate::error::WsError;
use vstd::prelude::*;
use vstd::utf8::{decode_utf8, valid_utf8};

verus! {

/// First byte of every frame sent: FIN set, opcode text.
pub const TEXT_FRAME_HEAD: u8 = 129;

/// Largest length that fits the length byte itself.
pub const MAX_SHORT_LEN: u8 = 125;

/// Length indicator announcing a 16-bit big-endian length.
pub const EXTENDED_LEN_16: u8 = 126;

/// Length indicator announcing a 64-bit length, which is not supported.
pub const EXTENDED_LEN_64: u8 = 127;

/// Largest payload a frame can carry here.
pub const MAX_PAYLOAD_LEN: usize = 65535;

/// Bit of the second byte that says a mask key follows.
pub const MASK_BIT: u8 = 128;

/// Number of bytes in a mask key.
pub const MASK_KEY_LEN: usize = 4;

/// The length field for a payload of `n` bytes, with or without the mask bit.
pub open spec fn length_field(n: nat, masked: bool) -> Seq<u8> {
    let bit: nat = if masked { 128 } else { 0 };
    if n <= 125 {
        seq![(n + bit) as u8]
    } else {
        seq![(126 + bit) as u8, (n / 256) as u8, (n % 256) as u8]
    }
}

/// The frame the server sends for payload `p`: head byte, length field, payload.
pub open spec fn server_frame(p: Seq<u8>) -> Seq<u8> {
    seq![129u8] + length_field(p.len(), false) + p
}

/// `data` with byte `i` XOR-ed with `key[(i + offset) % 4]`.
pub open spec fn masked_from(data: Seq<u8>, key: Seq<u8>, offset: nat) -> Seq<u8> {
    Seq::new(data.len(), |i: int| data[i] ^ key[(i + offset) % 4])
}

/// `data` masked with `key` from its first byte on.
pub open spec fn masked(data: Seq<u8>, key: Seq<u8>) -> Seq<u8> {
    masked_from(data, key, 0)
}

/// The frame a client sends for payload `p` under mask key `key`: the header of
/// `server_frame(p)` with the mask bit set, then the key, then the masked payload.
pub open spec fn client_frame(p: Seq<u8>, key: Seq<u8>) -> Seq<u8> {
    let f = server_frame(p);
    let h = f.len() - p.len();
    f.subrange(0, h).update(1, (f[1] + 128) as u8) + key + masked(p, key)
}

/// The 7-bit length indicator of a frame's second byte.
pub open spec fn indicator(second: u8) -> nat {
    (second % 128) as nat
}

/// Bytes of head and length field, given the frame's second byte.
pub open spec fn header_len_of(second: u8) -> nat {
    if indicator(second) <= 125 {
        2
    } else {
        4
    }
}

/// The payload length a frame header announces.
pub open spec fn payload_len_of(header: Seq<u8>) -> nat {
    if indicator(header[1]) <= 125 {
        indicator(header[1])
    } else {
        header[2] as nat * 256 + header[3] as nat
    }
}

/// The unmasked payload of the frame at the start of `frame`, or why there is none.
/// Bytes after the frame are not read.
pub open spec fn decode_spec(frame: Seq<u8>) -> Result<Seq<u8>, WsError> {
    if frame.len() < 2 {
        Err(WsError::Truncated)
    } else if indicator(frame[1]) == 127 {
        Err(WsError::UnsupportedFrameLength)
    } else if frame.len() < header_len_of(frame[1]) + 4 {
        Err(WsError::Truncated)
    } else {
        let start = header_len_of(frame[1]) + 4;
        let n = payload_len_of(frame);
        if frame.len() < start + n {
            Err(WsError::Truncated)
        } else {
            Ok(masked(frame.subrange(start as int, (start + n) as int), frame.subrange(start - 4, start as int)))
        }
    }
}

/// The text of the frame at the start of `frame`, or why there is none.
pub open spec fn recv_spec(frame: Seq<u8>) -> Result<Seq<char>, WsError> {
    match decode_spec(frame) {
        Err(e) => Err(e),
        Ok(p) => if valid_utf8(p) {
            Ok(decode_utf8(p))
        } else {
            Err(WsError::InvalidText)
        },
    }
}

/// Frames `msg` as one unmasked text frame.
pub fn encode_frame(msg: &[u8]) -> (r: Result<Vec<u8>, WsError>)
    ensures
        match r {
            Ok(f) => msg@.len() <= MAX_PAYLOAD_LEN && f@ == server_frame(msg@),
            Err(e) => msg@.len() > MAX_PAYLOAD_LEN && e == WsError::UnsupportedFrameLength,
        },
{
    let n = msg.len();
    if n > MAX_PAYLOAD_LEN {
        return Err(WsError::UnsupportedFrameLength);
    }
    let mut out: Vec<u8> = Vec::new();
    out.push(TEXT_FRAME_HEAD);
    if n <= MAX_SHORT_LEN as usize {
        out.push(n as u8);
    } else {
        out.push(EXTENDED_LEN_16);
        out.push((n / 256) as u8);
        out.push((n % 256) as u8);
    }
    out.extend_from_slice(msg);
    assert(out@ =~= server_frame(msg@));
    Ok(out)
}

/// Bytes of head and length field of a frame whose second byte is `second`:
/// the caller reads this many before asking for the payload length.
pub fn header_len(second: u8) -> (r: Result<usize, WsError>)
    ensures
        match r {
            Ok(n) => indicator(second) != 127 && n == header_len_of(second),
            Err(e) => indicator(second) == 127 && e == WsError::UnsupportedFrameLength,
        },
{
    let ind = second % MASK_BIT;
    if ind == EXTENDED_LEN_64 {
        Err(WsError::UnsupportedFrameLength)
    } else if ind <= MAX_SHORT_LEN {
        Ok(2)
    } else {
        Ok(4)
    }
}

/// The payload length announced by a complete frame header.
pub fn payload_len(header: &[u8]) -> (r: usize)
    requires
        header@.len() >= 2,
        indicator(header@[1]) != 127,
        header@.len() >= header_len_of(header@[1]),
    ensures
        r == payload_len_of(header@),
{
    let ind = header[1] % MASK_BIT;
    if ind <= MAX_SHORT_LEN {
        ind as usize
    } else {
        header[2] as usize * 256 + header[3] as usize
    }
}

/// XORs each byte of `data` with the key byte at its position, counted from `offset`.
pub fn mask_payload(data: &[u8], key: &[u8], offset: usize) -> (r: Vec<u8>)
    requires
        key@.len() == MASK_KEY_LEN,
    ensures
        r@ == masked_from(data@, key@, offset as nat),
{
    let mut out: Vec<u8> = Vec::new();
    let mut i: usize = 0;
    let start = offset % MASK_KEY_LEN;
    while i < data.len()
        invariant
            key@.len() == 4,
            i <= data@.len(),
            start == offset % 4,
            out@.len() == i,
            forall|j: int| 0 <= j < i ==> out@[j] == data@[j] ^ key@[(j + offset) % 4],
        decreases data.len() - i,
    {
        let k = (i % MASK_KEY_LEN + start) % MASK_KEY_LEN;
        assert(k == (i + offset) % 4) by (nonlinear_arith)
            requires
                k == (i % 4 + start) % 4,
                start == offset % 4,
        {
            vstd::arithmetic::div_mod::lemma_add_mod_noop(i as int, offset as int, 4);
        }
        out.push(data[i] ^ key[k]);
        i += 1;
    }
    assert(out@ =~= masked_from(data@, key@, offset as nat));
    out
}

/// The unmasked payload of the frame at the start of `frame`.
pub fn decode_frame(frame: &[u8]) -> (r: Result<Vec<u8>, WsError>)
    ensures
        match r {
            Ok(p) => decode_spec(frame@) == Ok::<Seq<u8>, WsError>(p@),
            Err(e) => decode_spec(frame@) == Err::<Seq<u8>, WsError>(e),
        },
{
    if frame.len() < 2 {
        return Err(WsError::Truncated);
    }
    let hlen = match header_len(frame[1]) {
        Ok(n) => n,
        Err(e) => return Err(e),
    };
    if frame.len() < hlen + MASK_KEY_LEN {
        return Err(WsError::Truncated);
    }
    let n = payload_len(frame);
    let start = hlen + MASK_KEY_LEN;
    if frame.len() - start < n {
        return Err(WsError::Truncated);
    }
    let key = &frame[hlen..start];
    let body = &frame[start..start + n];
    let p = mask_payload(body, key, 0);
    assert(key@ =~= frame@.subrange(start - 4, start as int));
    assert(body@ =~= frame@.subrange(start as int, (start + n) as int));
    Ok(p)
}

/// The text carried by the frame at the start of `frame`.
pub fn decode_text_frame(frame: &[u8]) -> (r: Result<String, WsError>)
    ensures
        match r {
            Ok(s) => recv_spec(frame@) == Ok::<Seq<char>, WsError>(s@),
            Err(e) => recv_spec(frame@) == Err::<Seq<char>, WsError>(e),
        },
{
    let p = match decode_frame(frame) {
        Ok(p) => p,
        Err(e) => return Err(e),
    };
    match text_from_utf8(p) {
        Some(s) => Ok(s),
        None => Err(WsError::InvalidText),
    }
}

/// Masking is its own inverse: masking twice with the same key from the same
/// offset gives back the original bytes.
pub proof fn lemma_mask_involution(data: Seq<u8>, key: Seq<u8>, offset: nat)
    requires
        key.len() == 4,
    ensures
        masked_from(masked_from(data, key, offset), key, offset) == data,
{
    let twice = masked_from(masked_from(data, key, offset), key, offset);
    assert forall|i: int| 0 <= i < data.len() implies twice[i] == data[i] by {
        let a: u8 = data[i];
        let b: u8 = key[(i + offset) % 4];
        assert((a ^ b) ^ b == a) by (bit_vector);
    }
    assert(twice =~= data);
}

/// Round trip: a payload of at most 65535 bytes, framed as the server frames it
/// and then masked by a client under any key, decodes to the same payload, and
/// its text is the UTF-8 reading of that payload.
pub proof fn lemma_round_trip(p: Seq<u8>, key: Seq<u8>)
    requires
        p.len() <= 65535,
        key.len() == 4,
    ensures
        decode_spec(client_frame(p, key)) == Ok::<Seq<u8>, WsError>(p),
        recv_spec(client_frame(p, key)) == (if valid_utf8(p) {
            Ok::<Seq<char>, WsError>(decode_utf8(p))
        } else {
            Err::<Seq<char>, WsError>(WsError::InvalidText)
        }),
{
    let c = client_frame(p, key);
    let n: int = p.len() as int;
    lemma_mask_involution(p, key, 0);
    if n <= 125 {
        let second: u8 = (n + 128) as u8;
        assert(c =~= seq![129u8, second] + key + masked(p, key));
        assert(second % 128 == n);
        assert(c.subrange(2, 6) =~= key);
        assert(c.subrange(6, 6 + n) =~= masked(p, key));
    } else {
        let hi: u8 = (n / 256) as u8;
        let lo: u8 = (n % 256) as u8;
        assert(c =~= seq![129u8, 254u8, hi, lo] + key + masked(p, key));
        assert(hi as nat * 256 + lo as nat == n);
        assert(c.subrange(4, 8) =~= key);
        assert(c.subrange(8, 8 + n) =~= masked(p, key));
    }
}

} // verus!
