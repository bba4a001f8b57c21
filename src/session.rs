//! One WebSocket session: established by the handshake, then frames in and out
//! until the first failure closes it. The session does no I/O itself: it keeps
//! the bytes the caller must write, and decodes the frames the caller has read.

use crate::error::WsError;
use crate::frame::{decode_text_frame, encode_frame, recv_spec, server_frame, MAX_PAYLOAD_LEN};
use crate::digest::sha1_of;
use crate::handshake::{
    accept_token_spec, challenge_key, handshake_spec, lines_view, negotiate, token_shape, WS_GUID,
};
use vstd::string::StringSliceAdditionalSpecFns;
use vstd::prelude::*;

verus! {

pub struct WebSocket {
    output: Vec<u8>,
    open: bool,
}

impl WebSocket {
    /// Bytes produced by the session that the caller has not taken yet.
    pub closed spec fn pending(&self) -> Seq<u8> {
        self.output@
    }

    /// Whether the session is established and has not failed.
    pub closed spec fn is_open_spec(&self) -> bool {
        self.open
    }

    /// Performs the handshake on the request `lines` (the request line, then the
    /// header lines). On success the session is open and its pending output is
    /// the upgrade response; on failure there is no session and nothing to write.
    pub fn new(request: &Vec<Vec<u8>>) -> (r: Result<WebSocket, WsError>)
        requires
            forall|i: int|
                0 <= i < request@.len() ==> #[trigger] request@[i]@.len() < 0x1000_0000_0000_0000,
        ensures
            match r {
                Ok(ws) => ws.is_open_spec() && handshake_spec(lines_view(request@)) == Ok::<
                    Seq<u8>,
                    WsError,
                >(ws.pending()),
                Err(e) => handshake_spec(lines_view(request@)) == Err::<Seq<u8>, WsError>(e),
            },
            challenge_key(lines_view(request@)) is Some ==> sha1_of(
                challenge_key(lines_view(request@))->Some_0 + WS_GUID.spec_bytes(),
            ).len() == 20 && token_shape(
                accept_token_spec(challenge_key(lines_view(request@))->Some_0),
            ),
    {
        match negotiate(request) {
            Ok(response) => Ok(WebSocket { output: response, open: true }),
            Err(e) => Err(e),
        }
    }

    /// Queues `msg` as one text frame. A payload over 65535 bytes is refused
    /// with `UnsupportedFrameLength`, which closes the session.
    pub fn send(&mut self, msg: &[u8]) -> (r: Result<(), WsError>)
        ensures
            !old(self).is_open_spec() ==> r == Err::<(), WsError>(WsError::SessionClosed),
            old(self).is_open_spec() && msg@.len() <= MAX_PAYLOAD_LEN ==> r is Ok,
            old(self).is_open_spec() && msg@.len() > MAX_PAYLOAD_LEN ==> r == Err::<(), WsError>(
                WsError::UnsupportedFrameLength,
            ),
            r is Ok ==> final(self).pending() == old(self).pending() + server_frame(msg@)
                && final(self).is_open_spec(),
            r is Err ==> final(self).pending() == old(self).pending() && !final(self).is_open_spec(),
    {
        if !self.open {
            return Err(WsError::SessionClosed);
        }
        match encode_frame(msg) {
            Ok(f) => {
                self.output.extend_from_slice(f.as_slice());
                Ok(())
            },
            Err(e) => {
                self.open = false;
                Err(e)
            },
        }
    }

    /// Decodes the text frame at the start of `frame`, as read from the peer.
    /// Any failure closes the session.
    pub fn recv(&mut self, frame: &[u8]) -> (r: Result<String, WsError>)
        ensures
            final(self).pending() == old(self).pending(),
            !old(self).is_open_spec() ==> r == Err::<String, WsError>(WsError::SessionClosed),
            old(self).is_open_spec() ==> match r {
                Ok(s) => recv_spec(frame@) == Ok::<Seq<char>, WsError>(s@),
                Err(e) => recv_spec(frame@) == Err::<Seq<char>, WsError>(e),
            },
            final(self).is_open_spec() == (r is Ok),
    {
        if !self.open {
            return Err(WsError::SessionClosed);
        }
        let r = decode_text_frame(frame);
        if r.is_err() {
            self.open = false;
        }
        r
    }

    /// Hands out the pending output, leaving none.
    pub fn take_output(&mut self) -> (r: Vec<u8>)
        ensures
            r@ == old(self).pending(),
            final(self).pending() == Seq::<u8>::empty(),
            final(self).is_open_spec() == old(self).is_open_spec(),
    {
        let mut out: Vec<u8> = Vec::new();
        std::mem::swap(&mut out, &mut self.output);
        out
    }

    /// Whether the session is open.
    pub fn is_open(&self) -> (r: bool)
        ensures
            r == self.is_open_spec(),
    {
        self.open
    }

    /// Closes the session, as after a failure of the connection beneath it.
    pub fn close(&mut self)
        ensures
            !final(self).is_open_spec(),
            final(self).pending() == old(self).pending(),
    {
        self.open = false;
    }
}

} // verus!
