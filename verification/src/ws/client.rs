//! A WebSocket endpoint over a byte stream: the handshake in either role, and
//! the sender and receiver that carry messages afterwards.

use crate::result::{WebSocketError, WebSocketResult};
use crate::ws::handshake::request::{
    read_request, request_bytes, request_readable, ReadWebSocketRequest, RequestView,
    WebSocketRequest, WriteWebSocketRequest,
};
use crate::ws::handshake::response::{
    read_response, response_bytes, response_readable, ReadWebSocketResponse, ResponseView,
    WebSocketResponse, WriteWebSocketResponse,
};
use crate::ws::message::receive::{new_receiver, WebSocketReceiver};
use crate::ws::message::send::{new_sender, WebSocketSender};
use vstd::prelude::*;

verus! {

/// Which end of the connection the remote endpoint is.
#[derive(Clone, Copy, Debug, PartialEq, Eq, Structural)]
pub enum WebSocketClientMode {
    /// The remote endpoint is a client: the local endpoint is the server.
    RemoteClient,
    /// The remote endpoint is a server: the local endpoint is the client.
    RemoteServer,
}

/// A WebSocket connection over the stream `S`. What is sent to the remote
/// endpoint is masked exactly when the remote endpoint is a server.
pub struct WebSocketClient<S> {
    stream: S,
    mask: bool,
}

impl<S> WebSocketClient<S> {
    /// The stream of the connection.
    pub closed spec fn stream_of(&self) -> S {
        self.stream
    }

    /// Whether what this endpoint sends is masked.
    pub closed spec fn masks(&self) -> bool {
        self.mask
    }
}

impl<S: Clone> WebSocketClient<S> {
    /// Creates a connection over `stream`. Nothing is read from or written to
    /// the stream; what is sent is masked when the remote endpoint is a server.
    pub fn new(stream: S, mode: WebSocketClientMode) -> (c: WebSocketClient<S>)
        ensures
            c.stream_of() == stream,
            c.masks() == (mode == WebSocketClientMode::RemoteServer),
    {
        WebSocketClient {
            stream,
            mask: match mode {
                WebSocketClientMode::RemoteClient => false,
                WebSocketClientMode::RemoteServer => true,
            },
        }
    }

    /// Returns a copy of the underlying stream.
    pub fn stream(&self) -> (s: S)
        ensures
            call_ensures(S::clone, (&self.stream_of(),), s),
    {
        self.stream.clone()
    }

    /// Returns a sender for this connection, which masks as the connection does.
    pub fn sender(&self) -> (s: WebSocketSender)
        ensures
            s.masks() == self.masks(),
    {
        new_sender(self.mask)
    }

    /// Returns a receiver for this connection, with no message begun.
    pub fn receiver(&self) -> (r: WebSocketReceiver)
        ensures
            r.pending_opcode() is None,
            r.pending_data() == Seq::<u8>::empty(),
    {
        new_receiver()
    }

    /// A copy of this connection, over a copy of its stream.
    pub fn clone(&self) -> (c: WebSocketClient<S>)
        ensures
            c.masks() == self.masks(),
            call_ensures(S::clone, (&self.stream_of(),), c.stream_of()),
    {
        WebSocketClient { stream: self.stream.clone(), mask: self.mask }
    }
}

impl WebSocketClient<Vec<u8>> {
    /// Reads the handshake request that the remote client sent.
    pub fn receive_handshake_request(&mut self) -> (r: WebSocketResult<WebSocketRequest>)
        ensures
            final(self).masks() == old(self).masks(),
            request_readable(old(self).stream_of()@) ==> ({
                let (res, rest) = read_request(old(self).stream_of()@);
                &&& final(self).stream_of()@ == rest
                &&& match r {
                    Ok(req) => res matches Ok(v) && req.resource_name@ == v.resource_name
                        && req.http_version == v.http_version && req.headers@ == v.headers,
                    Err(e) => res == Err::<RequestView, WebSocketError>(e),
                }
            }),
    {
        self.stream.read_websocket_request()
    }

    /// Reads the handshake response that the remote server sent.
    pub fn receive_handshake_response(&mut self) -> (r: WebSocketResult<WebSocketResponse>)
        ensures
            final(self).masks() == old(self).masks(),
            response_readable(old(self).stream_of()@) ==> ({
                let (res, rest) = read_response(old(self).stream_of()@);
                &&& final(self).stream_of()@ == rest
                &&& match r {
                    Ok(resp) => res matches Ok(v) && resp.http_version == v.http_version
                        && resp.status_code == v.status_code && resp.reason_phrase@
                        == v.reason_phrase && resp.headers@ == v.headers,
                    Err(e) => res == Err::<ResponseView, WebSocketError>(e),
                }
            }),
    {
        self.stream.read_websocket_response()
    }

    /// Sends the handshake request to the remote server.
    pub fn send_handshake_request(&mut self, request: &WebSocketRequest) -> (r: WebSocketResult<()>)
        ensures
            r is Ok,
            final(self).masks() == old(self).masks(),
            final(self).stream_of()@ == old(self).stream_of()@ + request_bytes(
                request.resource_name@,
                request.http_version,
                request.headers.entries(),
            ),
    {
        self.stream.write_websocket_request(request)
    }

    /// Sends the handshake response to the remote client.
    pub fn send_handshake_response(&mut self, response: &WebSocketResponse) -> (r: WebSocketResult<()>)
        ensures
            r is Ok,
            final(self).masks() == old(self).masks(),
            final(self).stream_of()@ == old(self).stream_of()@ + response_bytes(
                response.http_version,
                response.status_code as nat,
                response.reason_phrase@,
                response.headers.entries(),
            ),
    {
        self.stream.write_websocket_response(response)
    }
}

} // verus!
