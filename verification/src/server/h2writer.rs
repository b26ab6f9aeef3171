//! The writer of responses on an HTTP/2 stream: what it makes of the head
//! of a response, how it buffers the body, and how it hands the buffer to
//! the stream as the stream gives capacity.

use vstd::prelude::*;
use crate::header::{without_header, HeaderMap};
use crate::httpresponse::{Body, HttpResponse};
use crate::param::ParamView;
use crate::server::{WriterState, MAX_WRITE_BUFFER_SIZE};
use crate::text::{convert_usize, decimal};

verus! {

/// The most that is reserved on the stream at once.
pub const CHUNK_SIZE: usize = 16_384;

/// How far the writer has come.
#[derive(Clone, Copy, Debug, PartialEq, Eq, Structural)]
pub struct Flags {
    pub started: bool,
    pub disconnected: bool,
    pub eof: bool,
}

/// The headers of a response as they go out on an HTTP/2 stream: without
/// `connection` and `transfer-encoding`; with the date `date` unless the
/// response says one; and with the length of the body where that is known.
pub open spec fn h2_headers(headers: Seq<ParamView>, date: Seq<char>, length: Option<nat>) -> Seq<
    ParamView,
> {
    let kept = without_header(without_header(headers, "connection"@), "transfer-encoding"@);
    let dated = if crate::header::has_header(kept, "date"@) {
        kept
    } else {
        kept.push(("date"@, date))
    };
    match length {
        Some(n) => without_header(dated, "content-length"@).push(("content-length"@, decimal(n))),
        None => dated,
    }
}

/// The length of a body, where it is known before the body is written.
pub open spec fn known_length(body: Body) -> Option<nat> {
    match body {
        Body::Binary(bytes) => Some(bytes@.len()),
        Body::Empty => Some(0),
        _ => None,
    }
}

/// What the stream said when it was asked for capacity.
#[derive(Clone, Copy, Debug, PartialEq, Eq, Structural)]
pub enum Capacity {
    /// It has none for now.
    NotReady,
    /// It is closed.
    Closed,
    /// It takes this many bytes.
    Ready(usize),
    /// It failed.
    Failed,
}

/// What happened since the last step of the flush.
#[derive(Clone, Copy, Debug, PartialEq, Eq, Structural)]
pub enum StreamEvent {
    /// The flush begins.
    Enter,
    /// The stream was asked for capacity.
    Capacity(Capacity),
    /// Data was handed to the stream; `false` where it refused them.
    Sent(bool),
}

/// What is to be done next for the flush.
#[derive(Debug, PartialEq, Eq)]
pub enum StreamAction {
    /// Ask the stream for capacity.
    PollCapacity,
    /// Hand these bytes to the stream, as its last if `eof` is set.
    Send { bytes: Vec<u8>, eof: bool },
    /// Reserve this much on the stream, then ask it for capacity.
    Reserve(usize),
    /// The flush is over: all has left, or nothing can leave now.
    Done,
    /// The flush is over: the buffer holds more than the stream takes.
    Pause,
    /// The stream failed.
    Failed,
}

/// The writer of one response.
#[derive(Debug)]
pub struct H2Writer {
    pub has_stream: bool,
    pub flags: Flags,
    pub written: u64,
    pub buffer: Vec<u8>,
    pub buffer_capacity: usize,
    pub sending: bool,
}

impl H2Writer {
    /// A writer that has not started, with the buffer `buf`.
    pub fn new(buf: Vec<u8>) -> (r: H2Writer)
        ensures
            r == (H2Writer {
                has_stream: false,
                flags: Flags { started: false, disconnected: false, eof: false },
                written: 0,
                buffer: buf,
                buffer_capacity: 0,
                sending: false,
            }),
    {
        H2Writer {
            has_stream: false,
            flags: Flags { started: false, disconnected: false, eof: false },
            written: 0,
            buffer: buf,
            buffer_capacity: 0,
            sending: false,
        }
    }

    /// Gives up the stream. Says whether there was one, which the caller
    /// then resets.
    pub fn reset(&mut self) -> (r: bool)
        ensures
            r == old(self).has_stream,
            *final(self) == (H2Writer { has_stream: false, ..*old(self) }),
    {
        let had = self.has_stream;
        self.has_stream = false;
        had
    }

    /// The number of bytes of the body that were written.
    pub fn written(&self) -> (r: u64)
        ensures
            r == self.written,
    {
        self.written
    }

    /// Prepares the head of the response `msg` for the stream, with `date`
    /// as the date where the response says none. Says whether the head is
    /// all there is to send, as it is for a response without body.
    pub fn start(&mut self, msg: &mut HttpResponse, date: &str) -> (eof: bool)
        ensures
            eof == (old(self).flags.eof || old(msg).body is Empty),
            final(self).flags == (Flags { started: true, eof, ..old(self).flags }),
            *final(self) == (H2Writer { flags: final(self).flags, ..*old(self) }),
            final(msg).status == old(msg).status,
            final(msg).body == old(msg).body,
            final(msg).headers@ == h2_headers(
                old(msg).headers@,
                date@,
                known_length(old(msg).body),
            ),
    {
        self.flags.started = true;
        if matches!(msg.body, Body::Empty) {
            self.flags.eof = true;
        }
        let eof = self.flags.eof;
        msg.headers.remove("connection");
        msg.headers.remove("transfer-encoding");
        if !msg.headers.contains_key("date") {
            msg.headers.append("date", date);
        }
        match &msg.body {
            Body::Binary(bytes) => {
                let length = convert_usize(bytes.len());
                msg.headers.insert("content-length", length.as_str());
            },
            Body::Empty => {
                msg.headers.insert("content-length", "0");
                proof {
                    reveal_strlit("0");
                    assert("0"@ =~= decimal(0));
                }
            },
            _ => {},
        }
        eof
    }

    /// Takes note of what the stream said to the head: with a stream the
    /// writer goes on; a response whose body is all there has its body in
    /// the buffer, encoded as `encoded`, and the writer asks for a pause
    /// with what it wants reserved on the stream; for any other response
    /// the writer takes more. `None` where the stream refused the head.
    pub fn started(&mut self, sent: bool, body: &Body, encoded: &[u8], capacity: usize) -> (r:
        Option<(WriterState, usize)>)
        ensures
            !sent ==> r is None && *final(self) == *old(self),
            sent ==> match *body {
                Body::Binary(bytes) => r == Some(
                    (
                        WriterState::Pause,
                        if final(self).buffer@.len() < CHUNK_SIZE {
                            final(self).buffer@.len() as usize
                        } else {
                            CHUNK_SIZE
                        },
                    ),
                ) && *final(self) == (H2Writer {
                    has_stream: true,
                    flags: Flags { eof: true, ..old(self).flags },
                    written: bytes@.len() as u64,
                    buffer: final(self).buffer,
                    ..*old(self)
                }) && final(self).buffer@ == old(self).buffer@ + encoded@,
                _ => r == Some((WriterState::Done, 0usize)) && *final(self) == (H2Writer {
                    has_stream: true,
                    buffer_capacity: capacity,
                    ..*old(self)
                }),
            },
    {
        if !sent {
            return None;
        }
        self.has_stream = true;
        match body {
            Body::Binary(bytes) => {
                self.flags.eof = true;
                self.written = bytes.len() as u64;
                self.extend(encoded);
                let len = self.buffer.len();
                Some((
                    WriterState::Pause,
                    if len < CHUNK_SIZE {
                        len
                    } else {
                        CHUNK_SIZE
                    },
                ))
            },
            _ => {
                self.buffer_capacity = capacity;
                Some((WriterState::Done, 0))
            },
        }
    }

    /// Appends bytes to the buffer.
    fn extend(&mut self, bytes: &[u8])
        ensures
            final(self).buffer@ == old(self).buffer@ + bytes@,
            *final(self) == (H2Writer { buffer: final(self).buffer, ..*old(self) }),
    {
        let mut i: usize = 0;
        assert(self.buffer@ =~= old(self).buffer@ + bytes@.take(0));
        while i < bytes.len()
            invariant
                i <= bytes@.len(),
                self.buffer@ == old(self).buffer@ + bytes@.take(i as int),
                *self == (H2Writer { buffer: self.buffer, ..*old(self) }),
            decreases bytes@.len() - i,
        {
            self.buffer.push(bytes[i]);
            i += 1;
            assert(self.buffer@ =~= old(self).buffer@ + bytes@.take(i as int));
        }
        assert(bytes@.take(bytes@.len() as int) =~= bytes@);
    }

    /// Whether the buffer holds more than the writer wants to hold.
    pub open spec fn full(&self) -> WriterState {
        if self.buffer@.len() > MAX_WRITE_BUFFER_SIZE {
            WriterState::Pause
        } else {
            WriterState::Done
        }
    }

    /// Takes a part of the body of `len` bytes, encoded as `encoded`: it
    /// goes to the buffer, unless the peer has gone away. The writer asks
    /// for a pause when the buffer holds more than it wants to hold.
    pub fn write(&mut self, len: usize, encoded: &[u8]) -> (r: WriterState)
        ensures
            final(self).written == len as u64,
            final(self).buffer@ == if old(self).flags.disconnected {
                old(self).buffer@
            } else {
                old(self).buffer@ + encoded@
            },
            *final(self) == (H2Writer {
                written: final(self).written,
                buffer: final(self).buffer,
                ..*old(self)
            }),
            r == final(self).full(),
    {
        self.written = len as u64;
        if !self.flags.disconnected {
            self.extend(encoded);
        }
        if self.buffer.len() > MAX_WRITE_BUFFER_SIZE {
            WriterState::Pause
        } else {
            WriterState::Done
        }
    }

    /// Takes note that the body is through. `encoded` is what the encoder
    /// still held, and `complete` says whether the encoder has seen as much
    /// as the response promised. `None` where it has not.
    pub fn write_eof(&mut self, encoded: &[u8], complete: bool) -> (r: Option<WriterState>)
        ensures
            final(self).flags == (Flags { eof: true, ..old(self).flags }),
            final(self).buffer@ == old(self).buffer@ + encoded@,
            *final(self) == (H2Writer {
                flags: final(self).flags,
                buffer: final(self).buffer,
                ..*old(self)
            }),
            r == if complete {
                Some(final(self).full())
            } else {
                None
            },
    {
        self.extend(encoded);
        self.flags.eof = true;
        if !complete {
            None
        } else if self.buffer.len() > MAX_WRITE_BUFFER_SIZE {
            Some(WriterState::Pause)
        } else {
            Some(WriterState::Done)
        }
    }

    /// The smaller of two numbers.
    pub open spec fn least(a: int, b: int) -> int {
        if a < b {
            a
        } else {
            b
        }
    }

    /// One step of the flush of the buffer to the stream.
    ///
    /// A writer that has not started, or has no stream, has nothing to
    /// flush. With an empty buffer the flush is over at once, after the end
    /// of the body is sent where it has come. Else the stream is asked for
    /// capacity: where it has none for now the writer asks for a pause if
    /// the buffer holds more than the response wants buffered; where it
    /// gives some, as much of the buffer as it takes is sent, as the last
    /// data if the buffer is empty then and the body is through; after that
    /// the writer reserves what is left, up to the size of a chunk, and
    /// asks again, or asks for a pause when nothing is left.
    pub fn poll_completed(&mut self, event: StreamEvent) -> (r: StreamAction)
        ensures
            final(self).has_stream == old(self).has_stream,
            final(self).flags == old(self).flags,
            final(self).buffer_capacity == old(self).buffer_capacity,
            match event {
                StreamEvent::Enter => if !old(self).flags.started || !old(self).has_stream {
                    r == StreamAction::Done && *final(self) == *old(self)
                } else if old(self).buffer@.len() == 0 {
                    (if old(self).flags.eof {
                        r matches StreamAction::Send { bytes, eof } && bytes@.len() == 0 && eof
                    } else {
                        r == StreamAction::Done
                    }) && *final(self) == *old(self)
                } else {
                    r == StreamAction::PollCapacity && *final(self) == (H2Writer {
                        sending: false,
                        ..*old(self)
                    })
                },
                StreamEvent::Capacity(Capacity::NotReady) => r == (if old(self).buffer@.len()
                    > old(self).buffer_capacity {
                    StreamAction::Pause
                } else {
                    StreamAction::Done
                }) && *final(self) == *old(self),
                StreamEvent::Capacity(Capacity::Closed) => r == StreamAction::Done && *final(self)
                    == *old(self),
                StreamEvent::Capacity(Capacity::Failed) => r == StreamAction::Failed && *final(self) == *old(self),
                StreamEvent::Capacity(Capacity::Ready(cap)) => {
                    let n = Self::least(cap as int, old(self).buffer@.len() as int);
                    &&& r matches StreamAction::Send { bytes, eof }
                    &&& bytes@ == old(self).buffer@.take(n)
                    &&& eof == (n == old(self).buffer@.len() && old(self).flags.eof)
                    &&& final(self).buffer@ == old(self).buffer@.skip(n)
                    &&& final(self).written == if old(self).written + n > u64::MAX {
                        u64::MAX
                    } else {
                        (old(self).written + n) as u64
                    }
                    &&& final(self).sending
                },
                StreamEvent::Sent(ok) => *final(self) == (H2Writer {
                    sending: false,
                    ..*old(self)
                }) && r == (if !old(self).sending {
                    StreamAction::Done
                } else if !ok {
                    StreamAction::Failed
                } else if old(self).buffer@.len() > 0 {
                    StreamAction::Reserve(
                        Self::least(old(self).buffer@.len() as int, CHUNK_SIZE as int) as usize,
                    )
                } else {
                    StreamAction::Pause
                }),
            },
    {
        match event {
            StreamEvent::Enter => {
                if !self.flags.started || !self.has_stream {
                    return StreamAction::Done;
                }
                if self.buffer.len() == 0 {
                    if self.flags.eof {
                        return StreamAction::Send { bytes: Vec::new(), eof: true };
                    }
                    return StreamAction::Done;
                }
                self.sending = false;
                StreamAction::PollCapacity
            },
            StreamEvent::Capacity(Capacity::NotReady) => {
                if self.buffer.len() > self.buffer_capacity {
                    StreamAction::Pause
                } else {
                    StreamAction::Done
                }
            },
            StreamEvent::Capacity(Capacity::Closed) => StreamAction::Done,
            StreamEvent::Capacity(Capacity::Failed) => StreamAction::Failed,
            StreamEvent::Capacity(Capacity::Ready(cap)) => {
                let len = self.buffer.len();
                let n = if cap < len {
                    cap
                } else {
                    len
                };
                let rest = self.buffer.split_off(n);
                let mut bytes = rest;
                core::mem::swap(&mut self.buffer, &mut bytes);
                let eof = self.buffer.len() == 0 && self.flags.eof;
                self.written = self.written.saturating_add(n as u64);
                self.sending = true;
                StreamAction::Send { bytes, eof }
            },
            StreamEvent::Sent(ok) => {
                let sending = self.sending;
                self.sending = false;
                if !sending {
                    StreamAction::Done
                } else if !ok {
                    StreamAction::Failed
                } else if self.buffer.len() > 0 {
                    let len = self.buffer.len();
                    StreamAction::Reserve(
                        if len < CHUNK_SIZE {
                            len
                        } else {
                            CHUNK_SIZE
                        },
                    )
                } else {
                    StreamAction::Pause
                }
            },
        }
    }
}

} // verus!
