//! The outbound request pipeline: the steps that send a request on a leased
//! connection and read the response, as decisions on what the connector,
//! the body source, the writer, the parser and the decoder reported.

use vstd::prelude::*;
use vstd::std_specs::convert::FromSpecImpl;
use vstd::string::StringSliceAdditionalSpecFns;
use crate::client::connector::{ClientConnectorError, Millis};
use crate::header::{coding_of, ContentEncoding};
use crate::server::WriterState;

verus! {

/// Why a response head could not be parsed.
#[derive(Debug)]
pub enum HttpResponseParserError {
    /// The peer closed the connection.
    Disconnected,
    /// The bytes are no response head.
    Error(String),
}

/// Why a request could not be sent, or its response not read.
#[derive(Debug)]
pub enum SendRequestError {
    /// The response took too long.
    Timeout,
    /// No connection could be had.
    Connector(ClientConnectorError),
    /// The response head could not be parsed.
    ParseError(HttpResponseParserError),
    /// Reading or writing failed.
    Io(String),
}

/// The error that a failure to connect becomes: a timeout stays a timeout,
/// any other failure is wrapped.
pub open spec fn connect_failure(err: ClientConnectorError) -> SendRequestError {
    match err {
        ClientConnectorError::Timeout => SendRequestError::Timeout,
        _ => SendRequestError::Connector(err),
    }
}

impl From<ClientConnectorError> for SendRequestError {
    fn from(err: ClientConnectorError) -> (r: SendRequestError) {
        match err {
            ClientConnectorError::Timeout => SendRequestError::Timeout,
            _ => SendRequestError::Connector(err),
        }
    }
}

impl FromSpecImpl<ClientConnectorError> for SendRequestError {
    open spec fn obeys_from_spec() -> bool {
        true
    }

    open spec fn from_spec(err: ClientConnectorError) -> SendRequestError {
        connect_failure(err)
    }
}

/// How far the sending of a request has come.
#[derive(Clone, Copy, Debug, PartialEq, Eq, Structural)]
pub enum State {
    /// Nothing is done yet.
    New,
    /// The connector was asked for a connection.
    Connect,
    /// A connection is there; the request head is to be written.
    Connection,
    /// The head is written; the body is streamed and the response awaited.
    Send,
    /// The response was handed out, or the request failed.
    Done,
}

impl State {
    /// The place of a state in the order in which a request passes
    /// through them.
    pub open spec fn rank(self) -> nat {
        match self {
            State::New => 0,
            State::Connect => 1,
            State::Connection => 2,
            State::Send => 3,
            State::Done => 4,
        }
    }
}

/// What the connector answered.
#[derive(Debug)]
pub enum ConnectPoll {
    /// No answer yet.
    NotReady,
    /// A connection.
    Connected,
    /// No connection.
    Failed(ClientConnectorError),
    /// The connector is gone.
    Canceled,
}

/// What the parser made of the bytes received so far.
#[derive(Debug)]
pub enum HeadPoll {
    /// The head is not complete.
    NotReady,
    /// A response head; with it the value of its `Content-Encoding`
    /// header, if it has one that is text.
    Ready(Option<String>),
    /// The bytes are no response head.
    Failed(HttpResponseParserError),
}

/// What happened since the last step of a request.
#[derive(Debug)]
pub enum SendEvent {
    /// The request is polled; `timed_out` says whether its timer has fired.
    Polled { timed_out: bool },
    /// The connector was polled.
    Connecting(ConnectPoll),
    /// The head was handed to the writer; `Err` where that failed.
    Started(Result<(), String>),
    /// The body writer was driven; `Err` where it failed.
    Written(Result<(), String>),
    /// The parser was run on what was received.
    Parsed(HeadPoll),
}

/// What is to be done next for a request.
#[derive(Debug)]
pub enum SendAction {
    /// Ask the connector for a connection, to be made within
    /// `conn_timeout`, and poll the answer.
    Connect { conn_timeout: Millis },
    /// Poll the answer of the connector.
    PollConnect,
    /// Hand the request head to the writer and set up the body source.
    Start,
    /// Drive the body writer.
    Write,
    /// Run the parser on what was received.
    Parse,
    /// Nothing can be done now.
    NotReady,
    /// Hand out the response.
    Ready,
    /// Give up.
    Fail(SendRequestError),
}

/// The sending of one request: its state, the connect timeout, and the
/// period after which it gives up.
#[derive(Debug)]
pub struct SendRequest {
    pub state: State,
    pub conn_timeout: Millis,
    pub timeout: Option<Millis>,
}

impl SendRequest {
    /// A request that is to ask the connector for its connection.
    pub fn new() -> (r: SendRequest)
        ensures
            r == (SendRequest { state: State::New, conn_timeout: 1000, timeout: None }),
    {
        SendRequest::with_connector()
    }

    /// A request that is to ask a given connector for its connection.
    pub fn with_connector() -> (r: SendRequest)
        ensures
            r == (SendRequest { state: State::New, conn_timeout: 1000, timeout: None }),
    {
        SendRequest { state: State::New, conn_timeout: 1000, timeout: None }
    }

    /// A request that is sent on a connection that is there already.
    pub fn with_connection() -> (r: SendRequest)
        ensures
            r == (SendRequest { state: State::Connection, conn_timeout: 1000, timeout: None }),
    {
        SendRequest { state: State::Connection, conn_timeout: 1000, timeout: None }
    }

    /// Sets the period after which the request gives up waiting for the
    /// response.
    pub fn timeout(self, timeout: Millis) -> (r: SendRequest)
        ensures
            r == (SendRequest { timeout: Some(timeout), ..self }),
    {
        let mut this = self;
        this.timeout = Some(timeout);
        this
    }

    /// Sets the period within which the connection has to be made.
    pub fn conn_timeout(self, timeout: Millis) -> (r: SendRequest)
        ensures
            r == (SendRequest { conn_timeout: timeout, ..self }),
    {
        let mut this = self;
        this.conn_timeout = timeout;
        this
    }

    /// The period for which the request timer is to run: the one that was
    /// set, or 5 s, which is then set.
    pub fn poll_timeout(&mut self) -> (r: Millis)
        ensures
            old(self).timeout matches Some(t) ==> r == t && *final(self) == *old(self),
            old(self).timeout is None ==> r == 5000 && *final(self) == (SendRequest {
                timeout: Some(5000u64),
                ..*old(self)
            }),
    {
        match self.timeout {
            Some(t) => t,
            None => {
                self.timeout = Some(5000);
                5000
            },
        }
    }

    /// One step of the request. A poll whose timer has fired gives up with
    /// `Timeout`, whatever the state. Else a poll does what the state
    /// asks for: a new request asks the connector; one that waits for the
    /// connector polls it; one with a connection starts writing; one that
    /// sends drives the writer. Then each answer decides:
    /// the connector's on whether to wait, to start, or to give up; the
    /// writer's on whether to parse; the parser's on whether to wait, to
    /// hand out the response, or to give up. An answer that the state did
    /// not ask for changes nothing and nothing is done on it.
    pub fn poll(&mut self, event: SendEvent) -> (r: SendAction)
        ensures
            final(self).conn_timeout == old(self).conn_timeout,
            final(self).timeout == old(self).timeout,
            final(self).state.rank() >= old(self).state.rank(),
            r is Fail ==> final(self).state == State::Done,
            r is Ready ==> old(self).state == State::Send && final(self).state == State::Done,
            match event {
                SendEvent::Polled { timed_out } => if timed_out {
                    r == SendAction::Fail(SendRequestError::Timeout)
                } else {
                    match old(self).state {
                        State::New => r == (SendAction::Connect {
                            conn_timeout: old(self).conn_timeout,
                        }) && final(self).state == State::Connect,
                        State::Connect => r == SendAction::PollConnect && final(self).state
                            == State::Connect,
                        State::Connection => r == SendAction::Start && final(self).state
                            == State::Connection,
                        State::Send => r == SendAction::Write && final(self).state
                            == State::Send,
                        State::Done => r == SendAction::NotReady && final(self).state
                            == State::Done,
                    }
                },
                SendEvent::Connecting(answer) => if old(self).state == State::Connect {
                    match answer {
                        ConnectPoll::NotReady => r == SendAction::NotReady && final(self).state
                            == State::Connect,
                        ConnectPoll::Connected => r == SendAction::Start && final(self).state
                            == State::Connection,
                        ConnectPoll::Failed(err) => r == SendAction::Fail(connect_failure(err)),
                        ConnectPoll::Canceled => r == SendAction::Fail(
                            SendRequestError::Connector(ClientConnectorError::Disconnected),
                        ),
                    }
                } else {
                    r == SendAction::NotReady && final(self).state == old(self).state
                },
                SendEvent::Started(done) => if old(self).state == State::Connection {
                    match done {
                        Ok(_) => r == SendAction::Write && final(self).state == State::Send,
                        Err(err) => r == SendAction::Fail(SendRequestError::Io(err)),
                    }
                } else {
                    r == SendAction::NotReady && final(self).state == old(self).state
                },
                SendEvent::Written(done) => if old(self).state == State::Send {
                    match done {
                        Ok(_) => r == SendAction::Parse && final(self).state == State::Send,
                        Err(err) => r == SendAction::Fail(SendRequestError::Io(err)),
                    }
                } else {
                    r == SendAction::NotReady && final(self).state == old(self).state
                },
                SendEvent::Parsed(head) => if old(self).state == State::Send {
                    match head {
                        HeadPoll::Ready(_) => r == SendAction::Ready,
                        HeadPoll::NotReady => r == SendAction::NotReady && final(self).state
                            == State::Send,
                        HeadPoll::Failed(err) => r == SendAction::Fail(
                            SendRequestError::ParseError(err),
                        ),
                    }
                } else {
                    r == SendAction::NotReady && final(self).state == old(self).state
                },
            },
    {
        match event {
            SendEvent::Polled { timed_out } => {
                if timed_out {
                    self.state = State::Done;
                    return SendAction::Fail(SendRequestError::Timeout);
                }
                match self.state {
                    State::New => {
                        self.state = State::Connect;
                        SendAction::Connect { conn_timeout: self.conn_timeout }
                    },
                    State::Connect => SendAction::PollConnect,
                    State::Connection => SendAction::Start,
                    State::Send => SendAction::Write,
                    State::Done => SendAction::NotReady,
                }
            },
            SendEvent::Connecting(answer) => {
                if !matches!(self.state, State::Connect) {
                    return SendAction::NotReady;
                }
                match answer {
                    ConnectPoll::NotReady => SendAction::NotReady,
                    ConnectPoll::Connected => {
                        self.state = State::Connection;
                        SendAction::Start
                    },
                    ConnectPoll::Failed(err) => {
                        self.state = State::Done;
                        SendAction::Fail(SendRequestError::from(err))
                    },
                    ConnectPoll::Canceled => {
                        self.state = State::Done;
                        SendAction::Fail(
                            SendRequestError::Connector(ClientConnectorError::Disconnected),
                        )
                    },
                }
            },
            SendEvent::Started(done) => {
                if !matches!(self.state, State::Connection) {
                    return SendAction::NotReady;
                }
                match done {
                    Ok(_) => {
                        self.state = State::Send;
                        SendAction::Write
                    },
                    Err(err) => {
                        self.state = State::Done;
                        SendAction::Fail(SendRequestError::Io(err))
                    },
                }
            },
            SendEvent::Written(done) => {
                if !matches!(self.state, State::Send) {
                    return SendAction::NotReady;
                }
                match done {
                    Ok(_) => SendAction::Parse,
                    Err(err) => {
                        self.state = State::Done;
                        SendAction::Fail(SendRequestError::Io(err))
                    },
                }
            },
            SendEvent::Parsed(head) => {
                if !matches!(self.state, State::Send) {
                    return SendAction::NotReady;
                }
                match head {
                    HeadPoll::Ready(_) => {
                        self.state = State::Done;
                        SendAction::Ready
                    },
                    HeadPoll::NotReady => SendAction::NotReady,
                    HeadPoll::Failed(err) => {
                        self.state = State::Done;
                        SendAction::Fail(SendRequestError::ParseError(err))
                    },
                }
            },
        }
    }
}


/// Whether the body writer runs, waits for the connection to drain, or is
/// through.
#[derive(Clone, Copy, Debug, PartialEq, Eq, Structural)]
pub enum RunningState {
    Running,
    Paused,
    Done,
}

impl RunningState {
    /// The state after a pause: a writer that is through stays so.
    pub open spec fn paused(self) -> RunningState {
        if self == RunningState::Done {
            RunningState::Done
        } else {
            RunningState::Paused
        }
    }

    /// The state after a resume: a writer that is through stays so.
    pub open spec fn resumed(self) -> RunningState {
        if self == RunningState::Done {
            RunningState::Done
        } else {
            RunningState::Running
        }
    }

    pub fn pause(&mut self)
        ensures
            *final(self) == old(self).paused(),
    {
        if !matches!(*self, RunningState::Done) {
            *self = RunningState::Paused
        }
    }

    pub fn resume(&mut self)
        ensures
            *final(self) == old(self).resumed(),
    {
        if !matches!(*self, RunningState::Done) {
            *self = RunningState::Running
        }
    }
}

/// Where the request body comes from.
#[derive(Clone, Copy, Debug, PartialEq, Eq, Structural)]
pub enum IoBody {
    /// A stream of chunks.
    Payload,
    /// An actor context that yields frames.
    Actor,
    /// Nowhere: there is no body, or it is through.
    Done,
}

/// A frame from an actor context: a chunk of the body, the end of the body
/// (a chunk that is absent), or a request to be told when all that was
/// written so far has left.
#[derive(Clone, Copy, Debug, PartialEq, Eq, Structural)]
pub enum BodyFrame {
    Chunk(bool),
    Drain,
}

/// What a body source yielded.
#[derive(Debug)]
pub enum BodyPoll {
    /// A chunk (from a stream of chunks).
    Chunk,
    /// Frames (from an actor context).
    Frames(Vec<BodyFrame>),
    /// The source is through.
    End,
    /// Nothing for now.
    NotReady,
    /// The source failed.
    Failed,
}

/// Whether the writer has flushed all it holds.
#[derive(Clone, Copy, Debug, PartialEq, Eq, Structural)]
pub enum FlushPoll {
    Ready,
    NotReady,
    Failed,
}

/// What happened since the last step of the body writer.
#[derive(Debug)]
pub enum WriteEvent {
    /// A pass begins.
    Enter,
    /// The body source was polled.
    Body(BodyPoll),
    /// The writer took a chunk, or the end of the body; `None` where it
    /// failed.
    Written(Option<WriterState>),
    /// The writer was asked to flush.
    Flushed(FlushPoll),
}

/// How a pass of the body writer ends.
#[derive(Clone, Copy, Debug, PartialEq, Eq, Structural)]
pub enum WritePoll {
    /// All is written.
    Ready,
    /// More is to come, or to leave.
    NotReady,
    /// The source or the writer failed.
    Failed,
}

/// What is to be done next for the body writer.
#[derive(Clone, Copy, Debug, PartialEq, Eq, Structural)]
pub enum WriteAction {
    /// Poll the stream of chunks.
    PollPayload,
    /// Poll the actor context; before, tell it that the peer is gone if
    /// `disconnected` is set.
    PollContext { disconnected: bool },
    /// Hand a chunk to the writer: the one that the stream yielded, or the
    /// one of frame `0`, `1`, ... of the frames that the context yielded.
    Write(usize),
    /// Tell the writer that the body is through.
    WriteEof,
    /// Ask the writer to flush.
    Flush,
    /// Begin another pass; before, answer the pending drain request if
    /// `drained` is set.
    Again { drained: bool },
    /// The pass ends; before, answer the pending drain request if
    /// `drained` is set.
    Return { poll: WritePoll, drained: bool },
}

/// What the body writer waits for within a pass.
#[derive(Clone, Copy, Debug, PartialEq, Eq, Structural)]
pub enum Stage {
    /// No pass is under way.
    Idle,
    /// The stream of chunks is being polled.
    Payload,
    /// The actor context is being polled.
    Context,
    /// A chunk from the stream is with the writer.
    Chunk,
    /// The chunk of a frame is with the writer.
    FrameChunk,
    /// The end of the body is with the writer.
    Eof,
    /// The writer flushes.
    Flush,
}

/// What the reader waits for within a pass.
#[derive(Clone, Copy, Debug, PartialEq, Eq, Structural)]
pub enum ReadStage {
    /// No pass is under way.
    Idle,
    /// The body writer is being driven.
    Write,
    /// The parser is being run.
    Parse,
    /// The decoder is being fed a chunk.
    Feed,
    /// The decoder is being told that the body is through.
    FeedEof,
}

/// The first frame from `at` on that is a chunk or the end of the body, or
/// the number of frames where there is none.
pub open spec fn next_chunk(frames: Seq<BodyFrame>, at: int) -> int
    decreases frames.len() - at,
{
    if at >= frames.len() {
        frames.len() as int
    } else if frames[at] is Chunk {
        at
    } else {
        next_chunk(frames, at + 1)
    }
}

/// The state of the exchange on a leased connection: whether the
/// connection and the parser are still held, where the body comes from, how
/// far writing it has come, and which decoder the response body goes
/// through.
#[derive(Debug)]
pub struct Pipeline {
    pub body: IoBody,
    pub conn: bool,
    pub parser: bool,
    pub disconnected: bool,
    pub drain: bool,
    pub decompress: Option<ContentEncoding>,
    pub should_decompress: bool,
    pub write_state: RunningState,
    pub stage: Stage,
    pub done: bool,
    pub frames: Vec<BodyFrame>,
    pub at: usize,
    pub res: Option<WriterState>,
    pub reading: ReadStage,
    pub need_run: bool,
}

impl Pipeline {
    /// The invariant of the pipeline: while the chunk of a frame is with
    /// the writer that frame is a chunk; and once a frame was worked off, a
    /// drain request is pending or the writer has answered.
    pub open spec fn wf(&self) -> bool {
        &&& self.stage == Stage::FrameChunk ==> self.at < self.frames@.len()
            && self.frames@[self.at as int] == BodyFrame::Chunk(true)
        &&& self.stage == Stage::FrameChunk && self.at > 0 ==> self.drain || self.res is Some
        &&& self.stage == Stage::Payload || self.stage == Stage::Context || self.stage
            == Stage::FrameChunk ==> self.body == IoBody::Done
    }

    /// The pipeline of a request whose head was written on a connection.
    pub fn new(body: IoBody, should_decompress: bool) -> (r: Pipeline)
        ensures
            r.wf(),
            r.body == body,
            r.conn,
            r.parser,
            !r.disconnected,
            !r.drain,
            r.decompress is None,
            r.should_decompress == should_decompress,
            r.write_state == RunningState::Running,
            r.stage == Stage::Idle,
            r.reading == ReadStage::Idle,
    {
        Pipeline {
            body,
            conn: true,
            parser: true,
            disconnected: false,
            drain: false,
            decompress: None,
            should_decompress,
            write_state: RunningState::Running,
            stage: Stage::Idle,
            done: false,
            frames: Vec::new(),
            at: 0,
            res: None,
            reading: ReadStage::Idle,
            need_run: false,
        }
    }

    /// Gives up the connection. Says whether there was one, which the
    /// caller then releases to the pool.
    pub fn release_conn(&mut self) -> (r: bool)
        ensures
            r == old(self).conn,
            *final(self) == (Pipeline { conn: false, ..*old(self) }),
    {
        let had = self.conn;
        self.conn = false;
        had
    }

    /// What is to be done when the body source is to be asked: poll it, or,
    /// where there is none, flush.
    fn pull(&mut self) -> (r: WriteAction)
        requires
            old(self).wf(),
            old(self).stage != Stage::FrameChunk,
        ensures
            final(self).wf(),
            (r, *final(self)) == Self::pulled(*old(self)),
    {
        match self.body {
            IoBody::Payload => {
                self.body = IoBody::Done;
                self.stage = Stage::Payload;
                WriteAction::PollPayload
            },
            IoBody::Actor => {
                self.body = IoBody::Done;
                self.stage = Stage::Context;
                WriteAction::PollContext { disconnected: self.disconnected }
            },
            IoBody::Done => {
                self.disconnected = true;
                self.done = true;
                self.stage = Stage::Flush;
                WriteAction::Flush
            },
        }
    }

    /// What is to be done once the writer has answered for a chunk from
    /// the stream or for the last frame: pause and flush, or go on
    /// with the source.
    fn written(&mut self, state: WriterState) -> (r: WriteAction)
        requires
            old(self).wf(),
            old(self).stage != Stage::FrameChunk,
        ensures
            final(self).wf(),
            (r, *final(self)) == Self::answered(*old(self), state),
    {
        match state {
            WriterState::Pause => {
                self.write_state.pause();
                self.stage = Stage::Flush;
                WriteAction::Flush
            },
            WriterState::Done => {
                self.write_state.resume();
                self.pull()
            },
        }
    }

    /// Works off the frames from `at` on, up to the next chunk.
    fn advance(&mut self) -> (r: WriteAction)
        requires
            old(self).at <= old(self).frames@.len(),
            old(self).frames@.len() > 0,
            old(self).at > 0 ==> old(self).drain || old(self).res is Some,
            old(self).body == IoBody::Done,
        ensures
            final(self).wf(),
            (r, *final(self)) == Self::advanced(*old(self)),
    {
        let n = self.frames.len();
        let ghost start = self.at as int;
        while self.at < self.frames.len()
            invariant
                old(self).at <= self.at <= self.frames@.len(),
                old(self).body == IoBody::Done,
                self.frames@.len() > 0,
                self.at > 0 ==> self.drain || self.res is Some,
                next_chunk(self.frames@, self.at as int) == next_chunk(
                    old(self).frames@,
                    old(self).at as int,
                ),
                self.drain == (old(self).drain || self.at > old(self).at),
                *self == (Pipeline { drain: self.drain, at: self.at, ..*old(self) }),
            decreases self.frames@.len() - self.at,
        {
            match self.frames[self.at] {
                BodyFrame::Drain => {
                    self.drain = true;
                    self.at = self.at + 1;
                },
                BodyFrame::Chunk(false) => {
                    self.disconnected = true;
                    self.stage = Stage::Eof;
                    return WriteAction::WriteEof;
                },
                BodyFrame::Chunk(true) => {
                    self.stage = Stage::FrameChunk;
                    return WriteAction::Write(self.at);
                },
            }
        }
        self.body = IoBody::Actor;
        if self.drain {
            self.write_state.resume();
            self.stage = Stage::Flush;
            return WriteAction::Flush;
        }
        self.stage = Stage::Idle;
        match self.res {
            Some(state) => self.written(state),
            None => vstd::pervasive::unreached(),
        }
    }
}


impl Pipeline {
    /// Whether a pass of the body writer has anything to do: not once the
    /// writer is through or the connection is given up.
    pub open spec fn writing(&self) -> bool {
        self.write_state != RunningState::Done && self.conn
    }

    /// Whether a pass asks the body source before it flushes: not while a
    /// drain request is pending or the writer is paused.
    pub open spec fn pulling(&self) -> bool {
        !self.drain && self.write_state != RunningState::Paused
    }

    /// What asking the body source comes to, from state `s`: the action,
    /// and the state after it.
    pub open spec fn pulled(s: Pipeline) -> (WriteAction, Pipeline) {
        match s.body {
            IoBody::Payload => (
                WriteAction::PollPayload,
                Pipeline { body: IoBody::Done, stage: Stage::Payload, ..s },
            ),
            IoBody::Actor => (
                WriteAction::PollContext { disconnected: s.disconnected },
                Pipeline { body: IoBody::Done, stage: Stage::Context, ..s },
            ),
            IoBody::Done => (
                WriteAction::Flush,
                Pipeline { disconnected: true, done: true, stage: Stage::Flush, ..s },
            ),
        }
    }

    /// What the answer `state` of the writer comes to, from state `s`
    /// with no frame left to work off.
    pub open spec fn answered(s: Pipeline, state: WriterState) -> (WriteAction, Pipeline) {
        match state {
            WriterState::Pause => (
                WriteAction::Flush,
                Pipeline { write_state: s.write_state.paused(), stage: Stage::Flush, ..s },
            ),
            WriterState::Done => Self::pulled(
                Pipeline { write_state: s.write_state.resumed(), ..s },
            ),
        }
    }

    /// What working off the frames of `s` from `s.at` on comes to: the
    /// drain requests up to the next chunk are kept; a chunk goes to the
    /// writer; the end of the body is passed on to the writer and marks the
    /// peer as done with; and where no chunk is left, a pending drain
    /// request makes the pass flush, and else the last answer of the writer
    /// decides.
    pub open spec fn advanced(s: Pipeline) -> (WriteAction, Pipeline) {
        let j = next_chunk(s.frames@, s.at as int);
        let t = Pipeline { drain: s.drain || j > s.at, at: j as usize, ..s };
        if j < s.frames@.len() && s.frames@[j] == BodyFrame::Chunk(true) {
            (WriteAction::Write(j as usize), Pipeline { stage: Stage::FrameChunk, ..t })
        } else if j < s.frames@.len() {
            (WriteAction::WriteEof, Pipeline { disconnected: true, stage: Stage::Eof, ..t })
        } else if t.drain {
            (
                WriteAction::Flush,
                Pipeline {
                    body: IoBody::Actor,
                    write_state: s.write_state.resumed(),
                    stage: Stage::Flush,
                    ..t
                },
            )
        } else {
            Self::answered(
                Pipeline { body: IoBody::Actor, ..t },
                match s.res {
                    Some(state) => state,
                    None => WriterState::Done,
                },
            )
        }
    }

    /// The step of the body writer on `event` in state `s`: the action,
    /// and the state after it.
    pub open spec fn write_step(s: Pipeline, event: WriteEvent) -> (WriteAction, Pipeline) {
        match (s.stage, event) {
            (Stage::Idle, WriteEvent::Enter) => if !s.writing() {
                (WriteAction::Return { poll: WritePoll::Ready, drained: false }, s)
            } else if !s.pulling() {
                (WriteAction::Flush, Pipeline { done: false, stage: Stage::Flush, ..s })
            } else {
                Self::pulled(Pipeline { done: false, ..s })
            },
            (Stage::Payload, WriteEvent::Body(BodyPoll::Chunk)) => (
                WriteAction::Write(0),
                Pipeline { body: IoBody::Payload, stage: Stage::Chunk, ..s },
            ),
            (Stage::Payload, WriteEvent::Body(BodyPoll::End)) => (
                WriteAction::WriteEof,
                Pipeline { stage: Stage::Eof, ..s },
            ),
            (Stage::Payload, WriteEvent::Body(BodyPoll::NotReady)) => (
                WriteAction::Flush,
                Pipeline { done: true, body: IoBody::Payload, stage: Stage::Flush, ..s },
            ),
            (Stage::Context, WriteEvent::Body(BodyPoll::Frames(frames))) => if frames@.len()
                == 0 {
                (WriteAction::Flush, Pipeline { body: IoBody::Actor, stage: Stage::Flush, ..s })
            } else {
                Self::advanced(Pipeline { frames, at: 0, res: None, ..s })
            },
            (Stage::Context, WriteEvent::Body(BodyPoll::End)) => (
                WriteAction::Flush,
                Pipeline { done: true, stage: Stage::Flush, ..s },
            ),
            (Stage::Context, WriteEvent::Body(BodyPoll::NotReady)) => (
                WriteAction::Flush,
                Pipeline { done: true, body: IoBody::Actor, stage: Stage::Flush, ..s },
            ),
            (Stage::Chunk, WriteEvent::Written(Some(state))) => Self::answered(
                Pipeline { stage: Stage::Idle, ..s },
                state,
            ),
            (Stage::FrameChunk, WriteEvent::Written(Some(state))) => Self::advanced(
                Pipeline { res: Some(state), at: (s.at + 1) as usize, stage: Stage::Idle, ..s },
            ),
            (Stage::Eof, WriteEvent::Written(Some(_))) => (
                WriteAction::Flush,
                Pipeline { disconnected: true, stage: Stage::Flush, ..s },
            ),
            (Stage::Flush, WriteEvent::Flushed(FlushPoll::Ready)) => {
                let state = if s.disconnected {
                    RunningState::Done
                } else {
                    s.write_state.resumed()
                };
                let t = Pipeline { write_state: state, drain: false, stage: Stage::Idle, ..s };
                if !s.done || state == RunningState::Done {
                    (WriteAction::Again { drained: s.drain }, t)
                } else {
                    (WriteAction::Return { poll: WritePoll::NotReady, drained: s.drain }, t)
                }
            },
            (Stage::Flush, WriteEvent::Flushed(FlushPoll::NotReady)) => (
                WriteAction::Return { poll: WritePoll::NotReady, drained: false },
                Pipeline { stage: Stage::Idle, ..s },
            ),
            _ => (
                WriteAction::Return { poll: WritePoll::Failed, drained: false },
                Pipeline { stage: Stage::Idle, ..s },
            ),
        }
    }

    /// One step of the body writer.
    ///
    /// A pass begins with `Enter`. It pulls from the body source for as long
    /// as the writer takes more: a chunk goes to the writer; the end of the
    /// body is passed on to the writer and marks the peer as done with; a
    /// drain request is kept. When the writer asks to pause, when the source
    /// has nothing for now, or when a drain request came, the pass goes on
    /// to flush. A flush that completes ends the pass if the source had
    /// nothing for now, and else begins another; it answers the drain
    /// request.
    ///
    /// An answer that the stage of the pass did not ask for ends the pass
    /// as failed.
    pub fn poll_write(&mut self, event: WriteEvent) -> (r: WriteAction)
        requires
            old(self).wf(),
        ensures
            final(self).wf(),
            (r, *final(self)) == Self::write_step(*old(self), event),
    {
        match event {
            WriteEvent::Enter => self.on_enter(),
            WriteEvent::Body(poll) => self.on_body(poll),
            WriteEvent::Written(answer) => self.on_written(answer),
            WriteEvent::Flushed(poll) => self.on_flushed(poll),
        }
    }

    /// The step that begins a pass.
    fn on_enter(&mut self) -> (r: WriteAction)
        requires
            old(self).wf(),
        ensures
            final(self).wf(),
            (r, *final(self)) == Self::write_step(*old(self), WriteEvent::Enter),
    {
        if !matches!(self.stage, Stage::Idle) {
            self.stage = Stage::Idle;
            return WriteAction::Return { poll: WritePoll::Failed, drained: false };
        }
        if matches!(self.write_state, RunningState::Done) || !self.conn {
            return WriteAction::Return { poll: WritePoll::Ready, drained: false };
        }
        self.done = false;
        if !self.drain && !matches!(self.write_state, RunningState::Paused) {
            self.pull()
        } else {
            self.stage = Stage::Flush;
            WriteAction::Flush
        }
    }

    /// The step on what the body source yielded.
    fn on_body(&mut self, poll: BodyPoll) -> (r: WriteAction)
        requires
            old(self).wf(),
        ensures
            final(self).wf(),
            (r, *final(self)) == Self::write_step(*old(self), WriteEvent::Body(poll)),
    {
        match self.stage {
            Stage::Payload => match poll {
                BodyPoll::Chunk => {
                    self.body = IoBody::Payload;
                    self.stage = Stage::Chunk;
                    WriteAction::Write(0)
                },
                BodyPoll::End => {
                    self.stage = Stage::Eof;
                    WriteAction::WriteEof
                },
                BodyPoll::NotReady => {
                    self.done = true;
                    self.body = IoBody::Payload;
                    self.stage = Stage::Flush;
                    WriteAction::Flush
                },
                _ => {
                    self.stage = Stage::Idle;
                    WriteAction::Return { poll: WritePoll::Failed, drained: false }
                },
            },
            Stage::Context => match poll {
                BodyPoll::Frames(frames) => {
                    if frames.len() == 0 {
                        self.body = IoBody::Actor;
                        self.stage = Stage::Flush;
                        WriteAction::Flush
                    } else {
                        self.frames = frames;
                        self.at = 0;
                        self.res = None;
                        self.advance()
                    }
                },
                BodyPoll::End => {
                    self.done = true;
                    self.stage = Stage::Flush;
                    WriteAction::Flush
                },
                BodyPoll::NotReady => {
                    self.done = true;
                    self.body = IoBody::Actor;
                    self.stage = Stage::Flush;
                    WriteAction::Flush
                },
                _ => {
                    self.stage = Stage::Idle;
                    WriteAction::Return { poll: WritePoll::Failed, drained: false }
                },
            },
            _ => {
                self.stage = Stage::Idle;
                WriteAction::Return { poll: WritePoll::Failed, drained: false }
            },
        }
    }

    /// The step on what the writer answered.
    fn on_written(&mut self, answer: Option<WriterState>) -> (r: WriteAction)
        requires
            old(self).wf(),
        ensures
            final(self).wf(),
            (r, *final(self)) == Self::write_step(*old(self), WriteEvent::Written(answer)),
    {
        let state = match answer {
            Some(state) => state,
            None => {
                self.stage = Stage::Idle;
                return WriteAction::Return { poll: WritePoll::Failed, drained: false };
            },
        };
        match self.stage {
            Stage::Chunk => {
                self.stage = Stage::Idle;
                self.written(state)
            },
            Stage::FrameChunk => {
                let n = self.frames.len();
                assert(self.at < n);
                self.res = Some(state);
                self.at = self.at + 1;
                self.stage = Stage::Idle;
                self.advance()
            },
            Stage::Eof => {
                self.disconnected = true;
                self.stage = Stage::Flush;
                WriteAction::Flush
            },
            _ => {
                self.stage = Stage::Idle;
                WriteAction::Return { poll: WritePoll::Failed, drained: false }
            },
        }
    }

    /// The step on what the flush came to.
    fn on_flushed(&mut self, poll: FlushPoll) -> (r: WriteAction)
        requires
            old(self).wf(),
        ensures
            final(self).wf(),
            (r, *final(self)) == Self::write_step(*old(self), WriteEvent::Flushed(poll)),
    {
        if !matches!(self.stage, Stage::Flush) {
            self.stage = Stage::Idle;
            return WriteAction::Return { poll: WritePoll::Failed, drained: false };
        }
        match poll {
            FlushPoll::Ready => {
                if self.disconnected {
                    self.write_state = RunningState::Done;
                } else {
                    self.write_state.resume();
                }
                let drained = self.drain;
                self.drain = false;
                self.stage = Stage::Idle;
                if !self.done || matches!(self.write_state, RunningState::Done) {
                    WriteAction::Again { drained }
                } else {
                    WriteAction::Return { poll: WritePoll::NotReady, drained }
                }
            },
            FlushPoll::NotReady => {
                self.stage = Stage::Idle;
                WriteAction::Return { poll: WritePoll::NotReady, drained: false }
            },
            FlushPoll::Failed => {
                self.stage = Stage::Idle;
                WriteAction::Return { poll: WritePoll::Failed, drained: false }
            },
        }
    }
}


/// No step of the body writer brings back a peer that is done with, takes
/// a finished writer up again, or touches what the reader holds.
pub proof fn lemma_write_step_keeps(s: Pipeline, event: WriteEvent)
    requires
        s.wf(),
    ensures
        ({
            let t = Pipeline::write_step(s, event).1;
            &&& s.disconnected ==> t.disconnected
            &&& s.write_state == RunningState::Done ==> t.write_state == RunningState::Done
            &&& t.conn == s.conn
            &&& t.parser == s.parser
            &&& t.decompress == s.decompress
            &&& t.should_decompress == s.should_decompress
            &&& t.reading == s.reading
            &&& t.need_run == s.need_run
        }),
{
}

/// A pass on a writer that is through, or without a connection, is over at
/// once, and nothing changes.
pub proof fn lemma_finished_writer_rests(s: Pipeline)
    requires
        s.stage == Stage::Idle,
        s.write_state == RunningState::Done || !s.conn,
    ensures
        Pipeline::write_step(s, WriteEvent::Enter) == (
            WriteAction::Return { poll: WritePoll::Ready, drained: false },
            s,
        ),
{
}

/// A pass does not ask the body source while the writer is paused or a
/// drain request is pending: it flushes first.
pub proof fn lemma_backpressure(s: Pipeline)
    requires
        s.stage == Stage::Idle,
        s.writing(),
        s.write_state == RunningState::Paused || s.drain,
    ensures
        Pipeline::write_step(s, WriteEvent::Enter).0 == WriteAction::Flush,
{
}

/// What the reader yields at the end of a pass.
#[derive(Clone, Copy, Debug, PartialEq, Eq, Structural)]
pub enum ReadPoll {
    /// A chunk of the response body.
    Chunk,
    /// The body is through.
    End,
    /// Nothing for now.
    NotReady,
    /// Reading failed.
    Failed,
}

/// What the parser made of the bytes of the body received so far.
#[derive(Clone, Copy, Debug, PartialEq, Eq, Structural)]
pub enum PayloadPoll {
    /// A chunk.
    Chunk,
    /// The body is through.
    End,
    /// Nothing for now.
    NotReady,
    /// The bytes are no body.
    Failed,
}

/// What the decoder made of a chunk, or of the end of the body.
#[derive(Clone, Copy, Debug, PartialEq, Eq, Structural)]
pub enum Decoded {
    /// Decoded bytes.
    Chunk,
    /// Nothing yet.
    Empty,
    /// It needs more before it can say.
    WouldBlock,
    /// The bytes cannot be decoded.
    Failed,
}

/// What happened since the last step of the reader.
#[derive(Clone, Copy, Debug, PartialEq, Eq, Structural)]
pub enum ReadEvent {
    /// A pass begins.
    Enter,
    /// A pass of the body writer ended.
    Wrote(WritePoll),
    /// The parser was run.
    Payload(PayloadPoll),
    /// The decoder was fed.
    Fed(Decoded),
}

/// What is to be done next for the reader.
#[derive(Clone, Copy, Debug, PartialEq, Eq, Structural)]
pub enum ReadAction {
    /// Run a pass of the body writer.
    Write,
    /// Run the parser on what was received.
    ParsePayload,
    /// Feed the chunk to the decoder.
    Feed,
    /// Tell the decoder that the body is through.
    FeedEof,
    /// The pass ends; before, release the connection to the pool if
    /// `release` is set.
    Return { poll: ReadPoll, release: bool },
}

impl Pipeline {
    /// What the end of the body comes to in state `s` once the decoder
    /// has nothing more: the body is through, and the connection goes back
    /// to the pool, unless the body writer still has to run.
    pub open spec fn finished(s: Pipeline) -> (ReadAction, Pipeline) {
        if s.need_run {
            (
                ReadAction::Return { poll: ReadPoll::NotReady, release: false },
                Pipeline { reading: ReadStage::Idle, ..s },
            )
        } else {
            (
                ReadAction::Return { poll: ReadPoll::End, release: s.conn },
                Pipeline { conn: false, reading: ReadStage::Idle, ..s },
            )
        }
    }

    /// What the end of the body comes to in state `s`: a decoder is told
    /// and gives up its place.
    pub open spec fn ended(s: Pipeline) -> (ReadAction, Pipeline) {
        if s.decompress is Some {
            (ReadAction::FeedEof, Pipeline { decompress: None, reading: ReadStage::FeedEof, ..s })
        } else {
            Self::finished(s)
        }
    }

    /// The step of the reader on `event` in state `s`: the action, and the
    /// state after it.
    pub open spec fn read_step(s: Pipeline, event: ReadEvent) -> (ReadAction, Pipeline) {
        let failed = (
            ReadAction::Return { poll: ReadPoll::Failed, release: false },
            Pipeline { reading: ReadStage::Idle, ..s },
        );
        match (s.reading, event) {
            (ReadStage::Idle, ReadEvent::Enter) => if !s.conn {
                (ReadAction::Return { poll: ReadPoll::End, release: false }, s)
            } else {
                (ReadAction::Write, Pipeline { need_run: false, reading: ReadStage::Write, ..s })
            },
            (ReadStage::Write, ReadEvent::Wrote(poll)) => if poll == WritePoll::Failed {
                failed
            } else {
                let t = Pipeline { need_run: poll == WritePoll::NotReady, ..s };
                if t.parser {
                    (ReadAction::ParsePayload, Pipeline { reading: ReadStage::Parse, ..t })
                } else {
                    Self::ended(t)
                }
            },
            (ReadStage::Parse, ReadEvent::Payload(PayloadPoll::Chunk)) => if s.decompress
                is Some {
                (ReadAction::Feed, Pipeline { reading: ReadStage::Feed, ..s })
            } else {
                (
                    ReadAction::Return { poll: ReadPoll::Chunk, release: false },
                    Pipeline { reading: ReadStage::Idle, ..s },
                )
            },
            (ReadStage::Parse, ReadEvent::Payload(PayloadPoll::End)) => Self::ended(
                Pipeline { parser: false, ..s },
            ),
            (ReadStage::Parse, ReadEvent::Payload(PayloadPoll::NotReady)) => (
                ReadAction::Return { poll: ReadPoll::NotReady, release: false },
                Pipeline { reading: ReadStage::Idle, ..s },
            ),
            (ReadStage::Feed, ReadEvent::Fed(Decoded::Chunk)) => (
                ReadAction::Return { poll: ReadPoll::Chunk, release: false },
                Pipeline { reading: ReadStage::Idle, ..s },
            ),
            (ReadStage::Feed, ReadEvent::Fed(Decoded::Empty)) => (
                ReadAction::Return { poll: ReadPoll::NotReady, release: false },
                Pipeline { reading: ReadStage::Idle, ..s },
            ),
            (ReadStage::Feed, ReadEvent::Fed(Decoded::WouldBlock)) => (
                ReadAction::ParsePayload,
                Pipeline { reading: ReadStage::Parse, ..s },
            ),
            (ReadStage::FeedEof, ReadEvent::Fed(Decoded::Chunk)) => (
                ReadAction::Return { poll: ReadPoll::Chunk, release: s.conn },
                Pipeline { conn: false, reading: ReadStage::Idle, ..s },
            ),
            (ReadStage::FeedEof, ReadEvent::Fed(Decoded::Empty)) => Self::finished(s),
            _ => failed,
        }
    }

    /// One step of the reader of the response body.
    ///
    /// A pass begins with `Enter`; without a connection the body is through.
    /// The pass first runs the body writer, then the parser for as long as
    /// there is one. A chunk goes through the decoder if one is installed:
    /// what it yields is handed out, and where it needs more the parser
    /// runs again. At the end of the body the parser is given up, the
    /// decoder is told and given up, and its last bytes are handed out;
    /// then the body is through, unless the body writer still has to run.
    /// With the last bytes, and with the end, the connection goes back to
    /// the pool.
    ///
    /// An answer that the stage of the pass did not ask for ends the pass
    /// as failed.
    pub fn poll(&mut self, event: ReadEvent) -> (r: ReadAction)
        ensures
            (r, *final(self)) == Self::read_step(*old(self), event),
            old(self).wf() ==> final(self).wf(),
    {
        match event {
            ReadEvent::Enter => self.on_read_enter(),
            ReadEvent::Wrote(poll) => self.on_wrote(poll),
            ReadEvent::Payload(poll) => self.on_payload(poll),
            ReadEvent::Fed(decoded) => self.on_fed(decoded),
        }
    }

    /// The step that begins a pass of the reader.
    fn on_read_enter(&mut self) -> (r: ReadAction)
        ensures
            (r, *final(self)) == Self::read_step(*old(self), ReadEvent::Enter),
            old(self).wf() ==> final(self).wf(),
    {
        if !matches!(self.reading, ReadStage::Idle) {
            self.reading = ReadStage::Idle;
            return ReadAction::Return { poll: ReadPoll::Failed, release: false };
        }
        if !self.conn {
            return ReadAction::Return { poll: ReadPoll::End, release: false };
        }
        self.need_run = false;
        self.reading = ReadStage::Write;
        ReadAction::Write
    }

    /// The step on how the pass of the body writer ended.
    fn on_wrote(&mut self, poll: WritePoll) -> (r: ReadAction)
        ensures
            (r, *final(self)) == Self::read_step(*old(self), ReadEvent::Wrote(poll)),
            old(self).wf() ==> final(self).wf(),
    {
        if !matches!(self.reading, ReadStage::Write) {
            self.reading = ReadStage::Idle;
            return ReadAction::Return { poll: ReadPoll::Failed, release: false };
        }
        match poll {
            WritePoll::Failed => {
                self.reading = ReadStage::Idle;
                return ReadAction::Return { poll: ReadPoll::Failed, release: false };
            },
            WritePoll::NotReady => {
                self.need_run = true;
            },
            WritePoll::Ready => {
                self.need_run = false;
            },
        }
        if self.parser {
            self.reading = ReadStage::Parse;
            ReadAction::ParsePayload
        } else {
            self.end()
        }
    }

    /// The step on what the parser made of the body.
    fn on_payload(&mut self, poll: PayloadPoll) -> (r: ReadAction)
        ensures
            (r, *final(self)) == Self::read_step(*old(self), ReadEvent::Payload(poll)),
            old(self).wf() ==> final(self).wf(),
    {
        if !matches!(self.reading, ReadStage::Parse) {
            self.reading = ReadStage::Idle;
            return ReadAction::Return { poll: ReadPoll::Failed, release: false };
        }
        match poll {
            PayloadPoll::Chunk => {
                if self.decompress.is_some() {
                    self.reading = ReadStage::Feed;
                    ReadAction::Feed
                } else {
                    self.reading = ReadStage::Idle;
                    ReadAction::Return { poll: ReadPoll::Chunk, release: false }
                }
            },
            PayloadPoll::End => {
                self.parser = false;
                self.end()
            },
            PayloadPoll::NotReady => {
                self.reading = ReadStage::Idle;
                ReadAction::Return { poll: ReadPoll::NotReady, release: false }
            },
            PayloadPoll::Failed => {
                self.reading = ReadStage::Idle;
                ReadAction::Return { poll: ReadPoll::Failed, release: false }
            },
        }
    }

    /// The step on what the decoder yielded.
    fn on_fed(&mut self, decoded: Decoded) -> (r: ReadAction)
        ensures
            (r, *final(self)) == Self::read_step(*old(self), ReadEvent::Fed(decoded)),
            old(self).wf() ==> final(self).wf(),
    {
        match self.reading {
            ReadStage::Feed => {
                match decoded {
                    Decoded::Chunk => {
                        self.reading = ReadStage::Idle;
                        ReadAction::Return { poll: ReadPoll::Chunk, release: false }
                    },
                    Decoded::Empty => {
                        self.reading = ReadStage::Idle;
                        ReadAction::Return { poll: ReadPoll::NotReady, release: false }
                    },
                    Decoded::WouldBlock => {
                        self.reading = ReadStage::Parse;
                        ReadAction::ParsePayload
                    },
                    Decoded::Failed => {
                        self.reading = ReadStage::Idle;
                        ReadAction::Return { poll: ReadPoll::Failed, release: false }
                    },
                }
            },
            ReadStage::FeedEof => {
                match decoded {
                    Decoded::Chunk => {
                        self.reading = ReadStage::Idle;
                        let release = self.release_conn();
                        ReadAction::Return { poll: ReadPoll::Chunk, release }
                    },
                    Decoded::Empty => self.finish(),
                    _ => {
                        self.reading = ReadStage::Idle;
                        ReadAction::Return { poll: ReadPoll::Failed, release: false }
                    },
                }
            },
            _ => {
                self.reading = ReadStage::Idle;
                ReadAction::Return { poll: ReadPoll::Failed, release: false }
            },
        }
    }

    /// The end of the body, before the decoder is told.
    fn end(&mut self) -> (r: ReadAction)
        ensures
            (r, *final(self)) == Self::ended(*old(self)),
            old(self).wf() ==> final(self).wf(),
    {
        if self.decompress.is_some() {
            self.decompress = None;
            self.reading = ReadStage::FeedEof;
            ReadAction::FeedEof
        } else {
            self.finish()
        }
    }

    /// The end of the body, after the decoder was told.
    fn finish(&mut self) -> (r: ReadAction)
        ensures
            (r, *final(self)) == Self::finished(*old(self)),
            old(self).wf() ==> final(self).wf(),
    {
        self.reading = ReadStage::Idle;
        if self.need_run {
            ReadAction::Return { poll: ReadPoll::NotReady, release: false }
        } else {
            let release = self.release_conn();
            ReadAction::Return { poll: ReadPoll::End, release }
        }
    }

    /// The decoder that a response asks for: the coding that its
    /// `Content-Encoding` names, unless responses are not to be decoded,
    /// the header is absent, or the coding is none.
    pub open spec fn decoder_for(should_decompress: bool, coding: Option<Seq<u8>>) -> Option<
        ContentEncoding,
    > {
        match coding {
            Some(value) => {
                let enc = coding_of(value);
                if should_decompress && enc != ContentEncoding::Auto && enc
                    != ContentEncoding::Identity {
                    Some(enc)
                } else {
                    None
                }
            },
            None => None,
        }
    }

    /// Takes note of what the parser made of the response head. Without
    /// a connection there is nothing to parse and the head is not ready.
    /// With a head, the decoder that it asks for is installed.
    pub fn parse(&mut self, head: HeadPoll) -> (r: HeadPoll)
        ensures
            !old(self).conn ==> r == HeadPoll::NotReady && *final(self) == *old(self),
            old(self).conn ==> r == head,
            old(self).conn ==> match head {
                HeadPoll::Ready(coding) => *final(self) == (Pipeline {
                    decompress: match Self::decoder_for(
                        old(self).should_decompress,
                        match coding {
                            Some(c) => Some(vstd::utf8::encode_utf8(c@)),
                            None => None,
                        },
                    ) {
                        Some(enc) => Some(enc),
                        None => old(self).decompress,
                    },
                    ..*old(self)
                }),
                _ => *final(self) == *old(self),
            },
    {
        if !self.conn {
            return HeadPoll::NotReady;
        }
        match &head {
            HeadPoll::Ready(Some(coding)) => {
                if self.should_decompress {
                    match ContentEncoding::from(coding.as_str()) {
                        ContentEncoding::Auto | ContentEncoding::Identity => (),
                        enc => {
                            self.decompress = Some(enc);
                        },
                    }
                }
            },
            _ => {},
        }
        head
    }

    /// Gives up the connection when the pipeline is dropped. Says whether
    /// there was one, which the caller then closes: what state it is in is
    /// not known.
    pub fn drop(&mut self) -> (r: bool)
        ensures
            r == old(self).conn,
            *final(self) == (Pipeline { conn: false, ..*old(self) }),
    {
        self.release_conn()
    }
}

/// Once the connection is given up the response body is through: a pass of
/// the reader ends at once and asks for nothing.
pub proof fn lemma_read_after_release(s: Pipeline)
    requires
        s.reading == ReadStage::Idle,
        !s.conn,
    ensures
        Pipeline::read_step(s, ReadEvent::Enter) == (
            ReadAction::Return { poll: ReadPoll::End, release: false },
            s,
        ),
{
}

/// The reader gives the connection back at most once: when a step asks
/// for its release, the connection was held before the step and is not
/// held after it.
pub proof fn lemma_release_once(s: Pipeline, event: ReadEvent)
    ensures
        Pipeline::read_step(s, event).0 matches ReadAction::Return { release: true, .. } ==> s.conn
            && !Pipeline::read_step(s, event).1.conn,
{
}

} // verus!
