//! The middleware chain executor: for one request, the order in which the
//! middlewares start, the handler runs, the middlewares see the response,
//! the response goes out, and the middlewares finish.

use vstd::prelude::*;

verus! {

/// What takes a request once the middlewares have started.
#[derive(Clone, Copy, Debug, PartialEq, Eq, Structural)]
pub enum HandlerType {
    /// The resource at this place of the table.
    Normal(usize),
    /// The handler at this place of the list of prefix handlers.
    Handler(usize),
    /// The default resource.
    Default,
}

/// How far a request has come.
#[derive(Clone, Copy, Debug, PartialEq, Eq, Structural)]
pub enum PipelineState {
    /// Nothing is done yet.
    Initial,
    /// The middlewares start.
    Starting,
    /// The handler runs.
    Handler,
    /// The middlewares see the response.
    RunMiddlewares,
    /// The response goes out.
    Response,
    /// The middlewares finish.
    Finishing,
    /// All is done.
    Completed,
}

/// What a middleware, or the handler, answered, as far as the order of the
/// chain goes. An error counts as the response that it becomes.
#[derive(Clone, Copy, Debug, PartialEq, Eq, Structural)]
pub enum Answer {
    /// It is done and has nothing to say.
    Done,
    /// It is done and there is a response.
    Response,
    /// It is not done yet.
    NotReady,
}

/// What happened since the last step of the chain.
#[derive(Clone, Copy, Debug, PartialEq, Eq, Structural)]
pub enum Event {
    /// The request is there.
    Begin,
    /// The `start` of a middleware, or what it made the chain wait for,
    /// answered.
    Started(Answer),
    /// The handler, or what it made the chain wait for, answered.
    Handled(Answer),
    /// The `response` of a middleware, or what it made the chain wait for,
    /// answered.
    Responded(Answer),
    /// The writer answered: `Done` when the response has gone out, or the
    /// peer has gone away; `NotReady` while it is paused.
    Written(Answer),
    /// The `finish` of a middleware, or what it made the chain wait for,
    /// answered.
    Finished(Answer),
}

/// What is to be done next for a request.
#[derive(Clone, Copy, Debug, PartialEq, Eq, Structural)]
pub enum Action {
    /// Call `start` of the middleware at this place.
    Start(usize),
    /// Call the handler.
    Handle(HandlerType),
    /// Call `response` of the middleware at this place.
    Respond(usize),
    /// Write the response out.
    Write,
    /// Call `finish` of the middleware at this place.
    Finish(usize),
    /// Wait for what was asked last.
    NotReady,
    /// Nothing: the request is done.
    Done,
}

/// The chain for one request: the number of middlewares, what takes the
/// request, how far the request has come, how many middlewares have
/// started, and how many of those are still to see the response or to
/// finish.
#[derive(Clone, Copy, Debug, PartialEq, Eq, Structural)]
pub struct Pipeline {
    pub mws: usize,
    pub htype: HandlerType,
    pub state: PipelineState,
    pub count: usize,
    pub curr: usize,
}

impl Pipeline {
    /// The invariant of the chain: no more middlewares have started than
    /// there are, and no more are still to be called than have started.
    pub open spec fn wf(&self) -> bool {
        &&& self.count <= self.mws
        &&& self.curr <= self.count
        &&& self.state == PipelineState::Initial ==> self.count == 0
    }

    /// The chain for a request that `htype` takes, with `mws` middlewares.
    pub fn new(mws: usize, htype: HandlerType) -> (r: Pipeline)
        ensures
            r.wf(),
            r == (Pipeline { mws, htype, state: PipelineState::Initial, count: 0, curr: 0 }),
    {
        Pipeline { mws, htype, state: PipelineState::Initial, count: 0, curr: 0 }
    }

    /// The start of the next middleware, or the handler once all have
    /// started.
    pub open spec fn next_start(s: Pipeline) -> (Action, Pipeline) {
        if s.count < s.mws {
            (
                Action::Start(s.count),
                Pipeline {
                    state: PipelineState::Starting,
                    count: (s.count + 1) as usize,
                    ..s
                },
            )
        } else {
            (Action::Handle(s.htype), Pipeline { state: PipelineState::Handler, ..s })
        }
    }

    /// The response goes to the next middleware, from the last that has
    /// started to the first; after the first it goes out.
    pub open spec fn next_respond(s: Pipeline) -> (Action, Pipeline) {
        if s.curr > 0 {
            (
                Action::Respond((s.curr - 1) as usize),
                Pipeline {
                    state: PipelineState::RunMiddlewares,
                    curr: (s.curr - 1) as usize,
                    ..s
                },
            )
        } else {
            (Action::Write, Pipeline { state: PipelineState::Response, ..s })
        }
    }

    /// The next middleware finishes, from the last that has started to the
    /// first; after the first the request is done.
    pub open spec fn next_finish(s: Pipeline) -> (Action, Pipeline) {
        if s.curr > 0 {
            (
                Action::Finish((s.curr - 1) as usize),
                Pipeline { state: PipelineState::Finishing, curr: (s.curr - 1) as usize, ..s },
            )
        } else {
            (Action::Done, Pipeline { state: PipelineState::Completed, ..s })
        }
    }

    /// The step of the chain on `event` in state `s`: the action, and the
    /// state after it.
    ///
    /// The middlewares start in their order. One that answers with a
    /// response ends the starting: the handler does not run, and the
    /// middlewares after it neither start nor see the response nor finish.
    /// The response of the middleware, or of the handler, goes through the
    /// middlewares that have started, from the last to the first; then it
    /// goes out; then the same middlewares finish, from the last to the
    /// first. While an answer is not ready the chain waits. An answer that
    /// the state did not ask for changes nothing.
    pub open spec fn step(s: Pipeline, event: Event) -> (Action, Pipeline) {
        match (s.state, event) {
            (PipelineState::Initial, Event::Begin) => Self::next_start(s),
            (PipelineState::Starting, Event::Started(Answer::Done)) => Self::next_start(s),
            (PipelineState::Starting, Event::Started(Answer::Response)) => Self::next_respond(
                Pipeline { curr: s.count, ..s },
            ),
            (PipelineState::Handler, Event::Handled(Answer::Done)) => Self::next_respond(
                Pipeline { curr: s.count, ..s },
            ),
            (PipelineState::Handler, Event::Handled(Answer::Response)) => Self::next_respond(
                Pipeline { curr: s.count, ..s },
            ),
            (PipelineState::RunMiddlewares, Event::Responded(Answer::Done)) => Self::next_respond(
                s,
            ),
            (PipelineState::RunMiddlewares, Event::Responded(Answer::Response)) => {
                Self::next_respond(s)
            },
            (PipelineState::Response, Event::Written(Answer::Done)) => Self::next_finish(
                Pipeline { curr: s.count, ..s },
            ),
            (PipelineState::Response, Event::Written(Answer::Response)) => Self::next_finish(
                Pipeline { curr: s.count, ..s },
            ),
            (PipelineState::Finishing, Event::Finished(Answer::Done)) => Self::next_finish(s),
            (PipelineState::Finishing, Event::Finished(Answer::Response)) => Self::next_finish(s),
            (PipelineState::Completed, _) => (Action::Done, s),
            _ => (Action::NotReady, s),
        }
    }

    /// One step of the chain.
    pub fn poll(&mut self, event: Event) -> (r: Action)
        requires
            old(self).wf(),
        ensures
            final(self).wf(),
            (r, *final(self)) == Self::step(*old(self), event),
    {
        match (self.state, event) {
            (PipelineState::Initial, Event::Begin) => self.start_next(),
            (PipelineState::Starting, Event::Started(Answer::Done)) => self.start_next(),
            (PipelineState::Starting, Event::Started(Answer::Response)) => {
                self.curr = self.count;
                self.respond_next()
            },
            (PipelineState::Handler, Event::Handled(Answer::Done)) => {
                self.curr = self.count;
                self.respond_next()
            },
            (PipelineState::Handler, Event::Handled(Answer::Response)) => {
                self.curr = self.count;
                self.respond_next()
            },
            (PipelineState::RunMiddlewares, Event::Responded(Answer::Done)) => self.respond_next(),
            (PipelineState::RunMiddlewares, Event::Responded(Answer::Response)) => {
                self.respond_next()
            },
            (PipelineState::Response, Event::Written(Answer::Done)) => {
                self.curr = self.count;
                self.finish_next()
            },
            (PipelineState::Response, Event::Written(Answer::Response)) => {
                self.curr = self.count;
                self.finish_next()
            },
            (PipelineState::Finishing, Event::Finished(Answer::Done)) => self.finish_next(),
            (PipelineState::Finishing, Event::Finished(Answer::Response)) => self.finish_next(),
            (PipelineState::Completed, _) => Action::Done,
            _ => Action::NotReady,
        }
    }

    fn start_next(&mut self) -> (r: Action)
        requires
            old(self).wf(),
        ensures
            final(self).wf(),
            (r, *final(self)) == Self::next_start(*old(self)),
    {
        if self.count < self.mws {
            let at = self.count;
            self.state = PipelineState::Starting;
            self.count = self.count + 1;
            Action::Start(at)
        } else {
            self.state = PipelineState::Handler;
            Action::Handle(self.htype)
        }
    }

    fn respond_next(&mut self) -> (r: Action)
        requires
            old(self).wf(),
        ensures
            final(self).wf(),
            (r, *final(self)) == Self::next_respond(*old(self)),
    {
        if self.curr > 0 {
            self.state = PipelineState::RunMiddlewares;
            self.curr = self.curr - 1;
            Action::Respond(self.curr)
        } else {
            self.state = PipelineState::Response;
            Action::Write
        }
    }

    fn finish_next(&mut self) -> (r: Action)
        requires
            old(self).wf(),
        ensures
            final(self).wf(),
            (r, *final(self)) == Self::next_finish(*old(self)),
    {
        if self.curr > 0 {
            self.state = PipelineState::Finishing;
            self.curr = self.curr - 1;
            Action::Finish(self.curr)
        } else {
            self.state = PipelineState::Completed;
            Action::Done
        }
    }
}

/// The chain after the events `events`, from the state `s`, and the
/// actions that it asked for, in their order.
pub open spec fn run(s: Pipeline, events: Seq<Event>) -> (Seq<Action>, Pipeline)
    decreases events.len(),
{
    if events.len() == 0 {
        (Seq::empty(), s)
    } else {
        let before = run(s, events.drop_last());
        let next = Pipeline::step(before.1, events.last());
        (before.0.push(next.0), next.1)
    }
}

/// The places of the middlewares whose `start` the actions ask for, in
/// the order of the actions.
pub open spec fn starts(actions: Seq<Action>) -> Seq<int>
    decreases actions.len(),
{
    if actions.len() == 0 {
        Seq::empty()
    } else {
        match actions.last() {
            Action::Start(i) => starts(actions.drop_last()).push(i as int),
            _ => starts(actions.drop_last()),
        }
    }
}

/// The places of the middlewares whose `response` the actions ask for, in
/// the order of the actions.
pub open spec fn responses(actions: Seq<Action>) -> Seq<int>
    decreases actions.len(),
{
    if actions.len() == 0 {
        Seq::empty()
    } else {
        match actions.last() {
            Action::Respond(i) => responses(actions.drop_last()).push(i as int),
            _ => responses(actions.drop_last()),
        }
    }
}

/// The places of the middlewares whose `finish` the actions ask for, in
/// the order of the actions.
pub open spec fn finishes(actions: Seq<Action>) -> Seq<int>
    decreases actions.len(),
{
    if actions.len() == 0 {
        Seq::empty()
    } else {
        match actions.last() {
            Action::Finish(i) => finishes(actions.drop_last()).push(i as int),
            _ => finishes(actions.drop_last()),
        }
    }
}

/// The places from 0 up to `n`, below `n`.
pub open spec fn upward(n: int) -> Seq<int> {
    Seq::new(n as nat, |i: int| i)
}

/// The places from `hi` down to `lo`, below `hi`.
pub open spec fn downward(hi: int, lo: int) -> Seq<int> {
    Seq::new((hi - lo) as nat, |i: int| hi - 1 - i)
}

/// How many of the middlewares that have started are still to see the
/// response, in state `s`.
pub open spec fn to_respond(s: Pipeline) -> int {
    match s.state {
        PipelineState::Initial | PipelineState::Starting | PipelineState::Handler => s.count as int,
        PipelineState::RunMiddlewares => s.curr as int,
        _ => 0,
    }
}

/// How many of the middlewares that have started are still to finish, in
/// state `s`.
pub open spec fn to_finish(s: Pipeline) -> int {
    match s.state {
        PipelineState::Finishing => s.curr as int,
        PipelineState::Completed => 0,
        _ => s.count as int,
    }
}

/// Middleware order: whatever happens to a request, the middlewares start
/// in their order, from the first on, and those that have started, and no
/// others, see the response and finish, each once, from the last back to
/// the first. A middleware that answers its start with a response ends
/// the starting, so that the middlewares after it neither start nor see
/// the response nor finish.
pub proof fn lemma_middleware_order(mws: usize, htype: HandlerType, events: Seq<Event>)
    ensures
        ({
            let start = Pipeline { mws, htype, state: PipelineState::Initial, count: 0, curr: 0 };
            let (actions, s) = run(start, events);
            &&& s.wf()
            &&& s.mws == mws
            &&& starts(actions) == upward(s.count as int)
            &&& responses(actions) == downward(s.count as int, to_respond(s))
            &&& finishes(actions) == downward(s.count as int, to_finish(s))
            &&& s.state == PipelineState::Completed ==> responses(actions) == downward(
                s.count as int,
                0,
            ) && finishes(actions) == downward(s.count as int, 0)
        }),
    decreases events.len(),
{
    let start = Pipeline { mws, htype, state: PipelineState::Initial, count: 0, curr: 0 };
    if events.len() == 0 {
        assert(starts(Seq::<Action>::empty()) =~= upward(0));
        assert(responses(Seq::<Action>::empty()) =~= downward(0, 0));
        assert(finishes(Seq::<Action>::empty()) =~= downward(0, 0));
    } else {
        lemma_middleware_order(mws, htype, events.drop_last());
        let (acts, s) = run(start, events.drop_last());
        let (a, t) = Pipeline::step(s, events.last());
        let actions = acts.push(a);
        assert(actions.drop_last() =~= acts);
        assert(actions.last() == a);
        assert(starts(actions) =~= upward(t.count as int));
        assert(responses(actions) =~= downward(t.count as int, to_respond(t)));
        assert(finishes(actions) =~= downward(t.count as int, to_finish(t)));
    }
}

/// Once the starting has ended, no middleware starts any more: the number
/// of middlewares that have started stays.
pub proof fn lemma_symmetric_skipping(s: Pipeline, event: Event)
    requires
        s.wf(),
        s.state != PipelineState::Initial,
        s.state != PipelineState::Starting,
    ensures
        Pipeline::step(s, event).1.count == s.count,
        !(Pipeline::step(s, event).0 is Start),
{
}

/// A middleware that answers its start with a response ends the starting:
/// the handler does not run, and the response goes to that middleware
/// first.
pub proof fn lemma_short_circuit(s: Pipeline)
    requires
        s.wf(),
        s.state == PipelineState::Starting,
        s.count > 0,
    ensures
        Pipeline::step(s, Event::Started(Answer::Response)).0 == Action::Respond(
            (s.count - 1) as usize,
        ),
        Pipeline::step(s, Event::Started(Answer::Response)).1.count == s.count,
{
}


/// Where the body of a response comes from, once its head is written.
#[derive(Clone, Copy, Debug, PartialEq, Eq, Structural)]
pub enum BodySource {
    /// Nowhere: there is none, or it went out with the head.
    Done,
    /// A lazy sequence of chunks.
    Stream,
    /// An actor context that yields chunks and asks to be told when they
    /// have left.
    Context,
}

/// What the writer says after it took a part of the response.
#[derive(Clone, Copy, Debug, PartialEq, Eq, Structural)]
pub enum Written {
    /// It takes more.
    Done,
    /// Its buffer is full.
    Pause,
    /// The peer has gone away.
    Disconnected,
}

/// What the body source yielded.
#[derive(Clone, Copy, Debug, PartialEq, Eq, Structural)]
pub enum Pulled {
    /// A chunk.
    Chunk,
    /// A request to be told when all that was written has left.
    Drain,
    /// The end of the body.
    End,
    /// Nothing for now.
    NotReady,
    /// It failed.
    Failed,
}

/// What happened since the last step of the writing of a response.
#[derive(Clone, Copy, Debug, PartialEq, Eq, Structural)]
pub enum IoEvent {
    /// The writing is polled.
    Enter,
    /// The head was handed to the writer.
    Started(Written),
    /// The body source was pulled.
    Body(Pulled),
    /// A chunk, or the end of the body, was handed to the writer.
    Written(Written),
    /// The writer was asked to flush: `Done` when all has left, `Pause`
    /// while it has not.
    Flushed(Written),
}

/// What is to be done next for the writing of a response.
#[derive(Clone, Copy, Debug, PartialEq, Eq, Structural)]
pub enum IoAction {
    /// Hand the head to the writer.
    Start,
    /// Pull from the body source.
    Pull,
    /// Hand the chunk to the writer.
    Write,
    /// Tell the writer that the body is through.
    WriteEof,
    /// Ask the writer to flush; when all has left, answer the pending
    /// drain request if `drained` is set.
    Flush { drained: bool },
    /// Tell the body source that the peer has gone away; the writing is
    /// over.
    Disconnected,
    /// Nothing can be done now.
    NotReady,
    /// The response has gone out.
    Done,
}

/// How far the writing of a response has come.
#[derive(Clone, Copy, Debug, PartialEq, Eq, Structural)]
pub enum IoStage {
    /// The head is to be written.
    Head,
    /// The head is with the writer.
    Starting,
    /// The body source may be pulled.
    Running,
    /// The body source is being pulled.
    Pulling,
    /// A chunk is with the writer.
    Writing,
    /// The end of the body is with the writer.
    Ending,
    /// The writer flushes.
    Flushing,
    /// The writer is paused: nothing is pulled until it has flushed.
    Paused,
    /// The response has gone out, or the peer has gone away.
    Over,
}

/// The writing of one response: where its body comes from, how far the
/// writing has come, whether the body is through, and whether a drain
/// request is pending.
#[derive(Clone, Copy, Debug, PartialEq, Eq, Structural)]
pub struct ProcessResponse {
    pub body: BodySource,
    pub stage: IoStage,
    pub eof: bool,
    pub drain: bool,
}

impl ProcessResponse {
    /// The writing of a response whose body comes from `body`.
    pub fn new(body: BodySource) -> (r: ProcessResponse)
        ensures
            r == (ProcessResponse { body, stage: IoStage::Head, eof: false, drain: false }),
    {
        ProcessResponse { body, stage: IoStage::Head, eof: false, drain: false }
    }

    /// The peer has gone away: the body source is told, and the writing
    /// is over.
    pub open spec fn torn_down(s: ProcessResponse) -> (IoAction, ProcessResponse) {
        (IoAction::Disconnected, ProcessResponse { stage: IoStage::Over, ..s })
    }

    /// The writer is asked to flush.
    pub open spec fn flushing(s: ProcessResponse) -> (IoAction, ProcessResponse) {
        (IoAction::Flush { drained: s.drain }, ProcessResponse { stage: IoStage::Flushing, ..s })
    }

    /// What an answer of the writer comes to while the body is written:
    /// more is pulled where it takes more; it is flushed where it asks for
    /// a pause; and where the peer has gone away the writing is torn down.
    pub open spec fn answered(s: ProcessResponse, state: Written) -> (
        IoAction,
        ProcessResponse,
    ) {
        match state {
            Written::Done => if s.body == BodySource::Done || s.eof {
                Self::flushing(ProcessResponse { eof: true, ..s })
            } else {
                (IoAction::Pull, ProcessResponse { stage: IoStage::Pulling, ..s })
            },
            Written::Pause => Self::flushing(
                ProcessResponse { eof: s.eof || s.body == BodySource::Done, ..s },
            ),
            Written::Disconnected => Self::torn_down(s),
        }
    }

    /// The step of the writing on `event` in state `s`: the action, and
    /// the state after it.
    ///
    /// First the head goes to the writer. Then chunks are pulled from the
    /// body source and handed to the writer for as long as the writer takes
    /// more. When the writer asks for a pause, when the source asks to be
    /// told that its chunks have left, when it has nothing for now, and
    /// when the body is through, the writer is asked to flush. While it has
    /// not flushed the writing is parked. When it has, the drain request is
    /// answered, and the writing goes on, or is over if the body is
    /// through. When the peer has gone away, or the source fails, the
    /// source is told and the writing is over.
    pub open spec fn step(s: ProcessResponse, event: IoEvent) -> (IoAction, ProcessResponse) {
        match (s.stage, event) {
            (IoStage::Head, IoEvent::Enter) => (
                IoAction::Start,
                ProcessResponse { stage: IoStage::Starting, ..s },
            ),
            (IoStage::Starting, IoEvent::Started(state)) => Self::answered(s, state),
            (IoStage::Running, IoEvent::Enter) => (
                IoAction::Pull,
                ProcessResponse { stage: IoStage::Pulling, ..s },
            ),
            (IoStage::Paused, IoEvent::Enter) => Self::flushing(s),
            (IoStage::Pulling, IoEvent::Body(Pulled::Chunk)) => (
                IoAction::Write,
                ProcessResponse { stage: IoStage::Writing, ..s },
            ),
            (IoStage::Pulling, IoEvent::Body(Pulled::Drain)) => Self::flushing(
                ProcessResponse { drain: true, ..s },
            ),
            (IoStage::Pulling, IoEvent::Body(Pulled::End)) => (
                IoAction::WriteEof,
                ProcessResponse { stage: IoStage::Ending, eof: true, ..s },
            ),
            (IoStage::Pulling, IoEvent::Body(Pulled::NotReady)) => (
                IoAction::NotReady,
                ProcessResponse { stage: IoStage::Running, ..s },
            ),
            (IoStage::Pulling, IoEvent::Body(Pulled::Failed)) => Self::torn_down(s),
            (IoStage::Writing, IoEvent::Written(state)) => Self::answered(s, state),
            (IoStage::Ending, IoEvent::Written(Written::Disconnected)) => Self::torn_down(
                s,
            ),
            (IoStage::Ending, IoEvent::Written(_)) => Self::flushing(s),
            (IoStage::Flushing, IoEvent::Flushed(Written::Done)) => if s.eof {
                (IoAction::Done, ProcessResponse { stage: IoStage::Over, drain: false, ..s })
            } else {
                (
                    IoAction::Pull,
                    ProcessResponse { stage: IoStage::Pulling, drain: false, ..s },
                )
            },
            (IoStage::Flushing, IoEvent::Flushed(Written::Pause)) => (
                IoAction::NotReady,
                ProcessResponse { stage: IoStage::Paused, ..s },
            ),
            (IoStage::Flushing, IoEvent::Flushed(Written::Disconnected)) => Self::torn_down(
                s,
            ),
            (IoStage::Over, _) => (IoAction::Done, s),
            _ => (IoAction::NotReady, s),
        }
    }

    /// One step of the writing of the response.
    pub fn poll_io(&mut self, event: IoEvent) -> (r: IoAction)
        ensures
            (r, *final(self)) == Self::step(*old(self), event),
    {
        match (self.stage, event) {
            (IoStage::Head, IoEvent::Enter) => {
                self.stage = IoStage::Starting;
                IoAction::Start
            },
            (IoStage::Starting, IoEvent::Started(state)) => self.answer(state),
            (IoStage::Running, IoEvent::Enter) => {
                self.stage = IoStage::Pulling;
                IoAction::Pull
            },
            (IoStage::Paused, IoEvent::Enter) => self.flush(),
            (IoStage::Pulling, IoEvent::Body(Pulled::Chunk)) => {
                self.stage = IoStage::Writing;
                IoAction::Write
            },
            (IoStage::Pulling, IoEvent::Body(Pulled::Drain)) => {
                self.drain = true;
                self.flush()
            },
            (IoStage::Pulling, IoEvent::Body(Pulled::End)) => {
                self.stage = IoStage::Ending;
                self.eof = true;
                IoAction::WriteEof
            },
            (IoStage::Pulling, IoEvent::Body(Pulled::NotReady)) => {
                self.stage = IoStage::Running;
                IoAction::NotReady
            },
            (IoStage::Pulling, IoEvent::Body(Pulled::Failed)) => self.tear_down(),
            (IoStage::Writing, IoEvent::Written(state)) => self.answer(state),
            (IoStage::Ending, IoEvent::Written(Written::Disconnected)) => self.tear_down(),
            (IoStage::Ending, IoEvent::Written(_)) => self.flush(),
            (IoStage::Flushing, IoEvent::Flushed(Written::Done)) => {
                self.drain = false;
                if self.eof {
                    self.stage = IoStage::Over;
                    IoAction::Done
                } else {
                    self.stage = IoStage::Pulling;
                    IoAction::Pull
                }
            },
            (IoStage::Flushing, IoEvent::Flushed(Written::Pause)) => {
                self.stage = IoStage::Paused;
                IoAction::NotReady
            },
            (IoStage::Flushing, IoEvent::Flushed(Written::Disconnected)) => self.tear_down(),
            (IoStage::Over, _) => IoAction::Done,
            _ => IoAction::NotReady,
        }
    }

    fn tear_down(&mut self) -> (r: IoAction)
        ensures
            (r, *final(self)) == Self::torn_down(*old(self)),
    {
        self.stage = IoStage::Over;
        IoAction::Disconnected
    }

    fn flush(&mut self) -> (r: IoAction)
        ensures
            (r, *final(self)) == Self::flushing(*old(self)),
    {
        self.stage = IoStage::Flushing;
        IoAction::Flush { drained: self.drain }
    }

    fn answer(&mut self, state: Written) -> (r: IoAction)
        ensures
            (r, *final(self)) == Self::answered(*old(self), state),
    {
        match state {
            Written::Done => {
                if matches!(self.body, BodySource::Done) || self.eof {
                    self.eof = true;
                    self.flush()
                } else {
                    self.stage = IoStage::Pulling;
                    IoAction::Pull
                }
            },
            Written::Pause => {
                if matches!(self.body, BodySource::Done) {
                    self.eof = true;
                }
                self.flush()
            },
            Written::Disconnected => self.tear_down(),
        }
    }
}

/// Backpressure: while the writer is paused the body source is not pulled;
/// the only thing that a poll does is to ask the writer to flush.
pub proof fn lemma_parked_while_paused(s: ProcessResponse)
    requires
        s.stage == IoStage::Paused,
    ensures
        ProcessResponse::step(s, IoEvent::Enter).0 == (IoAction::Flush { drained: s.drain }),
        forall|event: IoEvent| !(#[trigger] ProcessResponse::step(s, event).0 is Pull),
{
}

/// When the peer has gone away the body source is told and the writing is
/// over, whatever was going on; and once the writing is over nothing is
/// asked for any more.
pub proof fn lemma_disconnect_tears_down(s: ProcessResponse, event: IoEvent)
    ensures
        s.stage != IoStage::Over && (event == IoEvent::Started(Written::Disconnected) || event
            == IoEvent::Written(Written::Disconnected) || event == IoEvent::Flushed(
            Written::Disconnected,
        )) && ProcessResponse::step(s, event).0 != IoAction::NotReady ==> ProcessResponse::step(
            s,
            event,
        ) == (IoAction::Disconnected, ProcessResponse { stage: IoStage::Over, ..s }),
        s.stage == IoStage::Over ==> ProcessResponse::step(s, event) == (IoAction::Done, s),
{
}

} // verus!
