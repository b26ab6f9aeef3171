//! Handlers that take their arguments from the request: one, two or three
//! extractors run one after the other, then the handler is called with
//! what they yielded, then its answer is awaited.

use vstd::prelude::*;
use std::marker::PhantomData;

verus! {

/// A type that can be extracted from a request, under a configuration.
pub trait FromRequest<S>: Sized {
    /// What configures the extraction.
    type Config: Default;
}

/// The configuration of one extractor of a handler.
#[verifier::reject_recursive_types(S)]
#[verifier::reject_recursive_types(T)]
pub struct ExtractorConfig<S, T: FromRequest<S>> {
    pub cfg: T::Config,
    pub _s: PhantomData<S>,
}

impl<S, T: FromRequest<S>> Default for ExtractorConfig<S, T> {
    /// The configuration that the extractor has by default.
    fn default() -> (r: Self)
        ensures
            T::Config::default.ensures((), r.cfg),
    {
        ExtractorConfig { cfg: T::Config::default(), _s: PhantomData }
    }
}

impl<S, T: FromRequest<S>> ExtractorConfig<S, T> {
    /// The configuration.
    pub fn as_ref(&self) -> (r: &T::Config)
        ensures
            *r == self.cfg,
    {
        &self.cfg
    }

    /// The configuration.
    pub fn deref(&self) -> (r: &T::Config)
        ensures
            *r == self.cfg,
    {
        &self.cfg
    }

    /// The configuration, to be changed.
    pub fn deref_mut(&mut self) -> (r: &mut T::Config)
        ensures
            *r == old(self).cfg,
            final(self).cfg == *final(r),
    {
        &mut self.cfg
    }
}

/// What polling an extractor, or the answer of a handler, came to.
#[derive(Clone, Copy, Debug, PartialEq, Eq, Structural)]
pub enum Async {
    /// The value is there.
    Ready,
    /// Not yet.
    NotReady,
    /// It failed.
    Failed,
}

/// What a handler answered.
#[derive(Clone, Copy, Debug, PartialEq, Eq, Structural)]
pub enum ReplyItem {
    /// A response.
    Message,
    /// A response that is still to come.
    Future,
    /// An error.
    Failed,
}

/// What happened since the last step of a handler with extractors.
#[derive(Clone, Copy, Debug, PartialEq, Eq, Structural)]
pub enum WithEvent {
    /// The handler is polled.
    Polled,
    /// An extractor was polled.
    Extracted(Async),
    /// The handler was called and answered.
    Handled(ReplyItem),
    /// The response that was still to come was polled.
    Responded(Async),
}

/// What is to be done next for a handler with extractors.
#[derive(Clone, Copy, Debug, PartialEq, Eq, Structural)]
pub enum WithAction {
    /// Start extractor `0`, `1` or `2` on the request and poll it.
    Extract(usize),
    /// Poll the extractor that was started and has not yielded yet.
    PollExtract(usize),
    /// Call the handler with what the extractors yielded.
    Handle,
    /// Poll the response that is still to come.
    PollResponse,
    /// The poll is over.
    Return(Async),
}

/// What a handler with extractors waits for.
#[derive(Clone, Copy, Debug, PartialEq, Eq, Structural)]
pub enum Waiting {
    /// To be polled.
    Poll,
    /// An extractor that is being polled.
    Extractor,
    /// The handler that is being called.
    Handler,
    /// The response that is being polled.
    Response,
}

/// The run of a handler with extractors on one request: how many extractors
/// it has, how many have yielded, and what it waits for.
#[derive(Clone, Copy, Debug, PartialEq, Eq, Structural)]
pub struct WithHandlerFut {
    pub arity: usize,
    pub started: bool,
    pub extracted: usize,
    pub responding: bool,
    pub finished: bool,
    pub waiting: Waiting,
}

impl WithHandlerFut {
    /// The invariant of a run: no more extractors have yielded than there
    /// are; the handler is called, and its response awaited, only when all
    /// have yielded; and a run that has not started has nothing.
    pub open spec fn wf(&self) -> bool {
        &&& 1 <= self.arity <= 3
        &&& self.extracted <= self.arity
        &&& self.waiting == Waiting::Extractor ==> self.extracted < self.arity && self.started
        &&& self.waiting == Waiting::Handler ==> self.extracted == self.arity
        &&& self.responding ==> self.extracted == self.arity
        &&& !self.started ==> self.extracted == 0 && !self.responding
    }

    /// A run that has not started, for a handler with `arity` extractors.
    pub fn new(arity: usize) -> (r: WithHandlerFut)
        requires
            1 <= arity <= 3,
        ensures
            r.wf(),
            r == (WithHandlerFut {
                arity,
                started: false,
                extracted: 0,
                responding: false,
                finished: false,
                waiting: Waiting::Poll,
            }),
    {
        WithHandlerFut {
            arity,
            started: false,
            extracted: 0,
            responding: false,
            finished: false,
            waiting: Waiting::Poll,
        }
    }

    /// The end of a poll with `poll`; a poll that is ready or failed ends
    /// the run.
    pub open spec fn returned(s: WithHandlerFut, poll: Async) -> (WithAction, WithHandlerFut) {
        (
            WithAction::Return(poll),
            WithHandlerFut {
                finished: s.finished || poll != Async::NotReady,
                waiting: Waiting::Poll,
                ..s
            },
        )
    }

    /// The step of a run on `event` in state `s`: the action, and the state
    /// after it.
    ///
    /// A poll goes on where the run stands: it polls the response that is
    /// still to come, starts the first extractor, or polls the extractor
    /// that has not yielded. An extractor that yields makes the next one
    /// start, and the last one makes the handler be called. The answer of
    /// the handler ends the run if it is a response or an error; a response
    /// that is still to come is polled at once. A run that is over, and
    /// an answer that nothing asked for, fail.
    pub open spec fn step(s: WithHandlerFut, event: WithEvent) -> (WithAction, WithHandlerFut) {
        match (s.waiting, event) {
            (Waiting::Poll, WithEvent::Polled) => if s.finished {
                Self::returned(s, Async::Failed)
            } else if s.responding {
                (WithAction::PollResponse, WithHandlerFut { waiting: Waiting::Response, ..s })
            } else if !s.started {
                (
                    WithAction::Extract(0),
                    WithHandlerFut { started: true, waiting: Waiting::Extractor, ..s },
                )
            } else if s.extracted < s.arity {
                (
                    WithAction::PollExtract(s.extracted),
                    WithHandlerFut { waiting: Waiting::Extractor, ..s },
                )
            } else {
                Self::returned(s, Async::Failed)
            },
            (Waiting::Extractor, WithEvent::Extracted(Async::Ready)) => if s.extracted + 1
                < s.arity {
                (
                    WithAction::Extract((s.extracted + 1) as usize),
                    WithHandlerFut { extracted: (s.extracted + 1) as usize, ..s },
                )
            } else {
                (
                    WithAction::Handle,
                    WithHandlerFut {
                        extracted: (s.extracted + 1) as usize,
                        waiting: Waiting::Handler,
                        ..s
                    },
                )
            },
            (Waiting::Extractor, WithEvent::Extracted(poll)) => Self::returned(s, poll),
            (Waiting::Handler, WithEvent::Handled(ReplyItem::Message)) => Self::returned(
                s,
                Async::Ready,
            ),
            (Waiting::Handler, WithEvent::Handled(ReplyItem::Future)) => (
                WithAction::PollResponse,
                WithHandlerFut { responding: true, waiting: Waiting::Response, ..s },
            ),
            (Waiting::Response, WithEvent::Responded(poll)) => Self::returned(s, poll),
            _ => Self::returned(s, Async::Failed),
        }
    }

    /// One step of the run.
    pub fn poll(&mut self, event: WithEvent) -> (r: WithAction)
        requires
            old(self).wf(),
        ensures
            final(self).wf(),
            (r, *final(self)) == Self::step(*old(self), event),
    {
        match (self.waiting, event) {
            (Waiting::Poll, WithEvent::Polled) => {
                if self.finished {
                    self.end(Async::Failed)
                } else if self.responding {
                    self.waiting = Waiting::Response;
                    WithAction::PollResponse
                } else if !self.started {
                    self.started = true;
                    self.waiting = Waiting::Extractor;
                    WithAction::Extract(0)
                } else if self.extracted < self.arity {
                    self.waiting = Waiting::Extractor;
                    WithAction::PollExtract(self.extracted)
                } else {
                    self.end(Async::Failed)
                }
            },
            (Waiting::Extractor, WithEvent::Extracted(Async::Ready)) => {
                self.extracted = self.extracted + 1;
                if self.extracted < self.arity {
                    WithAction::Extract(self.extracted)
                } else {
                    self.waiting = Waiting::Handler;
                    WithAction::Handle
                }
            },
            (Waiting::Extractor, WithEvent::Extracted(poll)) => self.end(poll),
            (Waiting::Handler, WithEvent::Handled(ReplyItem::Message)) => self.end(Async::Ready),
            (Waiting::Handler, WithEvent::Handled(ReplyItem::Future)) => {
                self.responding = true;
                self.waiting = Waiting::Response;
                WithAction::PollResponse
            },
            (Waiting::Response, WithEvent::Responded(poll)) => self.end(poll),
            _ => self.end(Async::Failed),
        }
    }

    /// Ends a poll.
    fn end(&mut self, poll: Async) -> (r: WithAction)
        requires
            old(self).wf(),
        ensures
            final(self).wf(),
            (r, *final(self)) == Self::returned(*old(self), poll),
    {
        if !matches!(poll, Async::NotReady) {
            self.finished = true;
        }
        self.waiting = Waiting::Poll;
        WithAction::Return(poll)
    }
}

/// The extractors of a handler start in their order, each once: a step
/// starts extractor `i` only when exactly `i` extractors have yielded, and
/// it calls the handler only when all have.
pub proof fn lemma_extractors_in_order(s: WithHandlerFut, event: WithEvent)
    requires
        s.wf(),
    ensures
        WithHandlerFut::step(s, event).0 matches WithAction::Extract(i) ==> i < s.arity
            && WithHandlerFut::step(s, event).1.extracted == i && (i == 0 ==> !s.started) && (i > 0
            ==> s.extracted + 1 == i),
        WithHandlerFut::step(s, event).0 == WithAction::Handle ==> WithHandlerFut::step(
            s,
            event,
        ).1.extracted == s.arity && s.extracted + 1 == s.arity,
{
}

/// A run that is over stays over, and every poll of it fails.
pub proof fn lemma_finished_run(s: WithHandlerFut)
    requires
        s.wf(),
        s.finished,
        s.waiting == Waiting::Poll,
    ensures
        WithHandlerFut::step(s, WithEvent::Polled) == (WithAction::Return(Async::Failed), s),
{
}

/// A handler that takes one argument from the request.
#[verifier::reject_recursive_types(T)]
#[verifier::reject_recursive_types(S)]
#[verifier::reject_recursive_types(R)]
pub struct With<T, S, F, R> where F: Fn(T) -> R, T: FromRequest<S> {
    pub hnd: F,
    pub cfg: ExtractorConfig<S, T>,
    pub _s: PhantomData<(S, R)>,
}

impl<T, S, F, R> With<T, S, F, R> where F: Fn(T) -> R, T: FromRequest<S> {
    pub fn new(f: F, cfg: ExtractorConfig<S, T>) -> (r: Self)
        ensures
            r.hnd == f,
            r.cfg == cfg,
    {
        With { cfg, hnd: f, _s: PhantomData }
    }

    /// Begins the run of the handler on a request.
    pub fn handle(&self) -> (r: WithHandlerFut)
        ensures
            r.wf(),
            r == (WithHandlerFut {
                arity: 1,
                started: false,
                extracted: 0,
                responding: false,
                finished: false,
                waiting: Waiting::Poll,
            }),
    {
        WithHandlerFut::new(1)
    }

    /// Calls the handler with what the extractor yielded.
    pub fn call(&self, item: T) -> (r: R)
        requires
            self.hnd.requires((item,)),
        ensures
            self.hnd.ensures((item,), r),
    {
        (self.hnd)(item)
    }
}

/// A handler that takes two arguments from the request.
#[verifier::reject_recursive_types(T1)]
#[verifier::reject_recursive_types(T2)]
#[verifier::reject_recursive_types(S)]
#[verifier::reject_recursive_types(R)]
pub struct With2<T1, T2, S, F, R> where
    F: Fn(T1, T2) -> R,
    T1: FromRequest<S>,
    T2: FromRequest<S>,
 {
    pub hnd: F,
    pub cfg1: ExtractorConfig<S, T1>,
    pub cfg2: ExtractorConfig<S, T2>,
    pub _s: PhantomData<(S, R)>,
}

impl<T1, T2, S, F, R> With2<T1, T2, S, F, R> where
    F: Fn(T1, T2) -> R,
    T1: FromRequest<S>,
    T2: FromRequest<S>,
 {
    pub fn new(f: F, cfg1: ExtractorConfig<S, T1>, cfg2: ExtractorConfig<S, T2>) -> (r: Self)
        ensures
            r.hnd == f,
            r.cfg1 == cfg1,
            r.cfg2 == cfg2,
    {
        With2 { hnd: f, cfg1, cfg2, _s: PhantomData }
    }

    /// Begins the run of the handler on a request.
    pub fn handle(&self) -> (r: WithHandlerFut)
        ensures
            r.wf(),
            r == (WithHandlerFut {
                arity: 2,
                started: false,
                extracted: 0,
                responding: false,
                finished: false,
                waiting: Waiting::Poll,
            }),
    {
        WithHandlerFut::new(2)
    }

    /// Calls the handler with what the extractors yielded.
    pub fn call(&self, item1: T1, item2: T2) -> (r: R)
        requires
            self.hnd.requires((item1, item2)),
        ensures
            self.hnd.ensures((item1, item2), r),
    {
        (self.hnd)(item1, item2)
    }
}

/// A handler that takes three arguments from the request.
#[verifier::reject_recursive_types(T1)]
#[verifier::reject_recursive_types(T2)]
#[verifier::reject_recursive_types(T3)]
#[verifier::reject_recursive_types(S)]
#[verifier::reject_recursive_types(R)]
pub struct With3<T1, T2, T3, S, F, R> where
    F: Fn(T1, T2, T3) -> R,
    T1: FromRequest<S>,
    T2: FromRequest<S>,
    T3: FromRequest<S>,
 {
    pub hnd: F,
    pub cfg1: ExtractorConfig<S, T1>,
    pub cfg2: ExtractorConfig<S, T2>,
    pub cfg3: ExtractorConfig<S, T3>,
    pub _s: PhantomData<(S, R)>,
}

impl<T1, T2, T3, S, F, R> With3<T1, T2, T3, S, F, R> where
    F: Fn(T1, T2, T3) -> R,
    T1: FromRequest<S>,
    T2: FromRequest<S>,
    T3: FromRequest<S>,
 {
    pub fn new(
        f: F,
        cfg1: ExtractorConfig<S, T1>,
        cfg2: ExtractorConfig<S, T2>,
        cfg3: ExtractorConfig<S, T3>,
    ) -> (r: Self)
        ensures
            r.hnd == f,
            r.cfg1 == cfg1,
            r.cfg2 == cfg2,
            r.cfg3 == cfg3,
    {
        With3 { hnd: f, cfg1, cfg2, cfg3, _s: PhantomData }
    }

    /// Begins the run of the handler on a request.
    pub fn handle(&self) -> (r: WithHandlerFut)
        ensures
            r.wf(),
            r == (WithHandlerFut {
                arity: 3,
                started: false,
                extracted: 0,
                responding: false,
                finished: false,
                waiting: Waiting::Poll,
            }),
    {
        WithHandlerFut::new(3)
    }

    /// Calls the handler with what the extractors yielded.
    pub fn call(&self, item1: T1, item2: T2, item3: T3) -> (r: R)
        requires
            self.hnd.requires((item1, item2, item3)),
        ensures
            self.hnd.ensures((item1, item2, item3), r),
    {
        (self.hnd)(item1, item2, item3)
    }
}

} // verus!
