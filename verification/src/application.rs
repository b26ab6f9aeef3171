//! The application: its builder, and the dispatch of requests to the
//! resources, the prefix handlers and the default resource.

use vstd::prelude::*;
use vstd::string::StringSliceAdditionalSpecFns;
use vstd::utf8::{decode_utf8, encode_utf8};
use std::rc::Rc;
use crate::header::ContentEncoding;
use crate::httprequest::HttpRequest;
use crate::param::ParamView;
use crate::pipeline::{HandlerType, Pipeline};
use crate::resource::{chosen, ResourceHandler};
use crate::router::{
    first_match, handlers_of, last_named, normalize, normalized, route_text, routed, share,
    template, PatternError, Resource, Router,
};
use crate::server::settings::ServerSettings;
use crate::text::{
    chars_of, has_prefix, lemma_boundary_after_ascii, lemma_text_of_bytes, push_char,
    starts_with, str_eq, str_from,
};
use vstd::string::StringExecFns;

verus! {

/// Prefix match: a path is under a prefix where it starts with the prefix
/// and then ends or goes on with a slash.
pub open spec fn under(path: Seq<u8>, prefix: Seq<u8>) -> bool {
    has_prefix(path, prefix) && (path.len() == prefix.len() || path[prefix.len() as int] == 0x2f)
}

/// Whether `path` is under `prefix`.
pub fn is_under(path: &[u8], prefix: &[u8]) -> (r: bool)
    ensures
        r == under(path@, prefix@),
{
    starts_with(path, prefix) && (path.len() == prefix.len() || path[prefix.len()] == 0x2f)
}

/// The place of the first handler of `handlers` whose prefix `rest` is
/// under.
pub open spec fn mounted<H>(handlers: Seq<(String, H)>, rest: Seq<u8>) -> Option<int>
    decreases handlers.len(),
{
    if handlers.len() == 0 {
        None
    } else {
        match mounted(handlers.drop_last(), rest) {
            Some(i) => Some(i),
            None => if under(rest, encode_utf8(handlers.last().0@)) {
                Some(handlers.len() - 1)
            } else {
                None
            },
        }
    }
}

/// A handler that is found among the first `upto` handlers is found among
/// all.
pub proof fn lemma_mounted_prefix<H>(handlers: Seq<(String, H)>, rest: Seq<u8>, upto: int)
    requires
        0 <= upto <= handlers.len(),
        mounted(handlers.take(upto), rest) is Some,
    ensures
        mounted(handlers, rest) == mounted(handlers.take(upto), rest),
        (mounted(handlers, rest)->0) < upto,
    decreases handlers.len() - upto,
{
    if upto < handlers.len() {
        assert(handlers.take(upto + 1).drop_last() =~= handlers.take(upto));
        lemma_mounted_prefix(handlers, rest, upto + 1);
        lemma_mounted_bound(handlers.take(upto), rest);
    } else {
        assert(handlers.take(upto) =~= handlers);
        lemma_mounted_bound(handlers, rest);
    }
}

/// A place that is found is a place of the list.
pub proof fn lemma_mounted_bound<H>(handlers: Seq<(String, H)>, rest: Seq<u8>)
    ensures
        mounted(handlers, rest) matches Some(i) ==> 0 <= i < handlers.len(),
    decreases handlers.len(),
{
    if handlers.len() > 0 {
        lemma_mounted_bound(handlers.drop_last(), rest);
    }
}

/// What of a path is left for a prefix handler: what follows the first
/// `prefix_len` bytes, without the slash at its start.
pub open spec fn tail_of(path: Seq<u8>, prefix_len: int) -> Seq<char> {
    let tail = path.skip(prefix_len);
    if tail.len() == 0 {
        Seq::empty()
    } else {
        decode_utf8(tail.skip(1))
    }
}

/// What is left of `path` after the prefix of a handler that ends at `at`:
/// what follows, without the slash at its start.
pub fn tail_at(path: &str, at: usize) -> (r: String)
    requires
        at <= path.spec_bytes().len(),
        at < path.spec_bytes().len() ==> path.spec_bytes()[at as int] == 0x2f,
    ensures
        r@ == tail_of(path.spec_bytes(), at as int),
{
    let bytes = path.as_bytes();
    if at == bytes.len() {
        let r = String::new();
        assert(path.spec_bytes().skip(at as int).len() == 0);
        r
    } else {
        proof {
            lemma_text_of_bytes(path);
            lemma_boundary_after_ascii(bytes@, at as int);
        }
        let tail = str_from(path, at + 1);
        proof {
            assert(bytes@.skip(at as int).skip(1) =~= bytes@.skip(at + 1));
            lemma_text_of_bytes(tail);
        }
        tail.to_owned()
    }
}

/// Which handler takes a request, once it is known what kind takes it.
#[derive(Clone, Copy, Debug, PartialEq, Eq, Structural)]
pub enum Handling {
    /// A route of a resource of the table.
    Route { resource: usize, route: usize },
    /// A route of the default resource.
    Default { route: usize },
    /// A prefix handler.
    Handler(usize),
    /// None: the answer is that nothing was found.
    NotFound,
}

/// The table of handlers of an application: the length of the prefix of
/// the application, the default resource, the default content coding, the
/// handlers of the resources, and the prefix handlers.
pub struct Inner<H> {
    pub prefix: usize,
    pub default: ResourceHandler<H>,
    pub encoding: ContentEncoding,
    pub resources: Vec<ResourceHandler<H>>,
    pub handlers: Vec<(String, H)>,
}

impl<H> Inner<H> {
    /// The default content coding.
    pub fn encoding(&self) -> (r: ContentEncoding)
        ensures
            r == self.encoding,
    {
        self.encoding
    }

    /// Whether the default resource is asked for a request with the
    /// method `method` and the headers `headers` that `htype` is to take:
    /// where that is the default resource itself, or a resource without a
    /// route for the request.
    pub open spec fn falls_through(
        &self,
        htype: HandlerType,
        method: Seq<char>,
        headers: Seq<ParamView>,
    ) -> bool {
        match htype {
            HandlerType::Normal(idx) => chosen(self.resources@[idx as int].routes@, method, headers)
                is None,
            HandlerType::Handler(_) => false,
            HandlerType::Default => true,
        }
    }

    /// Chooses the handler for `req`. A resource takes it with its first
    /// route whose predicates the request meets; where it has none, and for
    /// a request that no resource takes, the default resource is asked in
    /// the same way; where that has none either, nothing is found.
    pub fn handle<S>(&self, req: &HttpRequest<S>, htype: HandlerType) -> (r: Handling)
        requires
            htype matches HandlerType::Normal(idx) ==> idx < self.resources@.len(),
        ensures
            match r {
                Handling::Route { resource, route } => htype == HandlerType::Normal(resource)
                    && chosen(self.resources@[resource as int].routes@, req.method@, req.headers@)
                    == Some(route as int),
                Handling::Handler(idx) => htype == HandlerType::Handler(idx),
                Handling::Default { route } => self.falls_through(htype, req.method@, req.headers@)
                    && chosen(self.default.routes@, req.method@, req.headers@) == Some(
                    route as int,
                ),
                Handling::NotFound => self.falls_through(htype, req.method@, req.headers@)
                    && chosen(self.default.routes@, req.method@, req.headers@) is None,
            },
    {
        match htype {
            HandlerType::Normal(idx) => match self.resources[idx].find(req) {
                Some(route) => Handling::Route { resource: idx, route },
                None => match self.default.find(req) {
                    Some(route) => Handling::Default { route },
                    None => Handling::NotFound,
                },
            },
            HandlerType::Handler(idx) => Handling::Handler(idx),
            HandlerType::Default => match self.default.find(req) {
                Some(route) => Handling::Default { route },
                None => Handling::NotFound,
            },
        }
    }
}

/// An application that is ready to take requests.
#[verifier::reject_recursive_types(S)]
pub struct HttpApplication<S, H, M> {
    pub state: Rc<S>,
    pub prefix: String,
    pub router: Router,
    pub inner: Inner<H>,
    pub middlewares: Vec<M>,
}

impl<S, H, M> HttpApplication<S, H, M> {
    /// The invariant of the application: its router is well-formed, the
    /// length of its prefix is kept in bytes, and each pattern of the router
    /// has its handlers.
    pub open spec fn wf(&self) -> bool {
        &&& self.router.wf()
        &&& self.inner.prefix == encode_utf8(self.prefix@).len()
        &&& self.inner.resources@.len() == self.router.patterns().len()
    }

    /// Whether the application is what finishing the parts `parts` comes
    /// to: its prefix is that of the parts, without white space at its ends
    /// and without slashes at its end, and the router takes it in the same
    /// way; the patterns of the resources take requests in their order, each
    /// with its handlers; every name finds the last resource or external
    /// resource that has it; and the rest is as the parts have it.
    pub open spec fn built_from(&self, parts: ApplicationParts<S, H, M>) -> bool {
        &&& self.wf()
        &&& self.prefix@ == normalized(parts.prefix@)
        &&& self.router.0.prefix@ == normalized(self.prefix@)
        &&& self.router.0.srv == parts.settings
        &&& self.router.patterns() == routed(parts.resources@)
        &&& self.inner.resources@ == handlers_of(parts.resources@)
        &&& forall|name: Seq<char>|
            #[trigger] self.router.named(name) == last_named(parts.table(), name)
        &&& self.inner.default == parts.default
        &&& self.inner.encoding == parts.encoding
        &&& self.inner.handlers == parts.handlers
        &&& self.middlewares == parts.middlewares
        &&& *self.state == parts.state
    }

    /// The place of the pattern that the router finds for a path of the
    /// bytes `path`.
    pub open spec fn recognized(&self, path: Seq<u8>) -> Option<int> {
        match route_text(self.router.0.prefix_len as nat, path) {
            Some(text) => first_match(self.router.patterns(), text),
            None => None,
        }
    }

    /// The place of the prefix handler that takes a path of the bytes
    /// `path`: the first under whose prefix the path lies, once the prefix
    /// of the application is taken off.
    pub open spec fn mount(&self, path: Seq<u8>) -> Option<int> {
        if self.inner.prefix <= path.len() {
            mounted(self.inner.handlers@, path.skip(self.inner.prefix as int))
        } else {
            None
        }
    }

    /// Whether the default resource is asked for a request with the path
    /// `path`, the method `method` and the headers `headers`: where neither
    /// a pattern nor a prefix handler takes the path, or the resource of the
    /// pattern has no route for the request.
    pub open spec fn to_default(
        &self,
        path: Seq<u8>,
        method: Seq<char>,
        headers: Seq<ParamView>,
    ) -> bool {
        match self.recognized(path) {
            Some(i) => chosen(self.inner.resources@[i].routes@, method, headers) is None,
            None => self.mount(path) is None,
        }
    }

    /// Where the prefix of the handler at place `idx` ends in a path that
    /// it takes.
    pub open spec fn mount_end(&self, idx: int) -> int {
        self.inner.prefix + encode_utf8(self.inner.handlers@[idx].0@).len()
    }

    /// The table of handlers.
    pub fn as_ref(&self) -> (r: &Inner<H>)
        ensures
            *r == self.inner,
    {
        &self.inner
    }

    /// What kind of handler takes `req`: the resource that the router
    /// finds; else the first prefix handler under whose prefix the path
    /// lies, once the prefix of the application is taken off, and then
    /// what is left of the path is recorded as the parameter `tail`; else
    /// the default resource.
    pub fn get_handler(&self, req: &mut HttpRequest<S>) -> (r: HandlerType)
        requires
            self.wf(),
        ensures
            final(req).method == old(req).method,
            final(req).path == old(req).path,
            final(req).headers == old(req).headers,
            final(req).state == old(req).state,
            final(req).router == old(req).router,
            match r {
                HandlerType::Normal(i) => self.recognized(encode_utf8(old(req).path@)) == Some(
                    i as int,
                ) && i < self.inner.resources@.len() && final(req).resource == Some(i) && final(req).params@ == old(req).params@ + self.router.patterns()[i as int].captured(
                    route_text(self.router.0.prefix_len as nat, encode_utf8(old(req).path@))->0,
                ),
                HandlerType::Handler(idx) => self.recognized(encode_utf8(old(req).path@)) is None
                    && self.mount(encode_utf8(old(req).path@)) == Some(idx as int) && idx
                    < self.inner.handlers@.len() && final(req).resource == old(req).resource
                    && final(req).params@ == old(req).params@.push(
                    ("tail"@, tail_of(encode_utf8(old(req).path@), self.mount_end(idx as int))),
                ),
                HandlerType::Default => self.recognized(encode_utf8(old(req).path@)) is None
                    && self.mount(encode_utf8(old(req).path@)) is None && *final(req) == *old(req),
            },
    {
        if let Some(idx) = self.router.recognize(req) {
            return HandlerType::Normal(idx);
        }
        match self.find_mount(req.path.as_str()) {
            Some((idx, at)) => {
                let tail = tail_at(req.path.as_str(), at);
                req.params.add("tail", tail.as_str());
                HandlerType::Handler(idx)
            },
            None => HandlerType::Default,
        }
    }

    /// The place of the first prefix handler under whose prefix `path`
    /// lies, once the prefix of the application is taken off; with it the
    /// place in `path` at which the prefix of the handler ends.
    pub fn find_mount(&self, path: &str) -> (r: Option<(usize, usize)>)
        ensures
            match r {
                Some(found) => self.mount(path.spec_bytes()) == Some(found.0 as int) && found.1
                    == self.mount_end(found.0 as int) && found.0 < self.inner.handlers@.len()
                    && found.1 <= path.spec_bytes().len() && (found.1 < path.spec_bytes().len()
                    ==> path.spec_bytes()[found.1 as int] == 0x2f),
                None => self.mount(path.spec_bytes()) is None,
            },
    {
        let bytes = path.as_bytes();
        if self.inner.prefix > bytes.len() {
            return None;
        }
        let rest = vstd::slice::slice_subrange(bytes, self.inner.prefix, bytes.len());
        proof {
            assert(rest@ =~= bytes@.skip(self.inner.prefix as int));
        }
        let mut idx: usize = 0;
        assert(self.inner.handlers@.take(0) =~= Seq::<(String, H)>::empty());
        while idx < self.inner.handlers.len()
            invariant
                idx <= self.inner.handlers@.len(),
                self.inner.prefix <= bytes@.len(),
                bytes@.len() <= usize::MAX,
                bytes@ == path.spec_bytes(),
                rest@ == bytes@.skip(self.inner.prefix as int),
                mounted(self.inner.handlers@.take(idx as int), rest@) is None,
            decreases self.inner.handlers@.len() - idx,
        {
            let prefix = self.inner.handlers[idx].0.as_str();
            proof {
                assert(self.inner.handlers@.take(idx + 1).drop_last()
                    =~= self.inner.handlers@.take(idx as int));
                assert(self.inner.handlers@.take(idx + 1).last() == self.inner.handlers@[idx as int]);
            }
            if is_under(rest, prefix.as_bytes()) {
                let len = prefix.as_bytes().len();
                assert(rest@.len() == bytes@.len() - self.inner.prefix);
                assert(len <= rest@.len());
                let at = self.inner.prefix + len;
                proof {
                    lemma_mounted_prefix(self.inner.handlers@, rest@, idx + 1);
                    if at < bytes@.len() {
                        assert(bytes@[at as int] == rest@[len as int]);
                    }
                }
                return Some((idx, at));
            }
            idx += 1;
        }
        assert(self.inner.handlers@.take(self.inner.handlers@.len() as int)
            =~= self.inner.handlers@);
        None
    }

    /// Chooses the handler for a request that is bound to the
    /// application: what [`Self::get_handler`] and then [`Inner::handle`]
    /// come to.
    pub fn run(&self, req: &mut HttpRequest<S>) -> (r: Handling)
        requires
            self.wf(),
        ensures
            final(req).method == old(req).method,
            final(req).path == old(req).path,
            final(req).headers == old(req).headers,
            match r {
                Handling::Route { resource, route } => self.recognized(
                    encode_utf8(old(req).path@),
                ) == Some(resource as int) && resource < self.inner.resources@.len() && chosen(
                    self.inner.resources@[resource as int].routes@,
                    old(req).method@,
                    old(req).headers@,
                ) == Some(route as int),
                Handling::Handler(idx) => self.recognized(encode_utf8(old(req).path@)) is None
                    && self.mount(encode_utf8(old(req).path@)) == Some(idx as int) && idx
                    < self.inner.handlers@.len(),
                Handling::Default { route } => self.to_default(
                    encode_utf8(old(req).path@),
                    old(req).method@,
                    old(req).headers@,
                ) && chosen(self.inner.default.routes@, old(req).method@, old(req).headers@)
                    == Some(route as int),
                Handling::NotFound => self.to_default(
                    encode_utf8(old(req).path@),
                    old(req).method@,
                    old(req).headers@,
                ) && chosen(self.inner.default.routes@, old(req).method@, old(req).headers@)
                    is None,
            },
            match self.recognized(encode_utf8(old(req).path@)) {
                Some(i) => final(req).resource == Some(i as usize) && final(req).params@ == old(req).params@ + self.router.patterns()[i].captured(
                    route_text(self.router.0.prefix_len as nat, encode_utf8(old(req).path@))->0,
                ),
                None => match self.mount(encode_utf8(old(req).path@)) {
                    Some(idx) => final(req).params@ == old(req).params@.push(
                        ("tail"@, tail_of(encode_utf8(old(req).path@), self.mount_end(idx))),
                    ),
                    None => *final(req) == *old(req),
                },
            },
    {
        let tp = self.get_handler(req);
        self.inner.handle(req, tp)
    }

    /// Binds the state and the router of the application to a request.
    pub fn prepare_request(&self, req: HttpRequest<()>) -> (r: HttpRequest<S>)
        ensures
            r.method == req.method,
            r.path == req.path,
            r.headers == req.headers,
            r.params == req.params,
            r.resource == req.resource,
            r.state == Some(self.state),
            r.router == Some(self.router),
    {
        req.with_state(share(&self.state), self.router.clone())
    }

    /// Takes a request if its path is under the prefix of the
    /// application: the request is bound to the application, the kind of
    /// handler is chosen as [`Self::get_handler`] does it, and the chain of
    /// the middlewares is set up. Any other request is handed back as it
    /// came.
    pub fn handle(&self, req: HttpRequest<()>) -> (r: Result<
        (HttpRequest<S>, Pipeline),
        HttpRequest<()>,
    >)
        requires
            self.wf(),
        ensures
            match r {
                Ok(task) => under(encode_utf8(req.path@), encode_utf8(self.prefix@))
                    && task.0.path == req.path && task.0.method == req.method && task.0.headers
                    == req.headers && task.0.state == Some(self.state) && task.0.router == Some(
                    self.router,
                ) && task.1.wf() && task.1.mws == self.middlewares@.len() && task.1.count == 0
                    && task.1.state == crate::pipeline::PipelineState::Initial,
                Err(back) => !under(encode_utf8(req.path@), encode_utf8(self.prefix@)) && back
                    == req,
            },
            r matches Ok(task) ==> match task.1.htype {
                HandlerType::Normal(i) => self.recognized(encode_utf8(req.path@)) == Some(
                    i as int,
                ) && i < self.inner.resources@.len() && task.0.resource == Some(i)
                    && task.0.params@ == req.params@ + self.router.patterns()[i as int].captured(
                    route_text(self.router.0.prefix_len as nat, encode_utf8(req.path@))->0,
                ),
                HandlerType::Handler(idx) => self.recognized(encode_utf8(req.path@)) is None
                    && self.mount(encode_utf8(req.path@)) == Some(idx as int)
                    && task.0.resource == req.resource && task.0.params@ == req.params@.push(
                    ("tail"@, tail_of(encode_utf8(req.path@), self.mount_end(idx as int))),
                ),
                HandlerType::Default => self.recognized(encode_utf8(req.path@)) is None
                    && self.mount(encode_utf8(req.path@)) is None && task.0.resource
                    == req.resource && task.0.params == req.params,
            },
    {
        let m = is_under(req.path.as_str().as_bytes(), self.prefix.as_str().as_bytes());
        if m {
            let mut req = self.prepare_request(req);
            let tp = self.get_handler(&mut req);
            Ok((req, Pipeline::new(self.middlewares.len(), tp)))
        } else {
            Err(req)
        }
    }
}


/// What an application is built from.
pub struct ApplicationParts<S, H, M> {
    pub state: S,
    pub prefix: String,
    pub settings: ServerSettings,
    pub default: ResourceHandler<H>,
    pub resources: Vec<(Resource, Option<ResourceHandler<H>>)>,
    pub handlers: Vec<(String, H)>,
    pub external: Vec<(String, Resource)>,
    pub encoding: ContentEncoding,
    pub middlewares: Vec<M>,
}

/// The builder of an application. Once it is finished it holds nothing.
pub struct App<S, H, M> {
    pub parts: Option<ApplicationParts<S, H, M>>,
}

/// Why a resource cannot be registered.
#[derive(Clone, Copy, Debug, PartialEq, Eq, Structural)]
pub enum RegistrationError {
    /// The path template makes no route pattern.
    Pattern(PatternError),
    /// An external resource with this name is registered.
    Duplicate,
}

/// `prefix` with a slash before it, unless it starts with one.
pub open spec fn slashed(prefix: Seq<char>) -> Seq<char> {
    if prefix.len() > 0 && prefix[0] == '/' {
        prefix
    } else {
        seq!['/'] + prefix
    }
}

/// Whether `external` holds a resource under the name `name`.
pub open spec fn has_external(external: Seq<(String, Resource)>, name: Seq<char>) -> bool {
    exists|i: int| 0 <= i < external.len() && (#[trigger] external[i]).0@ == name
}

/// The external resources as entries of the table of the router: each
/// without a handler.
pub open spec fn external_entries<H>(external: Seq<(String, Resource)>) -> Seq<
    (Resource, Option<ResourceHandler<H>>),
> {
    Seq::new(external.len(), |i: int| (external[i].1, None::<ResourceHandler<H>>))
}

/// Entries without handlers add no pattern that takes requests, and no
/// handler.
pub proof fn lemma_routed_without_handlers<H>(
    table: Seq<(Resource, Option<H>)>,
    more: Seq<(Resource, Option<H>)>,
)
    requires
        forall|i: int| 0 <= i < more.len() ==> (#[trigger] more[i]).1 is None,
    ensures
        routed(table + more) == routed(table),
        handlers_of(table + more) == handlers_of(table),
    decreases more.len(),
{
    if more.len() == 0 {
        assert(table + more =~= table);
    } else {
        assert((table + more).drop_last() =~= table + more.drop_last());
        assert((table + more).last() == more.last());
        lemma_routed_without_handlers(table, more.drop_last());
    }
}

/// Each pattern that takes requests has its handler.
pub proof fn lemma_routed_handlers<H>(table: Seq<(Resource, Option<H>)>)
    ensures
        routed(table).len() == handlers_of(table).len(),
    decreases table.len(),
{
    if table.len() > 0 {
        lemma_routed_handlers(table.drop_last());
    }
}

impl<S, H, M> ApplicationParts<S, H, M> {
    /// The invariant of the parts: the patterns are well-formed, and the
    /// external resources are kept under their names.
    pub open spec fn wf(&self) -> bool {
        &&& forall|i: int| 0 <= i < self.resources@.len() ==> (#[trigger] self.resources@[i]).0.wf()
        &&& forall|i: int|
            0 <= i < self.external@.len() ==> (#[trigger] self.external@[i]).1.wf()
    }

    /// The table that the router is made of: the resources, then the
    /// external resources.
    pub open spec fn table(&self) -> Seq<(Resource, Option<ResourceHandler<H>>)> {
        self.resources@ + external_entries(self.external@)
    }
}

impl<S, H, M> App<S, H, M> {
    /// The invariant of the builder.
    pub open spec fn wf(&self) -> bool {
        self.parts matches Some(parts) ==> parts.wf()
    }

    /// A builder for an application with the state `state`, under the
    /// prefix `/`, without resources, handlers or middlewares; what the
    /// default resource is asked for is not found.
    pub fn with_state(state: S) -> (r: App<S, H, M>)
        ensures
            r.wf(),
            r.parts matches Some(parts) && parts.state == state && parts.prefix@ == "/"@
                && parts.resources@.len() == 0 && parts.handlers@.len() == 0
                && parts.external@.len() == 0 && parts.middlewares@.len() == 0
                && parts.default.routes@.len() == 0 && parts.encoding == ContentEncoding::Auto,
    {
        App {
            parts: Some(
                ApplicationParts {
                    state,
                    prefix: "/".to_owned(),
                    settings: ServerSettings::default(),
                    default: ResourceHandler::default_not_found(),
                    resources: Vec::new(),
                    handlers: Vec::new(),
                    external: Vec::new(),
                    encoding: ContentEncoding::Auto,
                    middlewares: Vec::new(),
                },
            ),
        }
    }

    /// Sets the prefix of the application; a slash is put before a prefix
    /// that does not start with one.
    pub fn prefix(self, prefix: &str) -> (r: App<S, H, M>)
        requires
            self.parts is Some,
        ensures
            r.parts == Some(
                ApplicationParts { prefix: (r.parts->0).prefix, ..self.parts->0 },
            ),
            (r.parts->0).prefix@ == slashed(prefix@),
    {
        let mut this = self;
        let mut parts = match this.parts.take() {
            Some(parts) => parts,
            None => vstd::pervasive::unreached(),
        };
        let chars = chars_of(prefix);
        if chars.len() > 0 && chars[0] == '/' {
            parts.prefix = prefix.to_owned();
        } else {
            let mut text = String::new();
            push_char(&mut text, '/');
            text.append(prefix);
            assert(text@ =~= seq!['/'] + prefix@);
            parts.prefix = text;
        }
        App { parts: Some(parts) }
    }

    /// Registers the resource that `f` configures under the path template
    /// `path`.
    pub fn resource<F: FnOnce(&mut ResourceHandler<H>)>(self, path: &str, f: F) -> (r: App<S, H, M>)
        requires
            self.wf(),
            self.parts is Some,
            Resource::accepts(path@, "/"@),
            forall|resource: &mut ResourceHandler<H>| f.requires((resource,)),
        ensures
            r.wf(),
            r.parts == Some(
                ApplicationParts { resources: (r.parts->0).resources, ..self.parts->0 },
            ),
            (r.parts->0).resources@.len() == (self.parts->0).resources@.len() + 1,
            (r.parts->0).resources@.drop_last() == (self.parts->0).resources@,
            (r.parts->0).resources@.last().1 is Some,
            (r.parts->0).resources@.last().0.made_of(
                ((r.parts->0).resources@.last().1->0).name@,
                path@,
                "/"@,
            ),
            exists|slot: &mut ResourceHandler<H>|
                slot.name@.len() == 0 && slot.routes@.len() == 0 && #[trigger] f.ensures(
                    (slot,),
                    (),
                ) && *final(slot) == (r.parts->0).resources@.last().1->0,
    {
        let mut this = self;
        let mut parts = match this.parts.take() {
            Some(parts) => parts,
            None => vstd::pervasive::unreached(),
        };
        let mut resource = ResourceHandler::default();
        f(&mut resource);
        let pattern = Resource::new(resource.get_name(), path);
        let ghost before = parts.resources@;
        parts.resources.push((pattern, Some(resource)));
        proof {
            assert(parts.resources@.drop_last() =~= before);
            assert forall|i: int| 0 <= i < parts.resources@.len() implies (
            #[trigger] parts.resources@[i]).0.wf() by {
                if i < before.len() {
                    assert(parts.resources@[i] == before[i]);
                }
            }
        }
        App { parts: Some(parts) }
    }

    /// Registers the resource that `f` configures under the path template
    /// `path`, or hands the builder back with the reason why the template
    /// makes no route pattern.
    pub fn try_resource<F: FnOnce(&mut ResourceHandler<H>)>(self, path: &str, f: F) -> (r: Result<
        App<S, H, M>,
        (App<S, H, M>, PatternError),
    >)
        requires
            self.wf(),
            self.parts is Some,
            forall|resource: &mut ResourceHandler<H>| f.requires((resource,)),
        ensures
            match r {
                Ok(app) => Resource::accepts(path@, "/"@) && app.wf() && app.parts == Some(
                    ApplicationParts { resources: (app.parts->0).resources, ..self.parts->0 },
                ) && (app.parts->0).resources@.len() == (self.parts->0).resources@.len() + 1 && (
                app.parts->0).resources@.drop_last() == (self.parts->0).resources@ && (
                app.parts->0).resources@.last().1 is Some && (
                app.parts->0).resources@.last().0.made_of(
                    ((app.parts->0).resources@.last().1->0).name@,
                    path@,
                    "/"@,
                ) && exists|slot: &mut ResourceHandler<H>|
                    slot.name@.len() == 0 && slot.routes@.len() == 0 && #[trigger] f.ensures(
                        (slot,),
                        (),
                    ) && *final(slot) == (app.parts->0).resources@.last().1->0,
                Err(back) => !Resource::accepts(path@, "/"@) && back.0 == self && match back.1 {
                    PatternError::UnmatchedBrace => template(path@, "/"@) is None,
                    PatternError::InvalidRegex => template(path@, "/"@) is Some,
                },
            },
    {
        match Resource::check(path, "/") {
            Ok(_) => Ok(self.resource(path, f)),
            Err(err) => Err((self, err)),
        }
    }

    /// Lets `f` configure the default resource, which is asked when no
    /// route is found for a request.
    pub fn default_resource<F: FnOnce(&mut ResourceHandler<H>)>(self, f: F) -> (r: App<S, H, M>)
        requires
            self.parts is Some,
            forall|resource: &mut ResourceHandler<H>| f.requires((resource,)),
        ensures
            r.parts == Some(ApplicationParts { default: (r.parts->0).default, ..self.parts->0 }),
            exists|slot: &mut ResourceHandler<H>|
                *slot == (self.parts->0).default && #[trigger] f.ensures((slot,), ()) && *final(slot) == (r.parts->0).default,
    {
        let mut this = self;
        let mut parts = match this.parts.take() {
            Some(parts) => parts,
            None => vstd::pervasive::unreached(),
        };
        f(&mut parts.default);
        App { parts: Some(parts) }
    }

    /// Sets the default content coding.
    pub fn default_encoding(self, encoding: ContentEncoding) -> (r: App<S, H, M>)
        requires
            self.parts is Some,
        ensures
            r.parts == Some(ApplicationParts { encoding, ..self.parts->0 }),
    {
        let mut this = self;
        let mut parts = match this.parts.take() {
            Some(parts) => parts,
            None => vstd::pervasive::unreached(),
        };
        parts.encoding = encoding;
        App { parts: Some(parts) }
    }

    /// Whether an external resource is registered under `name`.
    pub fn is_external(&self, name: &str) -> (r: bool)
        requires
            self.parts is Some,
        ensures
            r == has_external((self.parts->0).external@, name@),
    {
        let parts = match &self.parts {
            Some(parts) => parts,
            None => vstd::pervasive::unreached(),
        };
        let mut i: usize = 0;
        while i < parts.external.len()
            invariant
                i <= parts.external@.len(),
                *parts == self.parts->0,
                forall|j: int| 0 <= j < i ==> (#[trigger] parts.external@[j]).0@ != name@,
            decreases parts.external@.len() - i,
        {
            if str_eq(parts.external[i].0.as_str(), name) {
                return true;
            }
            i += 1;
        }
        false
    }

    /// Registers a resource for making URLs only. It is never considered
    /// when requests are matched.
    pub fn external_resource(self, name: &str, url: &str) -> (r: App<S, H, M>)
        requires
            self.wf(),
            self.parts is Some,
            !has_external((self.parts->0).external@, name@),
            Resource::accepts(url@, "/"@),
        ensures
            r.wf(),
            r.parts == Some(ApplicationParts { external: (r.parts->0).external, ..self.parts->0 }),
            (r.parts->0).external@.len() == (self.parts->0).external@.len() + 1,
            (r.parts->0).external@.drop_last() == (self.parts->0).external@,
            (r.parts->0).external@.last().0@ == name@,
            (r.parts->0).external@.last().1.rtp == crate::router::ResourceType::External,
            (Resource {
                rtp: crate::router::ResourceType::Normal,
                ..(r.parts->0).external@.last().1
            }).made_of(name@, url@, "/"@),
    {
        let mut this = self;
        let mut parts = match this.parts.take() {
            Some(parts) => parts,
            None => vstd::pervasive::unreached(),
        };
        let ghost before = parts.external@;
        parts.external.push((name.to_owned(), Resource::external(name, url)));
        proof {
            assert(parts.external@.drop_last() =~= before);
            assert forall|i: int| 0 <= i < parts.external@.len() implies (
            #[trigger] parts.external@[i]).1.wf() by {
                if i < before.len() {
                    assert(parts.external@[i] == before[i]);
                }
            }
        }
        App { parts: Some(parts) }
    }

    /// Registers a resource for making URLs only, or hands the builder
    /// back with the reason why it cannot be registered.
    pub fn try_external_resource(self, name: &str, url: &str) -> (r: Result<
        App<S, H, M>,
        (App<S, H, M>, RegistrationError),
    >)
        requires
            self.wf(),
            self.parts is Some,
        ensures
            match r {
                Ok(app) => !has_external((self.parts->0).external@, name@) && Resource::accepts(
                    url@,
                    "/"@,
                ) && app.wf() && app.parts == Some(
                    ApplicationParts { external: (app.parts->0).external, ..self.parts->0 },
                ) && (app.parts->0).external@.len() == (self.parts->0).external@.len() + 1 && (
                app.parts->0).external@.drop_last() == (self.parts->0).external@ && (
                app.parts->0).external@.last().0@ == name@ && (
                app.parts->0).external@.last().1.rtp == crate::router::ResourceType::External
                    && (Resource {
                    rtp: crate::router::ResourceType::Normal,
                    ..(app.parts->0).external@.last().1
                }).made_of(name@, url@, "/"@),
                Err(back) => back.0 == self && match back.1 {
                    RegistrationError::Duplicate => has_external(
                        (self.parts->0).external@,
                        name@,
                    ),
                    RegistrationError::Pattern(_) => !Resource::accepts(url@, "/"@),
                },
            },
    {
        if self.is_external(name) {
            return Err((self, RegistrationError::Duplicate));
        }
        match Resource::check(url, "/") {
            Ok(_) => Ok(self.external_resource(name, url)),
            Err(err) => Err((self, RegistrationError::Pattern(err))),
        }
    }

    /// Registers a handler for the paths under the prefix `path`, which
    /// is taken without white space at its ends and without slashes at its
    /// end.
    pub fn handler(self, path: &str, handler: H) -> (r: App<S, H, M>)
        requires
            self.parts is Some,
        ensures
            r.parts == Some(ApplicationParts { handlers: (r.parts->0).handlers, ..self.parts->0 }),
            (r.parts->0).handlers@.len() == (self.parts->0).handlers@.len() + 1,
            (r.parts->0).handlers@.drop_last() == (self.parts->0).handlers@,
            (r.parts->0).handlers@.last().0@ == normalized(path@),
            (r.parts->0).handlers@.last().1 == handler,
    {
        let mut this = self;
        let mut parts = match this.parts.take() {
            Some(parts) => parts,
            None => vstd::pervasive::unreached(),
        };
        let path = normalize(path);
        let ghost before = parts.handlers@;
        parts.handlers.push((path, handler));
        assert(parts.handlers@.drop_last() =~= before);
        App { parts: Some(parts) }
    }

    /// Registers a middleware after those that are registered.
    pub fn middleware(self, mw: M) -> (r: App<S, H, M>)
        requires
            self.parts is Some,
        ensures
            r.parts == Some(
                ApplicationParts { middlewares: (r.parts->0).middlewares, ..self.parts->0 },
            ),
            (r.parts->0).middlewares@ == (self.parts->0).middlewares@.push(mw),
    {
        let mut this = self;
        let mut parts = match this.parts.take() {
            Some(parts) => parts,
            None => vstd::pervasive::unreached(),
        };
        parts.middlewares.push(mw);
        App { parts: Some(parts) }
    }

    /// Lets `cfg` go on with the building.
    pub fn configure<F: FnOnce(App<S, H, M>) -> App<S, H, M>>(self, cfg: F) -> (r: App<S, H, M>)
        requires
            cfg.requires((self,)),
        ensures
            cfg.ensures((self,), r),
    {
        cfg(self)
    }

    /// Finishes the building. The prefix is taken without white space
    /// at its ends and without slashes at its end. The router is made of
    /// the resources and, for making URLs, the external resources.
    pub fn finish(&mut self) -> (r: HttpApplication<S, H, M>)
        requires
            old(self).wf(),
            old(self).parts is Some,
        ensures
            final(self).parts is None,
            r.built_from(old(self).parts->0),
    {
        let parts = match self.parts.take() {
            Some(parts) => parts,
            None => vstd::pervasive::unreached(),
        };
        let prefix = normalize(parts.prefix.as_str());
        let mut resources = parts.resources;
        let ghost given = resources@;
        let ghost outside = parts.external@;
        proof {
            assert(given + external_entries::<H>(outside.take(0)) =~= given);
        }
        for entry in it: parts.external
            invariant
                outside == it.seq(),
                resources@ == given + external_entries::<H>(outside.take(it.index() as int)),
        {
            let ghost k = it.index() as int;
            resources.push((entry.1, None));
            assert(resources@ =~= given + external_entries::<H>(outside.take(k + 1)));
        }
        proof {
            assert(outside.take(outside.len() as int) =~= outside);
            lemma_routed_without_handlers(given, external_entries::<H>(outside));
            lemma_routed_handlers(given);
            assert forall|i: int| 0 <= i < resources@.len() implies (
            #[trigger] resources@[i]).0.wf() by {
                if i < given.len() {
                    assert(resources@[i] == given[i]);
                } else {
                    assert(resources@[i].0 == outside[i - given.len()].1);
                }
            }
        }
        let (router, resources) = Router::new(prefix.as_str(), parts.settings, resources);
        let inner = Inner {
            prefix: prefix.as_str().as_bytes().len(),
            default: parts.default,
            encoding: parts.encoding,
            handlers: parts.handlers,
            resources,
        };
        HttpApplication {
            state: Rc::new(parts.state),
            prefix,
            router,
            middlewares: parts.middlewares,
            inner,
        }
    }

    /// Finishes the building and puts the application in a box.
    pub fn boxed(self) -> (r: Box<HttpApplication<S, H, M>>)
        requires
            self.wf(),
            self.parts is Some,
        ensures
            r.built_from(self.parts->0),
    {
        let mut this = self;
        Box::new(this.finish())
    }

    /// Finishes the building for a server with the settings `settings`.
    pub fn into_handler(self, settings: ServerSettings) -> (r: HttpApplication<S, H, M>)
        requires
            self.wf(),
            self.parts is Some,
        ensures
            r.built_from(ApplicationParts { settings, ..self.parts->0 }),
    {
        let mut this = self;
        let mut parts = match this.parts.take() {
            Some(parts) => parts,
            None => vstd::pervasive::unreached(),
        };
        parts.settings = settings;
        let mut app = App { parts: Some(parts) };
        app.finish()
    }

    /// The application, the first time; nothing after that.
    pub fn next(&mut self) -> (r: Option<HttpApplication<S, H, M>>)
        requires
            old(self).wf(),
        ensures
            final(self).parts is None,
            r is Some == old(self).parts is Some,
            r matches Some(app) ==> app.built_from(old(self).parts->0),
    {
        if self.parts.is_some() {
            Some(self.finish())
        } else {
            None
        }
    }
}

impl<H, M> App<(), H, M> {
    /// A builder for an application without state.
    pub fn new() -> (r: App<(), H, M>)
        ensures
            r.wf(),
            r.parts matches Some(parts) && parts.prefix@ == "/"@ && parts.resources@.len() == 0
                && parts.handlers@.len() == 0 && parts.external@.len() == 0
                && parts.middlewares@.len() == 0 && parts.default.routes@.len() == 0
                && parts.encoding == ContentEncoding::Auto,
    {
        App::with_state(())
    }
}

impl<H, M> Default for App<(), H, M> {
    fn default() -> (r: App<(), H, M>)
        ensures
            r.wf(),
            r.parts is Some,
    {
        App::new()
    }
}

} // verus!
