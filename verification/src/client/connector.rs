//! The client connector: connection keys, admission against the pool limits,
//! the idle set, the waiter queue and the release mailbox.

use vstd::prelude::*;
use vstd::multiset::Multiset;
use vstd::std_specs::convert::FromSpecImpl;
use std::collections::VecDeque;
use http::uri::InvalidUri;
use http::Uri;
use crate::text::str_eq;

verus! {

/// Time in milliseconds, for instants (since an epoch the caller picks) and
/// for periods alike.
pub type Millis = u64;

/// The schemes the connector serves.
#[derive(Clone, Copy, Debug, PartialEq, Eq, Structural)]
pub enum Protocol {
    Http,
    Https,
    Ws,
    Wss,
}

/// The protocol that a scheme names, if the connector serves it.
pub open spec fn protocol_of(scheme: Seq<char>) -> Option<Protocol> {
    if scheme == "http"@ {
        Some(Protocol::Http)
    } else if scheme == "https"@ {
        Some(Protocol::Https)
    } else if scheme == "ws"@ {
        Some(Protocol::Ws)
    } else if scheme == "wss"@ {
        Some(Protocol::Wss)
    } else {
        None
    }
}

impl Protocol {
    pub fn from(s: &str) -> (r: Option<Protocol>)
        ensures
            r == protocol_of(s@),
    {
        if str_eq(s, "http") {
            Some(Protocol::Http)
        } else if str_eq(s, "https") {
            Some(Protocol::Https)
        } else if str_eq(s, "ws") {
            Some(Protocol::Ws)
        } else if str_eq(s, "wss") {
            Some(Protocol::Wss)
        } else {
            None
        }
    }

    pub open spec fn spec_is_http(&self) -> bool {
        *self == Protocol::Http || *self == Protocol::Https
    }

    pub open spec fn spec_is_secure(&self) -> bool {
        *self == Protocol::Https || *self == Protocol::Wss
    }

    pub open spec fn spec_port(&self) -> u16 {
        if self.spec_is_secure() {
            443
        } else {
            80
        }
    }

    /// Whether connections of this protocol are pooled.
    #[verifier::when_used_as_spec(spec_is_http)]
    pub fn is_http(&self) -> (r: bool)
        ensures
            r == self.spec_is_http(),
    {
        match *self {
            Protocol::Https | Protocol::Http => true,
            _ => false,
        }
    }

    /// Whether the protocol runs over TLS.
    #[verifier::when_used_as_spec(spec_is_secure)]
    pub fn is_secure(&self) -> (r: bool)
        ensures
            r == self.spec_is_secure(),
    {
        match *self {
            Protocol::Https | Protocol::Wss => true,
            _ => false,
        }
    }

    /// The default port of the protocol.
    #[verifier::when_used_as_spec(spec_port)]
    pub fn port(&self) -> (r: u16)
        ensures
            r == self.spec_port(),
    {
        match *self {
            Protocol::Http | Protocol::Ws => 80,
            Protocol::Https | Protocol::Wss => 443,
        }
    }
}


/// What identifies an endpoint for pooling: host, port and whether TLS is used.
#[derive(Debug)]
pub struct Key {
    pub host: String,
    pub port: u16,
    pub ssl: bool,
}

impl View for Key {
    type V = (Seq<char>, u16, bool);

    open spec fn view(&self) -> (Seq<char>, u16, bool) {
        (self.host@, self.port, self.ssl)
    }
}

impl Clone for Key {
    fn clone(&self) -> (r: Key)
        ensures
            r == *self,
    {
        Key { host: self.host.clone(), port: self.port, ssl: self.ssl }
    }
}

impl Key {
    /// The key of a connection that no pool issued.
    pub fn empty() -> (r: Key)
        ensures
            r@ == (Seq::<char>::empty(), 0u16, false),
    {
        Key { host: String::new(), port: 0, ssl: false }
    }

    /// Whether two keys name the same endpoint.
    pub fn same(&self, other: &Key) -> (r: bool)
        ensures
            r == (self@ == other@),
    {
        self.port == other.port && self.ssl == other.ssl && str_eq(
            self.host.as_str(),
            other.host.as_str(),
        )
    }
}

/// The parts of a URI that the connector reads.
#[derive(Debug)]
pub struct Target {
    pub scheme: Option<String>,
    pub host: Option<String>,
    pub port: Option<u16>,
}

/// Scheme, host and port of a URI, as sequences of characters.
pub type TargetView = (Option<Seq<char>>, Option<Seq<char>>, Option<u16>);

/// The characters of an optional string.
pub open spec fn opt_text(s: Option<String>) -> Option<Seq<char>> {
    match s {
        Some(s) => Some(s@),
        None => None,
    }
}

impl View for Target {
    type V = TargetView;

    open spec fn view(&self) -> TargetView {
        (opt_text(self.scheme), opt_text(self.host), self.port)
    }
}

/// `http::uri::InvalidUri`, the error with which a string is refused
/// as a URI. It is declared so that it can be passed on; nothing is known
/// of what is inside.
#[verifier::external_type_specification]
#[verifier::external_body]
pub struct ExInvalidUri(InvalidUri);

/// Scheme, host and port that `http::Uri` reads out of `text`, or `None`
/// where it refuses `text` as a URI.
pub uninterp spec fn uri_parts(text: Seq<char>) -> Option<TargetView>;

/// `http::Uri::try_from` on a string slice, followed by `scheme_str`, `host`
/// and `port_u16` on the parsed value. The contract only gives the outcome
/// its name: parsing succeeds exactly where `uri_parts` is `Some`, and the
/// three parts are those that `uri_parts` holds.
#[verifier::external_body]
fn parse_uri(text: &str) -> (r: Result<Target, InvalidUri>)
    ensures
        r is Ok <==> uri_parts(text@) is Some,
        r matches Ok(t) ==> Some(t@) == uri_parts(text@),
{
    let uri = Uri::try_from(text)?;
    Ok(
        Target {
            scheme: uri.scheme_str().map(str::to_owned),
            host: uri.host().map(str::to_owned),
            port: uri.port_u16(),
        },
    )
}

/// A string was refused as a URI; `cause` is the reason that the parser
/// gave.
#[derive(Debug)]
pub struct HttpError {
    pub cause: InvalidUri,
}

/// A request for a connection to the endpoint that `uri` names.
#[derive(Debug)]
pub struct Connect {
    pub uri: Target,
    pub wait_time: Millis,
    pub conn_timeout: Millis,
}

impl Connect {
    /// A request for `uri`, waiting at most 5 s for a free slot and 1 s for
    /// the connection to be made. Fails exactly where `uri` is no URI.
    pub fn new(uri: &str) -> (r: Result<Connect, HttpError>)
        ensures
            r is Ok <==> uri_parts(uri@) is Some,
            r matches Ok(c) ==> Some(c.uri@) == uri_parts(uri@) && c.wait_time == 5000
                && c.conn_timeout == 1000,
    {
        match parse_uri(uri) {
            Ok(target) => Ok(Connect { uri: target, wait_time: 5000, conn_timeout: 1000 }),
            Err(cause) => Err(HttpError { cause }),
        }
    }

    /// Sets the most time to take to connect to the remote host.
    pub fn conn_timeout(self, timeout: Millis) -> (r: Connect)
        ensures
            r.uri == self.uri,
            r.wait_time == self.wait_time,
            r.conn_timeout == timeout,
    {
        let mut this = self;
        this.conn_timeout = timeout;
        this
    }

    /// Sets the most time to wait for a free slot where the pool limits
    /// block the request.
    pub fn wait_time(self, timeout: Millis) -> (r: Connect)
        ensures
            r.uri == self.uri,
            r.wait_time == timeout,
            r.conn_timeout == self.conn_timeout,
    {
        let mut this = self;
        this.wait_time = timeout;
        this
    }
}

/// Why the resolver could not hand over a byte stream.
#[derive(Debug)]
pub enum ConnectorError {
    /// The name could not be resolved.
    Resolver(String),
    /// The name resolved to no address.
    NoRecords,
    /// Resolving and connecting took longer than the connect timeout.
    Timeout,
    /// Connecting failed.
    IoError(String),
}

/// Why a connection could not be had.
#[derive(Debug)]
pub enum ClientConnectorError {
    /// The URI lacks a host or a scheme, or names a scheme that is not served.
    InvalidUrl,
    /// A secure scheme was asked for and no TLS backend is present.
    SslIsNotSupported,
    /// The TLS handshake failed.
    SslError(String),
    /// The resolver failed.
    Connector(ConnectorError),
    /// Connecting, or waiting for a slot, took too long.
    Timeout,
    /// The connector is gone.
    Disconnected,
    /// The connection failed.
    IoError(String),
}

impl From<ConnectorError> for ClientConnectorError {
    fn from(err: ConnectorError) -> (r: ClientConnectorError) {
        match err {
            ConnectorError::Timeout => ClientConnectorError::Timeout,
            _ => ClientConnectorError::Connector(err),
        }
    }
}

impl FromSpecImpl<ConnectorError> for ClientConnectorError {
    open spec fn obeys_from_spec() -> bool {
        true
    }

    open spec fn from_spec(err: ConnectorError) -> ClientConnectorError {
        connector_failure(err)
    }
}

/// The error that a failure of the resolver becomes: a timeout stays a
/// timeout, any other failure is wrapped.
pub open spec fn connector_failure(err: ConnectorError) -> ClientConnectorError {
    match err {
        ConnectorError::Timeout => ClientConnectorError::Timeout,
        _ => ClientConnectorError::Connector(err),
    }
}


/// The view of a [`Key`]: host, port and TLS flag.
pub type KeyView = (Seq<char>, u16, bool);

/// Whether the table `t` has an entry for `k`.
pub open spec fn has_key<V>(t: Seq<(Key, V)>, k: KeyView) -> bool {
    exists|i: int| 0 <= i < t.len() && (#[trigger] t[i]).0@ == k
}

/// The place of an entry for `k` in `t`.
pub open spec fn slot_of<V>(t: Seq<(Key, V)>, k: KeyView) -> int {
    choose|i: int| 0 <= i < t.len() && (#[trigger] t[i]).0@ == k
}

/// No two entries of `t` have the same key.
pub open spec fn distinct_keys<V>(t: Seq<(Key, V)>) -> bool {
    forall|i: int, j: int|
        0 <= i < j < t.len() ==> (#[trigger] t[i]).0@ != (#[trigger] t[j]).0@
}

/// In a table of distinct keys, the entry for a key is where one finds it.
pub proof fn lemma_slot_unique<V>(t: Seq<(Key, V)>, i: int)
    requires
        distinct_keys(t),
        0 <= i < t.len(),
    ensures
        has_key(t, t[i].0@),
        slot_of(t, t[i].0@) == i,
{
    let k = t[i].0@;
    assert(has_key(t, k));
    let j = slot_of(t, k);
    if j < i {
        assert(t[j].0@ != t[i].0@);
    } else if i < j {
        assert(t[i].0@ != t[j].0@);
    }
}

/// Where `key` stands in the table `t`, if it has an entry.
pub fn find_key<V>(t: &Vec<(Key, V)>, key: &Key) -> (r: Option<usize>)
    ensures
        r matches Some(i) ==> i < t.len() && t[i as int].0@ == key@,
        r is None ==> !has_key(t@, key@),
{
    let mut i: usize = 0;
    while i < t.len()
        invariant
            i <= t.len(),
            forall|j: int| 0 <= j < i ==> (#[trigger] t[j]).0@ != key@,
        decreases t.len() - i,
    {
        if t[i].0.same(key) {
            return Some(i);
        }
        i += 1;
    }
    None
}

/// The count that the table `t` holds for `k`: zero where it has no entry.
pub open spec fn count_for(t: Seq<(Key, usize)>, k: KeyView) -> nat {
    if has_key(t, k) {
        t[slot_of(t, k)].1 as nat
    } else {
        0
    }
}

/// The sum of the counts in `t`.
pub open spec fn total(t: Seq<(Key, usize)>) -> nat
    decreases t.len(),
{
    if t.len() == 0 {
        0
    } else {
        total(t.drop_last()) + t.last().1 as nat
    }
}

/// Adding an entry adds its count to the sum.
pub proof fn lemma_total_push(t: Seq<(Key, usize)>, e: (Key, usize))
    ensures
        total(t.push(e)) == total(t) + e.1,
{
    assert(t.push(e).drop_last() =~= t);
}

/// Changing one count changes the sum by the difference.
pub proof fn lemma_total_update(t: Seq<(Key, usize)>, i: int, e: (Key, usize))
    requires
        0 <= i < t.len(),
    ensures
        total(t.update(i, e)) + t[i].1 == total(t) + e.1,
    decreases t.len(),
{
    if i == t.len() - 1 {
        assert(t.update(i, e).drop_last() =~= t.drop_last());
    } else {
        assert(t.update(i, e).drop_last() =~= t.drop_last().update(i, e));
        lemma_total_update(t.drop_last(), i, e);
    }
}

/// Removing an entry takes its count off the sum.
pub proof fn lemma_total_remove(t: Seq<(Key, usize)>, i: int)
    requires
        0 <= i < t.len(),
    ensures
        total(t.remove(i)) + t[i].1 == total(t),
    decreases t.len(),
{
    if i == t.len() - 1 {
        assert(t.remove(i) =~= t.drop_last());
    } else {
        assert(t.remove(i).drop_last() =~= t.drop_last().remove(i));
        assert(t.remove(i).last() == t.last());
        lemma_total_remove(t.drop_last(), i);
    }
}

/// No count exceeds the sum.
pub proof fn lemma_total_bounds(t: Seq<(Key, usize)>, i: int)
    requires
        0 <= i < t.len(),
    ensures
        t[i].1 <= total(t),
    decreases t.len(),
{
    if i < t.len() - 1 {
        lemma_total_bounds(t.drop_last(), i);
    }
}

/// In a table of distinct keys, a key that stands at `i` has no other place.
pub proof fn lemma_count_at(t: Seq<(Key, usize)>, i: int)
    requires
        distinct_keys(t),
        0 <= i < t.len(),
    ensures
        count_for(t, t[i].0@) == t[i].1,
{
    lemma_slot_unique(t, i);
}

/// Changing the count of entry `i` changes the count of its key and of no
/// other.
pub proof fn lemma_count_update(t: Seq<(Key, usize)>, i: int, e: (Key, usize))
    requires
        distinct_keys(t),
        0 <= i < t.len(),
        e.0@ == t[i].0@,
    ensures
        distinct_keys(t.update(i, e)),
        count_for(t.update(i, e), e.0@) == e.1,
        forall|k: KeyView| k != e.0@ ==> count_for(t.update(i, e), k) == count_for(t, k),
{
    let u = t.update(i, e);
    assert forall|a: int, b: int| 0 <= a < b < u.len() implies (#[trigger] u[a]).0@ != (
    #[trigger] u[b]).0@ by {
        assert(u[a].0@ == t[a].0@);
        assert(u[b].0@ == t[b].0@);
    }
    lemma_slot_unique(u, i);
    assert forall|k: KeyView| k != e.0@ implies count_for(u, k) == count_for(t, k) by {
        if has_key(t, k) {
            let j = slot_of(t, k);
            assert(u[j].0@ == k);
            lemma_slot_unique(u, j);
        } else if has_key(u, k) {
            let j = slot_of(u, k);
            assert(t[j].0@ == k);
        }
    }
}

/// A new entry for a key that had none gives that key its count and
/// changes no other.
pub proof fn lemma_count_push(t: Seq<(Key, usize)>, e: (Key, usize))
    requires
        distinct_keys(t),
        !has_key(t, e.0@),
    ensures
        distinct_keys(t.push(e)),
        count_for(t.push(e), e.0@) == e.1,
        forall|k: KeyView| k != e.0@ ==> count_for(t.push(e), k) == count_for(t, k),
{
    let u = t.push(e);
    assert forall|a: int, b: int| 0 <= a < b < u.len() implies (#[trigger] u[a]).0@ != (
    #[trigger] u[b]).0@ by {
        if b == t.len() {
            assert(u[a] == t[a]);
        } else {
            assert(u[a] == t[a]);
            assert(u[b] == t[b]);
        }
    }
    lemma_slot_unique(u, t.len() as int);
    assert forall|k: KeyView| k != e.0@ implies count_for(u, k) == count_for(t, k) by {
        if has_key(t, k) {
            let j = slot_of(t, k);
            assert(u[j] == t[j]);
            lemma_slot_unique(u, j);
        } else if has_key(u, k) {
            let j = slot_of(u, k);
            assert(t[j].0@ == k);
        }
    }
}

/// Removing an entry leaves its key without a count and changes no other.
pub proof fn lemma_count_remove(t: Seq<(Key, usize)>, i: int)
    requires
        distinct_keys(t),
        0 <= i < t.len(),
    ensures
        distinct_keys(t.remove(i)),
        count_for(t.remove(i), t[i].0@) == 0,
        forall|k: KeyView| k != t[i].0@ ==> count_for(t.remove(i), k) == count_for(t, k),
{
    let u = t.remove(i);
    assert forall|a: int| 0 <= a < u.len() implies #[trigger] u[a] == t[if a < i {
        a
    } else {
        a + 1
    }] by {}
    assert forall|a: int, b: int| 0 <= a < b < u.len() implies (#[trigger] u[a]).0@ != (
    #[trigger] u[b]).0@ by {
        let a2 = if a < i { a } else { a + 1 };
        let b2 = if b < i { b } else { b + 1 };
        assert(u[a] == t[a2]);
        assert(u[b] == t[b2]);
        assert(t[a2].0@ != t[b2].0@);
    }
    if has_key(u, t[i].0@) {
        let j = slot_of(u, t[i].0@);
        let j2 = if j < i { j } else { j + 1 };
        assert(u[j] == t[j2]);
        if j2 < i {
            assert(t[j2].0@ != t[i].0@);
        } else {
            assert(t[i].0@ != t[j2].0@);
        }
    }
    assert forall|k: KeyView| k != t[i].0@ implies count_for(u, k) == count_for(t, k) by {
        if has_key(t, k) {
            let j = slot_of(t, k);
            let j1 = if j < i { j } else { j - 1 };
            assert(u[j1] == t[j]);
            lemma_slot_unique(u, j1);
        } else if has_key(u, k) {
            let j = slot_of(u, k);
            let j2 = if j < i { j } else { j + 1 };
            assert(u[j] == t[j2]);
            assert(t[j2].0@ == k);
        }
    }
}

/// Two tables with the same keys in the same places find every key in
/// the same place.
pub proof fn lemma_same_keys<V, W>(t: Seq<(Key, V)>, u: Seq<(Key, W)>)
    requires
        distinct_keys(t),
        t.len() == u.len(),
        forall|j: int| 0 <= j < t.len() ==> (#[trigger] t[j]).0@ == u[j].0@,
    ensures
        distinct_keys(u),
        forall|k: KeyView| has_key(u, k) == has_key(t, k),
        forall|k: KeyView| has_key(t, k) ==> slot_of(u, k) == slot_of(t, k),
{
    assert forall|a: int, b: int| 0 <= a < b < u.len() implies (#[trigger] u[a]).0@ != (
    #[trigger] u[b]).0@ by {
        assert(t[a].0@ == u[a].0@);
        assert(t[b].0@ == u[b].0@);
        assert(t[a].0@ != t[b].0@);
    }
    assert forall|k: KeyView| has_key(u, k) == has_key(t, k) by {
        if has_key(u, k) {
            let j = slot_of(u, k);
            assert(t[j].0@ == k);
        }
        if has_key(t, k) {
            let j = slot_of(t, k);
            assert(t[j].0@ == u[j].0@);
            assert(u[j].0@ == k);
        }
    }
    assert forall|k: KeyView| has_key(t, k) implies slot_of(u, k) == slot_of(t, k) by {
        let j = slot_of(t, k);
        assert(t[j].0@ == u[j].0@);
        lemma_slot_unique(u, j);
    }
}

/// A new entry for a key that had none is found at the end, and every
/// other key where it was.
pub proof fn lemma_push_key<V>(t: Seq<(Key, V)>, e: (Key, V))
    requires
        distinct_keys(t),
        !has_key(t, e.0@),
    ensures
        distinct_keys(t.push(e)),
        has_key(t.push(e), e.0@),
        slot_of(t.push(e), e.0@) == t.len(),
        forall|k: KeyView| k != e.0@ ==> has_key(t.push(e), k) == has_key(t, k),
        forall|k: KeyView| has_key(t, k) ==> slot_of(t.push(e), k) == slot_of(t, k),
{
    let u = t.push(e);
    assert forall|a: int, b: int| 0 <= a < b < u.len() implies (#[trigger] u[a]).0@ != (
    #[trigger] u[b]).0@ by {
        assert(u[a] == t[a]);
        if b < t.len() {
            assert(u[b] == t[b]);
        }
    }
    lemma_slot_unique(u, t.len() as int);
    assert forall|k: KeyView| k != e.0@ implies has_key(u, k) == has_key(t, k) by {
        if has_key(u, k) {
            let j = slot_of(u, k);
            assert(t[j].0@ == k);
        }
        if has_key(t, k) {
            let j = slot_of(t, k);
            assert(u[j] == t[j]);
        }
    }
    assert forall|k: KeyView| has_key(t, k) implies slot_of(u, k) == slot_of(t, k) by {
        let j = slot_of(t, k);
        assert(u[j] == t[j]);
        lemma_slot_unique(u, j);
    }
}

/// The slot that a connection holds in a pool: the key it was reserved
/// under, and whether it is still to be given back.
#[derive(Debug)]
pub struct AcquiredConn(pub Key, pub bool);

/// A leased connection: its key, the byte stream, the pool slot it holds
/// (none for a connection that no pool issued) and when it was made.
#[derive(Debug)]
pub struct Connection<T> {
    pub key: Key,
    pub stream: T,
    pub pool: Option<AcquiredConn>,
    pub ts: Millis,
}

/// The mailbox through which leased connections come back to the connector:
/// slots to free, connections to close, connections to keep for reuse.
#[derive(Debug)]
pub struct Pool<T> {
    pub keys: Vec<Key>,
    pub to_close: Vec<Connection<T>>,
    pub to_release: Vec<Connection<T>>,
    pub modified: bool,
}

impl<T> Pool<T> {
    pub fn new() -> (r: Pool<T>)
        ensures
            r.keys@.len() == 0,
            r.to_close@.len() == 0,
            r.to_release@.len() == 0,
            !r.modified,
    {
        Pool { keys: Vec::new(), to_close: Vec::new(), to_release: Vec::new(), modified: false }
    }

    /// Takes the freed slots out of the mailbox; `None` where there are none.
    pub fn collect_keys(&mut self) -> (r: Option<Vec<Key>>)
        ensures
            old(self).keys@.len() == 0 ==> r is None,
            old(self).keys@.len() > 0 ==> r == Some(old(self).keys),
            final(self).keys@.len() == 0,
            final(self).to_close == old(self).to_close,
            final(self).to_release == old(self).to_release,
            final(self).modified == old(self).modified,
    {
        if self.keys.is_empty() {
            None
        } else {
            let mut taken: Vec<Key> = Vec::new();
            core::mem::swap(&mut self.keys, &mut taken);
            Some(taken)
        }
    }

    /// Takes the connections to close out of the mailbox.
    pub fn collect_close(&mut self) -> (r: Option<Vec<Connection<T>>>)
        ensures
            old(self).to_close@.len() == 0 ==> r is None,
            old(self).to_close@.len() > 0 ==> r == Some(old(self).to_close),
            final(self).to_close@.len() == 0,
            final(self).keys == old(self).keys,
            final(self).to_release == old(self).to_release,
            final(self).modified == old(self).modified,
    {
        if self.to_close.is_empty() {
            None
        } else {
            let mut taken: Vec<Connection<T>> = Vec::new();
            core::mem::swap(&mut self.to_close, &mut taken);
            Some(taken)
        }
    }

    /// Takes the connections to keep out of the mailbox.
    pub fn collect_release(&mut self) -> (r: Option<Vec<Connection<T>>>)
        ensures
            old(self).to_release@.len() == 0 ==> r is None,
            old(self).to_release@.len() > 0 ==> r == Some(old(self).to_release),
            final(self).to_release@.len() == 0,
            final(self).keys == old(self).keys,
            final(self).to_close == old(self).to_close,
            final(self).modified == old(self).modified,
    {
        if self.to_release.is_empty() {
            None
        } else {
            let mut taken: Vec<Connection<T>> = Vec::new();
            core::mem::swap(&mut self.to_release, &mut taken);
            Some(taken)
        }
    }

    /// Hands in a connection to be shut down.
    pub fn close(&mut self, conn: Connection<T>)
        ensures
            final(self).modified,
            final(self).to_close@ == old(self).to_close@.push(conn),
            final(self).keys == old(self).keys,
            final(self).to_release == old(self).to_release,
    {
        self.modified = true;
        self.to_close.push(conn);
    }

    /// Hands in a connection to be kept for reuse.
    pub fn release(&mut self, conn: Connection<T>)
        ensures
            final(self).modified,
            final(self).to_release@ == old(self).to_release@.push(conn),
            final(self).keys == old(self).keys,
            final(self).to_close == old(self).to_close,
    {
        self.modified = true;
        self.to_release.push(conn);
    }

    /// Frees the slot of a connection that was dropped.
    pub fn release_key(&mut self, key: Key)
        ensures
            final(self).modified,
            final(self).keys@ == old(self).keys@.push(key),
            final(self).to_close == old(self).to_close,
            final(self).to_release == old(self).to_release,
    {
        self.modified = true;
        self.keys.push(key);
    }
}

impl AcquiredConn {
    /// Gives the slot back with its connection, which is to be shut down.
    /// Does nothing where the slot was given back before.
    pub fn close<T>(&mut self, conn: Connection<T>, pool: &mut Pool<T>)
        ensures
            !final(self).1,
            final(self).0 == old(self).0,
            old(self).1 ==> final(pool).modified && final(pool).to_close@ == old(pool).to_close@.push(conn) && final(pool).keys == old(pool).keys && final(pool).to_release
                == old(pool).to_release,
            !old(self).1 ==> *final(pool) == *old(pool),
    {
        if self.1 {
            self.1 = false;
            pool.close(conn);
        }
    }

    /// Gives the slot back with its connection, which may be used again.
    /// Does nothing where the slot was given back before.
    pub fn release<T>(&mut self, conn: Connection<T>, pool: &mut Pool<T>)
        ensures
            !final(self).1,
            final(self).0 == old(self).0,
            old(self).1 ==> final(pool).modified && final(pool).to_release@ == old(pool).to_release@.push(conn) && final(pool).keys == old(pool).keys && final(pool).to_close
                == old(pool).to_close,
            !old(self).1 ==> *final(pool) == *old(pool),
    {
        if self.1 {
            self.1 = false;
            pool.release(conn);
        }
    }

    /// Gives the slot back without a connection: what a lease does when it
    /// is dropped.
    pub fn discard<T>(&mut self, pool: &mut Pool<T>)
        ensures
            !final(self).1,
            final(self).0 == old(self).0,
            old(self).1 ==> final(pool).modified && final(pool).keys@ == old(pool).keys@.push(
                old(self).0,
            ) && final(pool).to_close == old(pool).to_close && final(pool).to_release == old(pool).to_release,
            !old(self).1 ==> *final(pool) == *old(pool),
    {
        if self.1 {
            self.1 = false;
            pool.release_key(self.0.clone());
        }
    }
}

/// A connection without its pool slot.
pub open spec fn detached<T>(conn: Connection<T>) -> Connection<T> {
    Connection { key: conn.key, stream: conn.stream, pool: None, ts: conn.ts }
}

impl<T> Connection<T> {
    /// Whether the connection holds a pool slot that is still to be given
    /// back.
    pub open spec fn holds_slot(&self) -> bool {
        self.pool is Some && (self.pool->0).1
    }

    /// A connection over `stream` made at `now`.
    pub fn new(key: Key, pool: Option<AcquiredConn>, stream: T, now: Millis) -> (r: Connection<T>)
        ensures
            r == (Connection { key, stream, pool, ts: now }),
    {
        Connection { key, stream, pool, ts: now }
    }

    /// The byte stream of the connection.
    pub fn stream(&mut self) -> (r: &mut T)
        ensures
            *r == old(self).stream,
            *final(self) == (Connection {
                key: old(self).key,
                stream: *final(r),
                pool: old(self).pool,
                ts: old(self).ts,
            }),
    {
        &mut self.stream
    }

    /// A connection over a stream that no pool issued.
    pub fn from_stream(io: T, now: Millis) -> (r: Connection<T>)
        ensures
            r.stream == io,
            r.pool is None,
            r.ts == now,
            r.key@ == (Seq::<char>::empty(), 0u16, false),
    {
        Connection::new(Key::empty(), None, io, now)
    }

    /// Hands the connection to `pool` to be shut down. A connection without
    /// a slot is dropped.
    pub fn close(self, pool: &mut Pool<T>)
        ensures
            self.holds_slot() ==> final(pool).modified && final(pool).to_close@ == old(pool).to_close@.push(detached(self)) && final(pool).keys == old(pool).keys && final(pool).to_release == old(pool).to_release,
            !self.holds_slot() ==> *final(pool) == *old(pool),
    {
        let mut this = self;
        if let Some(mut slot) = this.pool.take() {
            slot.close(this, pool)
        }
    }

    /// Hands the connection to `pool` to be kept for reuse. A connection
    /// without a slot is dropped.
    pub fn release(self, pool: &mut Pool<T>)
        ensures
            self.holds_slot() ==> final(pool).modified && final(pool).to_release@ == old(pool).to_release@.push(detached(self)) && final(pool).keys
                == old(pool).keys && final(pool).to_close == old(pool).to_close,
            !self.holds_slot() ==> *final(pool) == *old(pool),
    {
        let mut this = self;
        if let Some(mut slot) = this.pool.take() {
            slot.release(this, pool)
        }
    }

    /// Frees the slot of the connection and gives up its stream: what a
    /// lease that is neither released nor closed comes to.
    pub fn discard(self, pool: &mut Pool<T>) -> (stream: T)
        ensures
            stream == self.stream,
            self.holds_slot() ==> final(pool).modified && final(pool).keys@ == old(pool).keys@.push((self.pool->0).0) && final(pool).to_close == old(pool).to_close && final(pool).to_release == old(pool).to_release,
            !self.holds_slot() ==> *final(pool) == *old(pool),
    {
        let mut this = self;
        if let Some(mut slot) = this.pool.take() {
            slot.discard(pool)
        }
        this.stream
    }
}


/// A request that waits for a slot: a handle by which its sender is found,
/// the instant at which it gives up, and the connect timeout it asked for.
#[derive(Clone, Copy, Debug, PartialEq, Eq, Structural)]
pub struct Waiter {
    pub id: u64,
    pub wait: Millis,
    pub conn_timeout: Millis,
}

/// An idle connection and the instant at which it was given back.
#[derive(Debug)]
pub struct Conn<T>(pub Millis, pub Connection<T>);

/// What admission comes to.
#[derive(Debug)]
pub enum Acquire<T> {
    /// A slot is reserved and an idle connection goes with it.
    Acquired(Connection<T>),
    /// A slot is reserved; the caller has to dial.
    Available,
    /// The limits leave no slot.
    NotAvailable,
}

/// What a liveness probe, a read that does not block, found on an idle
/// connection.
#[derive(Clone, Copy, Debug, PartialEq, Eq, Structural)]
pub enum Probe {
    /// The read would block: the connection is usable.
    Idle,
    /// Bytes arrived on a connection nobody uses.
    Data,
    /// End of stream, or an error.
    Closed,
}

/// What a read that does not block came to.
#[derive(Clone, Copy, Debug, PartialEq, Eq, Structural)]
pub enum ReadOutcome {
    /// It would block.
    WouldBlock,
    /// It yielded this many bytes; none at the end of the stream.
    Read(usize),
    /// It failed.
    Failed,
}

impl Probe {
    /// What a read of an idle connection that does not block says of the
    /// connection: it is usable where the read would block; bytes that
    /// nobody asked for are pending where it yields some; and else the
    /// connection is closed.
    pub fn from_read(read: ReadOutcome) -> (r: Probe)
        ensures
            r == match read {
                ReadOutcome::WouldBlock => Probe::Idle,
                ReadOutcome::Read(n) => if n > 0 {
                    Probe::Data
                } else {
                    Probe::Closed
                },
                ReadOutcome::Failed => Probe::Closed,
            },
    {
        match read {
            ReadOutcome::WouldBlock => Probe::Idle,
            ReadOutcome::Read(n) => if n > 0 {
                Probe::Data
            } else {
                Probe::Closed
            },
            ReadOutcome::Failed => Probe::Closed,
        }
    }
}

/// The time from `then` to `now`; zero where `then` is the later.
pub open spec fn elapsed(now: Millis, then: Millis) -> nat {
    if now >= then {
        (now - then) as nat
    } else {
        0
    }
}

/// Whether an idle connection has outlived the keep-alive period since its
/// release, or the lifetime since it was made.
pub open spec fn stale<T>(c: Conn<T>, now: Millis, keep_alive: Millis, lifetime: Millis) -> bool {
    elapsed(now, c.0) > keep_alive || elapsed(now, c.1.ts) > lifetime
}

/// The entries of an idle bucket are filed under `k`.
pub open spec fn bucket_ok<T>(k: KeyView, q: Seq<Conn<T>>) -> bool {
    forall|j: int| 0 <= j < q.len() ==> (#[trigger] q[j]).1.key@ == k
}

/// The earliest deadline in a queue of waiters.
pub open spec fn earliest_in(q: Seq<Waiter>) -> Option<Millis>
    decreases q.len(),
{
    if q.len() == 0 {
        None
    } else {
        sooner(earliest_in(q.drop_last()), Some(q.last().wait))
    }
}

/// The earlier of two optional instants.
pub open spec fn sooner(a: Option<Millis>, b: Option<Millis>) -> Option<Millis> {
    match (a, b) {
        (None, _) => b,
        (_, None) => a,
        (Some(x), Some(y)) => if x <= y {
            a
        } else {
            b
        },
    }
}

/// The earliest deadline among all queues of a table.
pub open spec fn earliest(t: Seq<(Key, VecDeque<Waiter>)>) -> Option<Millis>
    decreases t.len(),
{
    if t.len() == 0 {
        None
    } else {
        sooner(earliest(t.drop_last()), earliest_in(t.last().1@))
    }
}

/// The connector: limits, the count of leases in all and per endpoint, the
/// idle connections per endpoint, the connections to shut down, and the
/// waiters per endpoint with the instant at which the first of them gives up.
pub struct ClientConnector<T, C> {
    pub connector: Option<C>,
    pub pool: Pool<T>,
    pub conn_lifetime: Millis,
    pub conn_keep_alive: Millis,
    pub limit: usize,
    pub limit_per_host: usize,
    pub acquired: usize,
    pub acquired_per_host: Vec<(Key, usize)>,
    pub available: Vec<(Key, VecDeque<Conn<T>>)>,
    pub to_close: Vec<Connection<T>>,
    pub waiters: Vec<(Key, VecDeque<Waiter>)>,
    pub wait_timeout: Option<Millis>,
    pub next_waiter: u64,
    pub issued: Ghost<Multiset<KeyView>>,
}

impl<T, C> ClientConnector<T, C> {
    /// The leases that are out, by key: one for each slot that was
    /// reserved and not yet freed.
    pub open spec fn outstanding(&self) -> Multiset<KeyView> {
        self.issued@
    }

    /// The number of leases that are out for `k`.
    pub open spec fn per_host(&self, k: KeyView) -> nat {
        count_for(self.acquired_per_host@, k)
    }

    /// The idle connections filed under `k`, oldest release first.
    pub open spec fn idle(&self, k: KeyView) -> Seq<Conn<T>> {
        if has_key(self.available@, k) {
            self.available@[slot_of(self.available@, k)].1@
        } else {
            Seq::empty()
        }
    }

    /// The waiters for `k`, in the order in which they came.
    pub open spec fn queue(&self, k: KeyView) -> Seq<Waiter> {
        if has_key(self.waiters@, k) {
            self.waiters@[slot_of(self.waiters@, k)].1@
        } else {
            Seq::empty()
        }
    }

    /// The invariant of the connector.
    pub open spec fn wf(&self) -> bool {
        &&& distinct_keys(self.acquired_per_host@)
        &&& forall|i: int|
            0 <= i < self.acquired_per_host@.len() ==> (#[trigger] self.acquired_per_host@[i]).1
                >= 1
        &&& self.acquired == total(self.acquired_per_host@)
        &&& self.acquired == self.issued@.len()
        &&& forall|k: KeyView| self.per_host(k) == #[trigger] self.issued@.count(k)
        &&& distinct_keys(self.available@)
        &&& forall|i: int|
            0 <= i < self.available@.len() ==> bucket_ok(
                (#[trigger] self.available@[i]).0@,
                self.available@[i].1@,
            )
        &&& distinct_keys(self.waiters@)
        &&& self.wait_timeout == earliest(self.waiters@)
    }

    /// Whether the limits leave no slot for `k`: the total limit is set and
    /// reached, or the limit per endpoint is set and reached for `k`, or
    /// the count of leases can grow no further.
    pub open spec fn blocked(&self, k: KeyView) -> bool {
        ||| self.limit > 0 && self.acquired >= self.limit
        ||| self.limit_per_host > 0 && self.per_host(k) >= self.limit_per_host
        ||| self.acquired == usize::MAX
    }

    /// A connector without leases, idle connections or waiters.
    pub open spec fn fresh(&self) -> bool {
        &&& self.acquired == 0
        &&& self.acquired_per_host@.len() == 0
        &&& self.available@.len() == 0
        &&& self.to_close@.len() == 0
        &&& self.waiters@.len() == 0
        &&& self.wait_timeout is None
        &&& self.issued@ == Multiset::<KeyView>::empty()
        &&& self.pool.keys@.len() == 0
        &&& self.pool.to_close@.len() == 0
        &&& self.pool.to_release@.len() == 0
        &&& !self.pool.modified
    }

    /// A connector with the default limits that dials through `connector`
    /// for secure endpoints: at most 100 leases in all, no limit per
    /// endpoint, keep-alive 75 s, lifetime 15 s.
    pub fn with_connector(connector: C) -> (r: ClientConnector<T, C>)
        ensures
            r.wf(),
            r.fresh(),
            r.connector == Some(connector),
            r.limit == 100,
            r.limit_per_host == 0,
            r.conn_keep_alive == 75_000,
            r.conn_lifetime == 15_000,
    {
        ClientConnector {
            connector: Some(connector),
            pool: Pool::new(),
            conn_lifetime: 15_000,
            conn_keep_alive: 75_000,
            limit: 100,
            limit_per_host: 0,
            acquired: 0,
            acquired_per_host: Vec::new(),
            available: Vec::new(),
            to_close: Vec::new(),
            waiters: Vec::new(),
            wait_timeout: None,
            next_waiter: 0,
            issued: Ghost(Multiset::empty()),
        }
    }

    /// Sets the limit on leases in all; 0 for none.
    pub fn limit(self, limit: usize) -> (r: ClientConnector<T, C>)
        ensures
            r == (ClientConnector { limit, ..self }),
    {
        let mut this = self;
        this.limit = limit;
        this
    }

    /// Sets the limit on leases per endpoint; 0 for none.
    pub fn limit_per_host(self, limit: usize) -> (r: ClientConnector<T, C>)
        ensures
            r == (ClientConnector { limit_per_host: limit, ..self }),
    {
        let mut this = self;
        this.limit_per_host = limit;
        this
    }

    /// Sets the period after which an idle connection is closed.
    pub fn conn_keep_alive(self, dur: Millis) -> (r: ClientConnector<T, C>)
        ensures
            r == (ClientConnector { conn_keep_alive: dur, ..self }),
    {
        let mut this = self;
        this.conn_keep_alive = dur;
        this
    }

    /// Sets the age at which a connection is closed whatever its use.
    pub fn conn_lifetime(self, dur: Millis) -> (r: ClientConnector<T, C>)
        ensures
            r == (ClientConnector { conn_lifetime: dur, ..self }),
    {
        let mut this = self;
        this.conn_lifetime = dur;
        this
    }
}

impl<T, C> Default for ClientConnector<T, C> {
    /// A connector with the default limits and no TLS backend.
    fn default() -> (r: ClientConnector<T, C>)
        ensures
            r.wf(),
            r.fresh(),
            r.connector is None,
            r.limit == 100,
            r.limit_per_host == 0,
            r.conn_keep_alive == 75_000,
            r.conn_lifetime == 15_000,
    {
        ClientConnector {
            connector: None,
            pool: Pool::new(),
            conn_lifetime: 15_000,
            conn_keep_alive: 75_000,
            limit: 100,
            limit_per_host: 0,
            acquired: 0,
            acquired_per_host: Vec::new(),
            available: Vec::new(),
            to_close: Vec::new(),
            waiters: Vec::new(),
            wait_timeout: None,
            next_waiter: 0,
            issued: Ghost(Multiset::empty()),
        }
    }
}


impl<T, C> ClientConnector<T, C> {
    /// Whether the limits leave no slot for `key`.
    pub fn limits_reached(&self, key: &Key) -> (r: bool)
        requires
            self.wf(),
        ensures
            r == self.blocked(key@),
    {
        if self.acquired == usize::MAX {
            return true;
        }
        if self.limit > 0 && self.acquired >= self.limit {
            return true;
        }
        if self.limit_per_host > 0 {
            match find_key(&self.acquired_per_host, key) {
                Some(i) => {
                    proof {
                        lemma_count_at(self.acquired_per_host@, i as int);
                    }
                    self.acquired_per_host[i].1 >= self.limit_per_host
                },
                None => false,
            }
        } else {
            false
        }
    }

    /// Reserves one slot for `key`.
    pub fn reserve(&mut self, key: &Key)
        requires
            old(self).wf(),
            old(self).acquired < usize::MAX,
        ensures
            final(self).wf(),
            final(self).acquired == old(self).acquired + 1,
            final(self).outstanding() == old(self).outstanding().insert(key@),
            *final(self) == (ClientConnector {
                acquired: final(self).acquired,
                acquired_per_host: final(self).acquired_per_host,
                issued: final(self).issued,
                ..*old(self)
            }),
    {
        broadcast use vstd::multiset::group_multiset_axioms;

        let ghost t = self.acquired_per_host@;
        let ghost before = self.issued@;
        self.acquired += 1;
        match find_key(&self.acquired_per_host, key) {
            Some(i) => {
                proof {
                    lemma_total_bounds(t, i as int);
                    lemma_count_at(t, i as int);
                }
                let n = self.acquired_per_host[i].1 + 1;
                self.acquired_per_host[i].1 = n;
                proof {
                    let e = self.acquired_per_host@[i as int];
                    assert(self.acquired_per_host@ =~= t.update(i as int, e));
                    lemma_total_update(t, i as int, e);
                    lemma_count_update(t, i as int, e);
                }
            },
            None => {
                let entry = (key.clone(), 1usize);
                self.acquired_per_host.push(entry);
                proof {
                    lemma_total_push(t, entry);
                    lemma_count_push(t, entry);
                }
            },
        }
        proof {
            self.issued@ = before.insert(key@);
            assert forall|k: KeyView| self.per_host(k) == #[trigger] self.issued@.count(k) by {
                assert(old(self).per_host(k) == before.count(k));
            }
        }
    }

    /// Frees one slot of `key`; does nothing where none is reserved for it.
    pub fn release_key(&mut self, key: &Key)
        requires
            old(self).wf(),
        ensures
            final(self).wf(),
            final(self).outstanding() == old(self).outstanding().remove(key@),
            old(self).per_host(key@) > 0 ==> final(self).acquired == old(self).acquired - 1,
            old(self).per_host(key@) == 0 ==> final(self).acquired == old(self).acquired,
            *final(self) == (ClientConnector {
                acquired: final(self).acquired,
                acquired_per_host: final(self).acquired_per_host,
                issued: final(self).issued,
                ..*old(self)
            }),
    {
        broadcast use vstd::multiset::group_multiset_axioms;

        let ghost t = self.acquired_per_host@;
        let ghost before = self.issued@;
        match find_key(&self.acquired_per_host, key) {
            Some(i) => {
                proof {
                    lemma_total_bounds(t, i as int);
                    lemma_count_at(t, i as int);
                }
                let per_host = self.acquired_per_host[i].1;
                self.acquired -= 1;
                if per_host > 1 {
                    self.acquired_per_host[i].1 = per_host - 1;
                    proof {
                        let e = self.acquired_per_host@[i as int];
                        assert(self.acquired_per_host@ =~= t.update(i as int, e));
                        lemma_total_update(t, i as int, e);
                        lemma_count_update(t, i as int, e);
                    }
                } else {
                    self.acquired_per_host.remove(i);
                    proof {
                        lemma_total_remove(t, i as int);
                        lemma_count_remove(t, i as int);
                        let u = t.remove(i as int);
                        assert forall|a: int| 0 <= a < u.len() implies (#[trigger] u[a]).1
                            >= 1 by {
                            assert(u[a] == t[if a < i { a } else { a + 1 }]);
                        }
                    }
                }
                proof {
                    assert(before.count(key@) >= 1);
                    assert(Multiset::singleton(key@).subset_of(before));
                    self.issued@ = before.remove(key@);
                    assert forall|k: KeyView| self.per_host(k) == #[trigger] self.issued@.count(
                        k,
                    ) by {
                        assert(old(self).per_host(k) == before.count(k));
                    }
                }
            },
            None => {
                proof {
                    assert(before.count(key@) == 0);
                    assert(before.remove(key@) =~= before);
                }
            },
        }
    }
}


/// The connections of `q`, last entry first.
pub open spec fn newest_first<T>(q: Seq<Conn<T>>) -> Seq<Connection<T>> {
    Seq::new(q.len(), |i: int| q[q.len() - 1 - i].1)
}

/// Whether an idle connection is stale at `now`.
pub fn is_stale<T>(c: &Conn<T>, now: Millis, keep_alive: Millis, lifetime: Millis) -> (r: bool)
    ensures
        r == stale(*c, now, keep_alive, lifetime),
{
    let since_release = if now >= c.0 {
        now - c.0
    } else {
        0
    };
    let age = if now >= c.1.ts {
        now - c.1.ts
    } else {
        0
    };
    since_release > keep_alive || age > lifetime
}

impl<T, C> ClientConnector<T, C> {
    /// Takes the newest idle connection of `key` that is not stale. The
    /// stale ones that lie above it go to the close list, newest first.
    /// `None` where every idle connection of `key` was stale.
    pub fn take_idle(&mut self, key: &Key, now: Millis) -> (r: Option<Connection<T>>)
        requires
            old(self).wf(),
        ensures
            final(self).wf(),
            *final(self) == (ClientConnector {
                available: final(self).available,
                to_close: final(self).to_close,
                ..*old(self)
            }),
            forall|k: KeyView| k != key@ ==> final(self).idle(k) == old(self).idle(k),
            final(self).idle(key@).len() <= old(self).idle(key@).len(),
            final(self).idle(key@) == old(self).idle(key@).take(
                final(self).idle(key@).len() as int,
            ),
            forall|j: int|
                final(self).idle(key@).len() + (if r is Some {
                    1int
                } else {
                    0int
                }) <= j < old(self).idle(key@).len() ==> stale(
                    #[trigger] old(self).idle(key@)[j],
                    now,
                    old(self).conn_keep_alive,
                    old(self).conn_lifetime,
                ),
            r matches Some(c) ==> {
                let q = old(self).idle(key@);
                let n = final(self).idle(key@).len() as int;
                &&& n < q.len()
                &&& c == q[n].1
                &&& !stale(q[n], now, old(self).conn_keep_alive, old(self).conn_lifetime)
                &&& final(self).to_close@ == old(self).to_close@ + newest_first(
                    q.skip(n + 1),
                )
            },
            r is None ==> final(self).idle(key@).len() == 0 && final(self).to_close@ == old(self).to_close@ + newest_first(old(self).idle(key@)),
    {
        let ghost q = self.idle(key@);
        let ghost table = self.available@;
        let keep_alive = self.conn_keep_alive;
        let lifetime = self.conn_lifetime;
        match find_key(&self.available, key) {
            None => {
                assert(self.to_close@ + newest_first(q) =~= self.to_close@);
                assert(q.take(0) =~= q);
                None
            },
            Some(i) => {
                proof {
                    lemma_slot_unique(table, i as int);
                    assert(q.skip(q.len() as int) =~= Seq::<Conn<T>>::empty());
                    assert(self.to_close@ + newest_first(q.skip(q.len() as int))
                        =~= self.to_close@);
                    assert(q.take(q.len() as int) =~= q);
                }
                loop
                    invariant
                        old(self).wf(),
                        table == old(self).available@,
                        q == old(self).idle(key@),
                        i < table.len(),
                        table[i as int].0@ == key@,
                        q == table[i as int].1@,
                        keep_alive == self.conn_keep_alive,
                        lifetime == self.conn_lifetime,
                        *self == (ClientConnector {
                            available: self.available,
                            to_close: self.to_close,
                            ..*old(self)
                        }),
                        self.available@.len() == table.len(),
                        forall|j: int|
                            0 <= j < table.len() ==> (#[trigger] self.available@[j]).0
                                == table[j].0,
                        forall|j: int|
                            0 <= j < table.len() && j != i ==> (#[trigger] self.available@[j])
                                == table[j],
                        self.available@[i as int].1@.len() <= q.len(),
                        self.available@[i as int].1@ == q.take(
                            self.available@[i as int].1@.len() as int,
                        ),
                        self.to_close@ == old(self).to_close@ + newest_first(
                            q.skip(self.available@[i as int].1@.len() as int),
                        ),
                        forall|j: int|
                            self.available@[i as int].1@.len() <= j < q.len() ==> stale(
                                #[trigger] q[j],
                                now,
                                keep_alive,
                                lifetime,
                            ),
                    decreases self.available@[i as int].1@.len(),
                {
                    let ghost m = self.available@[i as int].1@.len() as int;
                    let ghost closing = self.to_close@;
                    match self.available[i].1.pop_back() {
                        None => {
                            proof {
                                lemma_same_keys(table, self.available@);
                                lemma_slot_unique(self.available@, i as int);
                                assert(q.skip(0) =~= q);
                                assert forall|k: KeyView| k != key@ implies self.idle(k) == old(self).idle(k) by {
                                    if has_key(table, k) {
                                        assert(slot_of(table, k) != i);
                                    }
                                }
                                assert forall|j: int|
                                    0 <= j < self.available@.len() implies bucket_ok(
                                    (#[trigger] self.available@[j]).0@,
                                    self.available@[j].1@,
                                ) by {
                                    assert(bucket_ok(table[j].0@, table[j].1@));
                                }
                            }
                            return None;
                        },
                        Some(conn) => {
                            assert(conn == q[m - 1]);
                            assert(self.available@[i as int].1@ =~= q.take(m - 1));
                            if is_stale(&conn, now, keep_alive, lifetime) {
                                self.to_close.push(conn.1);
                                assert(self.to_close@ =~= old(self).to_close@ + newest_first(
                                    q.skip(m - 1),
                                )) by {
                                    let a = closing.push(conn.1);
                                    let b = old(self).to_close@ + newest_first(q.skip(m - 1));
                                    assert(a.len() == b.len());
                                    assert forall|x: int| 0 <= x < a.len() implies a[x]
                                        == b[x] by {
                                        let base = old(self).to_close@.len();
                                        if x >= base {
                                            if x < a.len() - 1 {
                                                assert(a[x] == closing[x]);
                                                assert(closing[x] == newest_first(q.skip(m))[x
                                                    - base]);
                                            }
                                        } else {
                                            assert(a[x] == closing[x]);
                                        }
                                    }
                                }
                            } else {
                                proof {
                                    lemma_same_keys(table, self.available@);
                                    lemma_slot_unique(self.available@, i as int);
                                    assert forall|k: KeyView| k != key@ implies self.idle(k)
                                        == old(self).idle(k) by {
                                        if has_key(table, k) {
                                            assert(slot_of(table, k) != i);
                                        }
                                    }
                                    assert forall|j: int|
                                        0 <= j < self.available@.len() implies bucket_ok(
                                        (#[trigger] self.available@[j]).0@,
                                        self.available@[j].1@,
                                    ) by {
                                        assert(bucket_ok(table[j].0@, table[j].1@));
                                    }
                                }
                                return Some(conn.1);
                            }
                        },
                    }
                }
            },
        }
    }

    /// Decides on an idle connection by what the liveness probe found:
    /// one that is idle is handed out; one with bytes pending goes to the
    /// close list; one that is closed is dropped.
    pub fn settle(&mut self, conn: Connection<T>, outcome: Probe) -> (r: Option<Connection<T>>)
        requires
            old(self).wf(),
        ensures
            final(self).wf(),
            outcome == Probe::Idle ==> r == Some(conn) && *final(self) == *old(self),
            outcome == Probe::Data ==> r is None && *final(self) == (ClientConnector {
                to_close: final(self).to_close,
                ..*old(self)
            }) && final(self).to_close@ == old(self).to_close@.push(conn),
            outcome == Probe::Closed ==> r is None && *final(self) == *old(self),
    {
        match outcome {
            Probe::Idle => Some(conn),
            Probe::Data => {
                self.to_close.push(conn);
                None
            },
            Probe::Closed => None,
        }
    }
}


/// What became of an idle connection that admission took and did not hand
/// out although it was not stale: the probe found it not idle, and where it
/// found bytes pending the connection is on the close list `closing`.
pub open spec fn probed_away<T, F: Fn(&T) -> Probe>(
    conn: Connection<T>,
    probe: &F,
    closing: Seq<Connection<T>>,
) -> bool {
    exists|outcome: Probe|
        outcome != Probe::Idle && #[trigger] probe.ensures((&conn.stream,), outcome) && (outcome
            == Probe::Data ==> closing.contains(conn))
}

/// What is on the close list stays there when the list grows.
pub proof fn lemma_probed_away_grows<T, F: Fn(&T) -> Probe>(
    conn: Connection<T>,
    probe: &F,
    closing: Seq<Connection<T>>,
    grown: Seq<Connection<T>>,
)
    requires
        probed_away(conn, probe, closing),
        closing.len() <= grown.len(),
        grown.take(closing.len() as int) == closing,
    ensures
        probed_away(conn, probe, grown),
{
    let outcome = choose|outcome: Probe|
        outcome != Probe::Idle && #[trigger] probe.ensures((&conn.stream,), outcome) && (outcome
            == Probe::Data ==> closing.contains(conn));
    if outcome == Probe::Data {
        let w = choose|w: int| 0 <= w < closing.len() && closing[w] == conn;
        assert(grown.take(closing.len() as int)[w] == grown[w]);
        assert(grown[w] == conn);
    }
    assert(probe.ensures((&conn.stream,), outcome));
}

impl<T, C> ClientConnector<T, C> {
    /// Admission for `key`. Where the limits leave no slot, nothing
    /// changes. Otherwise one slot is reserved, and the idle connections of
    /// `key` are tried newest first: a stale one goes to the close list, one
    /// that `probe` finds idle is handed out, one with bytes pending goes to
    /// the close list, one that is closed is dropped. Where none is left,
    /// the caller has to dial.
    ///
    /// The limit per endpoint blocks a key whose count of leases has
    /// reached it.
    pub fn acquire<F: Fn(&T) -> Probe>(&mut self, key: &Key, now: Millis, probe: &F) -> (r:
        Acquire<T>)
        requires
            old(self).wf(),
            forall|t: &T| probe.requires((t,)),
        ensures
            final(self).wf(),
            r is NotAvailable <==> old(self).blocked(key@),
            r is NotAvailable ==> *final(self) == *old(self),
            !(r is NotAvailable) ==> {
                &&& final(self).acquired == old(self).acquired + 1
                &&& final(self).outstanding() == old(self).outstanding().insert(key@)
                &&& *final(self) == (ClientConnector {
                    acquired: final(self).acquired,
                    acquired_per_host: final(self).acquired_per_host,
                    issued: final(self).issued,
                    available: final(self).available,
                    to_close: final(self).to_close,
                    ..*old(self)
                })
                &&& forall|k: KeyView| k != key@ ==> final(self).idle(k) == old(self).idle(k)
                &&& final(self).idle(key@).len() <= old(self).idle(key@).len()
                &&& final(self).idle(key@) == old(self).idle(key@).take(
                    final(self).idle(key@).len() as int,
                )
                &&& old(self).to_close@.len() <= final(self).to_close@.len()
                &&& final(self).to_close@.take(old(self).to_close@.len() as int) == old(self).to_close@
                &&& forall|j: int|
                    final(self).idle(key@).len() <= j < old(self).idle(key@).len() && stale(
                        #[trigger] old(self).idle(key@)[j],
                        now,
                        old(self).conn_keep_alive,
                        old(self).conn_lifetime,
                    ) ==> final(self).to_close@.contains(old(self).idle(key@)[j].1)
                &&& forall|j: int|
                    final(self).idle(key@).len() + (if r is Acquired {
                        1int
                    } else {
                        0int
                    }) <= j < old(self).idle(key@).len() && !stale(
                        #[trigger] old(self).idle(key@)[j],
                        now,
                        old(self).conn_keep_alive,
                        old(self).conn_lifetime,
                    ) ==> probed_away(old(self).idle(key@)[j].1, probe, final(self).to_close@)
            },
            r matches Acquire::Acquired(c) ==> {
                let q = old(self).idle(key@);
                let n = final(self).idle(key@).len() as int;
                &&& n < q.len()
                &&& c == q[n].1
                &&& !stale(q[n], now, old(self).conn_keep_alive, old(self).conn_lifetime)
                &&& probe.ensures((&c.stream,), Probe::Idle)
            },
            r is Available ==> final(self).idle(key@).len() == 0,
    {
        if self.limits_reached(key) {
            return Acquire::NotAvailable;
        }
        self.reserve(key);
        let ghost q = self.idle(key@);
        let ghost base = self.to_close@;
        assert(q.take(q.len() as int) =~= q);
        assert(base.take(base.len() as int) =~= base);
        loop
            invariant
                old(self).wf(),
                !old(self).blocked(key@),
                self.wf(),
                forall|t: &T| probe.requires((t,)),
                q == old(self).idle(key@),
                base == old(self).to_close@,
                self.acquired == old(self).acquired + 1,
                self.outstanding() == old(self).outstanding().insert(key@),
                *self == (ClientConnector {
                    acquired: self.acquired,
                    acquired_per_host: self.acquired_per_host,
                    issued: self.issued,
                    available: self.available,
                    to_close: self.to_close,
                    ..*old(self)
                }),
                forall|k: KeyView| k != key@ ==> self.idle(k) == old(self).idle(k),
                self.idle(key@).len() <= q.len(),
                self.idle(key@) == q.take(self.idle(key@).len() as int),
                base.len() <= self.to_close@.len(),
                self.to_close@.take(base.len() as int) == base,
                forall|j: int|
                    self.idle(key@).len() <= j < q.len() && stale(
                        #[trigger] q[j],
                        now,
                        old(self).conn_keep_alive,
                        old(self).conn_lifetime,
                    ) ==> self.to_close@.contains(q[j].1),
                forall|j: int|
                    self.idle(key@).len() <= j < q.len() && !stale(
                        #[trigger] q[j],
                        now,
                        old(self).conn_keep_alive,
                        old(self).conn_lifetime,
                    ) ==> probed_away(q[j].1, probe, self.to_close@),
            decreases self.idle(key@).len(),
        {
            let ghost before = *self;
            let ghost m = self.idle(key@).len() as int;
            let taken = self.take_idle(key, now);
            proof {
                let n = self.idle(key@).len() as int;
                let qq = before.idle(key@);
                assert(self.idle(key@) =~= q.take(n));
                let added = if taken is Some {
                    newest_first(qq.skip(n + 1))
                } else {
                    newest_first(qq)
                };
                assert(self.to_close@ == before.to_close@ + added);
                assert(self.to_close@.take(base.len() as int) =~= base);
                assert forall|j: int|
                    n + (if taken is Some {
                        1int
                    } else {
                        0int
                    }) <= j < q.len() && stale(
                        #[trigger] q[j],
                        now,
                        old(self).conn_keep_alive,
                        old(self).conn_lifetime,
                    ) implies self.to_close@.contains(q[j].1) by {
                    if j >= m {
                        let w = choose|w: int|
                            0 <= w < before.to_close@.len() && before.to_close@[w] == q[j].1;
                        assert(self.to_close@[w] == q[j].1);
                    } else {
                        assert(qq[j] == q[j]);
                        let off = if taken is Some {
                            n + 1
                        } else {
                            0
                        };
                        let x = m - 1 - j;
                        assert(added[x] == qq.skip(off)[(m - off) - 1 - x].1);
                        assert(self.to_close@[before.to_close@.len() + x] == q[j].1);
                    }
                }
            }
            proof {
                assert forall|j: int|
                    self.idle(key@).len() + (if taken is Some {
                        1int
                    } else {
                        0int
                    }) <= j < m implies stale(
                    #[trigger] q[j],
                    now,
                    old(self).conn_keep_alive,
                    old(self).conn_lifetime,
                ) by {
                    assert(before.idle(key@)[j] == q[j]);
                }
                assert(self.to_close@.take(before.to_close@.len() as int)
                    =~= before.to_close@);
                assert forall|j: int|
                    m <= j < q.len() && !stale(
                        #[trigger] q[j],
                        now,
                        old(self).conn_keep_alive,
                        old(self).conn_lifetime,
                    ) implies probed_away(q[j].1, probe, self.to_close@) by {
                    lemma_probed_away_grows(q[j].1, probe, before.to_close@, self.to_close@);
                }
            }
            match taken {
                None => {
                    return Acquire::Available;
                },
                Some(conn) => {
                    let ghost closing = self.to_close@;
                    let ghost at = self.idle(key@).len() as int;
                    let outcome = probe(&conn.stream);
                    match self.settle(conn, outcome) {
                        Some(conn) => {
                            return Acquire::Acquired(conn);
                        },
                        None => {
                            proof {
                                assert(self.to_close@.take(closing.len() as int) =~= closing);
                                assert forall|j: int|
                                    at <= j < q.len() && !stale(
                                        #[trigger] q[j],
                                        now,
                                        old(self).conn_keep_alive,
                                        old(self).conn_lifetime,
                                    ) implies probed_away(q[j].1, probe, self.to_close@) by {
                                    if j == at {
                                        assert(q[j].1 == conn);
                                        assert(probe.ensures((&conn.stream,), outcome));
                                        if outcome == Probe::Data {
                                            assert(self.to_close@[closing.len() as int] == conn);
                                        }
                                    } else if j >= m {
                                        lemma_probed_away_grows(
                                            q[j].1,
                                            probe,
                                            closing,
                                            self.to_close@,
                                        );
                                    }
                                }
                                assert(self.to_close@.take(base.len() as int) =~= base);
                                assert forall|j: int|
                                    self.idle(key@).len() <= j < q.len() && stale(
                                        #[trigger] q[j],
                                        now,
                                        old(self).conn_keep_alive,
                                        old(self).conn_lifetime,
                                    ) implies self.to_close@.contains(q[j].1) by {
                                    let w = choose|w: int|
                                        0 <= w < closing.len() && closing[w] == q[j].1;
                                    assert(self.to_close@[w] == q[j].1);
                                }
                            }
                        },
                    }
                },
            }
        }
    }
}


/// The leases `m` without one lease for each key of `keys`, as far as `m`
/// holds one.
pub open spec fn without(m: Multiset<KeyView>, keys: Seq<KeyView>) -> Multiset<KeyView>
    decreases keys.len(),
{
    if keys.len() == 0 {
        m
    } else {
        without(m, keys.drop_last()).remove(keys.last())
    }
}

/// Giving back two runs of keys one after the other is giving back both.
pub proof fn lemma_without_concat(m: Multiset<KeyView>, a: Seq<KeyView>, b: Seq<KeyView>)
    ensures
        without(m, a + b) == without(without(m, a), b),
    decreases b.len(),
{
    if b.len() == 0 {
        assert(a + b =~= a);
    } else {
        assert((a + b).drop_last() =~= a + b.drop_last());
        assert((a + b).last() == b.last());
        lemma_without_concat(m, a, b.drop_last());
    }
}

/// The keys of a run of connections.
pub open spec fn keys_of<T>(v: Seq<Connection<T>>) -> Seq<KeyView> {
    Seq::new(v.len(), |i: int| v[i].key@)
}

/// The views of a run of keys.
pub open spec fn key_views(v: Seq<Key>) -> Seq<KeyView> {
    Seq::new(v.len(), |i: int| v[i]@)
}

/// The keys of all the leases that a mailbox gives back: the freed slots,
/// then the connections to close, then the connections to keep.
pub open spec fn returned_keys<T>(pool: Pool<T>) -> Seq<KeyView> {
    key_views(pool.keys@) + keys_of(pool.to_close@) + keys_of(pool.to_release@)
}

impl<T, C> ClientConnector<T, C> {
    /// Frees one slot for each key of `keys`.
    pub fn release_keys(&mut self, keys: &Vec<Key>)
        requires
            old(self).wf(),
        ensures
            final(self).wf(),
            final(self).outstanding() == without(old(self).outstanding(), key_views(keys@)),
            *final(self) == (ClientConnector {
                acquired: final(self).acquired,
                acquired_per_host: final(self).acquired_per_host,
                issued: final(self).issued,
                ..*old(self)
            }),
    {
        let mut i: usize = 0;
        while i < keys.len()
            invariant
                i <= keys.len(),
                self.wf(),
                self.outstanding() == without(
                    old(self).outstanding(),
                    key_views(keys@).take(i as int),
                ),
                *self == (ClientConnector {
                    acquired: self.acquired,
                    acquired_per_host: self.acquired_per_host,
                    issued: self.issued,
                    ..*old(self)
                }),
            decreases keys.len() - i,
        {
            self.release_key(&keys[i]);
            proof {
                let ks = key_views(keys@);
                assert(ks.take(i + 1).drop_last() =~= ks.take(i as int));
                assert(ks.take(i + 1).last() == keys@[i as int]@);
            }
            i += 1;
        }
        assert(key_views(keys@).take(keys@.len() as int) =~= key_views(keys@));
    }

    /// Frees the slot of each connection of `conns` and puts the
    /// connections on the close list.
    pub fn close_all(&mut self, conns: Vec<Connection<T>>)
        requires
            old(self).wf(),
        ensures
            final(self).wf(),
            final(self).outstanding() == without(old(self).outstanding(), keys_of(conns@)),
            final(self).to_close@ == old(self).to_close@ + conns@,
            *final(self) == (ClientConnector {
                acquired: final(self).acquired,
                acquired_per_host: final(self).acquired_per_host,
                issued: final(self).issued,
                to_close: final(self).to_close,
                ..*old(self)
            }),
    {
        let ghost all = conns@;
        assert(old(self).to_close@ + all.take(0) =~= old(self).to_close@);
        for conn in it: conns
            invariant
                all == it.seq(),
                self.wf(),
                self.outstanding() == without(
                    old(self).outstanding(),
                    keys_of(all).take(it.index() as int),
                ),
                self.to_close@ == old(self).to_close@ + all.take(it.index() as int),
                *self == (ClientConnector {
                    acquired: self.acquired,
                    acquired_per_host: self.acquired_per_host,
                    issued: self.issued,
                    to_close: self.to_close,
                    ..*old(self)
                }),
        {
            let ghost i = it.index() as int;
            self.release_key(&conn.key);
            self.to_close.push(conn);
            proof {
                let ks = keys_of(all);
                assert(ks.take(i + 1).drop_last() =~= ks.take(i));
                assert(ks.take(i + 1).last() == conn.key@);
                assert(self.to_close@ =~= old(self).to_close@ + all.take(i + 1));
            }
        }
        assert(keys_of(all).take(all.len() as int) =~= keys_of(all));
        assert(all.take(all.len() as int) =~= all);
    }
}


/// The connections of `v` that are filed under `k` when they come back at
/// `now`: those of that key that are younger than `lifetime`, in the order
/// in which they came, each with `now` as the instant of its release.
pub open spec fn returned_for<T>(
    k: KeyView,
    v: Seq<Connection<T>>,
    now: Millis,
    lifetime: Millis,
) -> Seq<Conn<T>>
    decreases v.len(),
{
    if v.len() == 0 {
        Seq::empty()
    } else {
        let rest = returned_for(k, v.drop_last(), now, lifetime);
        if v.last().key@ == k && elapsed(now, v.last().ts) < lifetime {
            rest.push(Conn(now, v.last()))
        } else {
            rest
        }
    }
}

impl<T, C> ClientConnector<T, C> {
    /// Files `conn` as the newest idle connection of its key, released at
    /// `now`.
    pub fn file_idle(&mut self, conn: Connection<T>, now: Millis)
        requires
            old(self).wf(),
        ensures
            final(self).wf(),
            final(self).idle(conn.key@) == old(self).idle(conn.key@).push(Conn(now, conn)),
            forall|k: KeyView| k != conn.key@ ==> final(self).idle(k) == old(self).idle(k),
            *final(self) == (ClientConnector { available: final(self).available, ..*old(self) }),
    {
        let ghost table = self.available@;
        let ghost k = conn.key@;
        match find_key(&self.available, &conn.key) {
            Some(i) => {
                self.available[i].1.push_back(Conn(now, conn));
                proof {
                    lemma_slot_unique(table, i as int);
                    lemma_same_keys(table, self.available@);
                    assert forall|j: int| 0 <= j < self.available@.len() implies bucket_ok(
                        (#[trigger] self.available@[j]).0@,
                        self.available@[j].1@,
                    ) by {
                        assert(bucket_ok(table[j].0@, table[j].1@));
                    }
                    assert forall|kk: KeyView| kk != k implies self.idle(kk) == old(self).idle(
                        kk,
                    ) by {
                        if has_key(table, kk) {
                            assert(slot_of(table, kk) != i);
                        }
                    }
                }
            },
            None => {
                let mut q: VecDeque<Conn<T>> = VecDeque::new();
                let key = conn.key.clone();
                q.push_back(Conn(now, conn));
                let ghost entry = (key, q);
                self.available.push((key, q));
                proof {
                    lemma_push_key(table, entry);
                    assert(q@ =~= Seq::<Conn<T>>::empty().push(Conn(now, conn)));
                    assert forall|j: int| 0 <= j < self.available@.len() implies bucket_ok(
                        (#[trigger] self.available@[j]).0@,
                        self.available@[j].1@,
                    ) by {
                        if j < table.len() {
                            assert(bucket_ok(table[j].0@, table[j].1@));
                        }
                    }
                }
            },
        }
    }

    /// Frees the slot of each connection of `conns`, and files those that
    /// are younger than the lifetime as idle, released at `now`. The others
    /// are dropped.
    pub fn keep_all(&mut self, conns: Vec<Connection<T>>, now: Millis)
        requires
            old(self).wf(),
        ensures
            final(self).wf(),
            final(self).outstanding() == without(old(self).outstanding(), keys_of(conns@)),
            forall|k: KeyView|
                #[trigger] final(self).idle(k) == old(self).idle(k) + returned_for(
                    k,
                    conns@,
                    now,
                    old(self).conn_lifetime,
                ),
            *final(self) == (ClientConnector {
                acquired: final(self).acquired,
                acquired_per_host: final(self).acquired_per_host,
                issued: final(self).issued,
                available: final(self).available,
                ..*old(self)
            }),
    {
        let ghost all = conns@;
        let lifetime = self.conn_lifetime;
        assert forall|k: KeyView| #[trigger]
            self.idle(k) == old(self).idle(k) + returned_for(k, all.take(0), now, lifetime) by {
            assert(old(self).idle(k) + Seq::<Conn<T>>::empty() =~= old(self).idle(k));
        }
        for conn in it: conns
            invariant
                all == it.seq(),
                self.wf(),
                lifetime == old(self).conn_lifetime,
                self.outstanding() == without(
                    old(self).outstanding(),
                    keys_of(all).take(it.index() as int),
                ),
                forall|k: KeyView|
                    #[trigger] self.idle(k) == old(self).idle(k) + returned_for(
                        k,
                        all.take(it.index() as int),
                        now,
                        lifetime,
                    ),
                *self == (ClientConnector {
                    acquired: self.acquired,
                    acquired_per_host: self.acquired_per_host,
                    issued: self.issued,
                    available: self.available,
                    ..*old(self)
                }),
        {
            let ghost i = it.index() as int;
            let ghost before = *self;
            self.release_key(&conn.key);
            let age = if now >= conn.ts {
                now - conn.ts
            } else {
                0
            };
            if age < lifetime {
                self.file_idle(conn, now);
            }
            proof {
                let ks = keys_of(all);
                assert(ks.take(i + 1).drop_last() =~= ks.take(i));
                assert(ks.take(i + 1).last() == conn.key@);
                assert(all.take(i + 1).drop_last() =~= all.take(i));
                assert(all.take(i + 1).last() == conn);
                assert forall|k: KeyView| #[trigger]
                    self.idle(k) == old(self).idle(k) + returned_for(
                        k,
                        all.take(i + 1),
                        now,
                        lifetime,
                    ) by {
                    let r0 = returned_for(k, all.take(i), now, lifetime);
                    assert(before.idle(k) == old(self).idle(k) + r0);
                    if conn.key@ == k && age < lifetime {
                        assert((old(self).idle(k) + r0).push(Conn(now, conn)) =~= old(self).idle(k) + r0.push(Conn(now, conn)));
                    }
                }
            }
        }
        assert(keys_of(all).take(all.len() as int) =~= keys_of(all));
        assert(all.take(all.len() as int) =~= all);
    }
}


/// The entries of `q` that are not stale at `now`, in their order.
pub open spec fn fresh_only<T>(
    q: Seq<Conn<T>>,
    now: Millis,
    keep_alive: Millis,
    lifetime: Millis,
) -> Seq<Conn<T>>
    decreases q.len(),
{
    if q.len() == 0 {
        Seq::empty()
    } else {
        let rest = fresh_only(q.drop_last(), now, keep_alive, lifetime);
        if stale(q.last(), now, keep_alive, lifetime) {
            rest
        } else {
            rest.push(q.last())
        }
    }
}

/// The connections of the entries of `q` that are stale at `now`, in their
/// order.
pub open spec fn stale_only<T>(
    q: Seq<Conn<T>>,
    now: Millis,
    keep_alive: Millis,
    lifetime: Millis,
) -> Seq<Connection<T>>
    decreases q.len(),
{
    if q.len() == 0 {
        Seq::empty()
    } else {
        let rest = stale_only(q.drop_last(), now, keep_alive, lifetime);
        if stale(q.last(), now, keep_alive, lifetime) {
            rest.push(q.last().1)
        } else {
            rest
        }
    }
}

/// What `fresh_only` keeps is not stale and was there before.
pub proof fn lemma_fresh_only<T>(q: Seq<Conn<T>>, now: Millis, keep_alive: Millis, lifetime: Millis)
    ensures
        fresh_only(q, now, keep_alive, lifetime).len() <= q.len(),
        forall|j: int|
            0 <= j < fresh_only(q, now, keep_alive, lifetime).len() ==> !stale(
                #[trigger] fresh_only(q, now, keep_alive, lifetime)[j],
                now,
                keep_alive,
                lifetime,
            ) && q.contains(fresh_only(q, now, keep_alive, lifetime)[j]),
    decreases q.len(),
{
    if q.len() > 0 {
        lemma_fresh_only(q.drop_last(), now, keep_alive, lifetime);
        let f = fresh_only(q, now, keep_alive, lifetime);
        let rest = fresh_only(q.drop_last(), now, keep_alive, lifetime);
        assert forall|j: int| 0 <= j < f.len() implies !stale(
            #[trigger] f[j],
            now,
            keep_alive,
            lifetime,
        ) && q.contains(f[j]) by {
            if j < rest.len() {
                assert(f[j] == rest[j]);
                let w = choose|w: int| 0 <= w < q.drop_last().len() && q.drop_last()[w] == rest[j];
                assert(q[w] == f[j]);
            } else {
                assert(q[q.len() - 1] == f[j]);
            }
        }
    }
}

/// Every stale entry of `q` has its connection in `stale_only`.
pub proof fn lemma_stale_only<T>(q: Seq<Conn<T>>, now: Millis, keep_alive: Millis, lifetime: Millis)
    ensures
        forall|j: int|
            0 <= j < q.len() && stale(#[trigger] q[j], now, keep_alive, lifetime) ==> stale_only(
                q,
                now,
                keep_alive,
                lifetime,
            ).contains(q[j].1),
    decreases q.len(),
{
    if q.len() > 0 {
        lemma_stale_only(q.drop_last(), now, keep_alive, lifetime);
        let f = stale_only(q, now, keep_alive, lifetime);
        let rest = stale_only(q.drop_last(), now, keep_alive, lifetime);
        assert forall|j: int|
            0 <= j < q.len() && stale(#[trigger] q[j], now, keep_alive, lifetime) implies f.contains(
            q[j].1,
        ) by {
            if j < q.len() - 1 {
                assert(q.drop_last()[j] == q[j]);
                let w = choose|w: int| 0 <= w < rest.len() && rest[w] == q[j].1;
                assert(f[w] == q[j].1);
            } else {
                assert(f[f.len() - 1] == q[j].1);
            }
        }
    }
}

impl<T, C> ClientConnector<T, C> {
    /// Moves the stale entries of bucket `i` of the idle set to the close
    /// list.
    pub fn evict_bucket(&mut self, i: usize, now: Millis)
        requires
            old(self).wf(),
            i < old(self).available@.len(),
        ensures
            final(self).wf(),
            final(self).available@.len() == old(self).available@.len(),
            forall|j: int|
                0 <= j < old(self).available@.len() ==> (#[trigger] final(self).available@[j]).0
                    == old(self).available@[j].0,
            forall|j: int|
                0 <= j < old(self).available@.len() && j != i ==> (#[trigger] final(self).available@[j]) == old(self).available@[j],
            final(self).available@[i as int].1@ == fresh_only(
                old(self).available@[i as int].1@,
                now,
                old(self).conn_keep_alive,
                old(self).conn_lifetime,
            ),
            final(self).to_close@ == old(self).to_close@ + stale_only(
                old(self).available@[i as int].1@,
                now,
                old(self).conn_keep_alive,
                old(self).conn_lifetime,
            ),
            *final(self) == (ClientConnector {
                available: final(self).available,
                to_close: final(self).to_close,
                ..*old(self)
            }),
    {
        let ghost table = self.available@;
        let ghost orig = self.available@[i as int].1@;
        let ghost base = self.to_close@;
        let keep_alive = self.conn_keep_alive;
        let lifetime = self.conn_lifetime;
        let mut kept: VecDeque<Conn<T>> = VecDeque::new();
        let ghost mut done: int = 0;
        proof {
            assert(orig.skip(0) =~= orig);
            assert(base + stale_only(orig.take(0), now, keep_alive, lifetime) =~= base);
        }
        loop
            invariant
                old(self).wf(),
                table == old(self).available@,
                orig == table[i as int].1@,
                base == old(self).to_close@,
                i < table.len(),
                keep_alive == old(self).conn_keep_alive,
                lifetime == old(self).conn_lifetime,
                0 <= done <= orig.len(),
                self.available@.len() == table.len(),
                forall|j: int|
                    0 <= j < table.len() ==> (#[trigger] self.available@[j]).0 == table[j].0,
                forall|j: int|
                    0 <= j < table.len() && j != i ==> (#[trigger] self.available@[j])
                        == table[j],
                self.available@[i as int].1@ == orig.skip(done),
                kept@ == fresh_only(orig.take(done), now, keep_alive, lifetime),
                self.to_close@ == base + stale_only(orig.take(done), now, keep_alive, lifetime),
                *self == (ClientConnector {
                    available: self.available,
                    to_close: self.to_close,
                    ..*old(self)
                }),
            ensures
                done == orig.len(),
            decreases orig.len() - done,
        {
            match self.available[i].1.pop_front() {
                None => {
                    assert(orig.skip(done).len() == 0);
                    break ;
                },
                Some(conn) => {
                    proof {
                        assert(conn == orig[done]);
                        assert(self.available@[i as int].1@ =~= orig.skip(done + 1));
                        assert(orig.take(done + 1).drop_last() =~= orig.take(done));
                        assert(orig.take(done + 1).last() == conn);
                    }
                    if is_stale(&conn, now, keep_alive, lifetime) {
                        self.to_close.push(conn.1);
                        assert(self.to_close@ =~= base + stale_only(
                            orig.take(done + 1),
                            now,
                            keep_alive,
                            lifetime,
                        ));
                    } else {
                        kept.push_back(conn);
                    }
                    proof {
                        done = done + 1;
                    }
                },
            }
        }
        proof {
            assert(done == orig.len());
            assert(orig.take(done) =~= orig);
        }
        core::mem::swap(&mut self.available[i].1, &mut kept);
        proof {
            lemma_same_keys(table, self.available@);
            lemma_fresh_only(orig, now, keep_alive, lifetime);
            assert forall|j: int| 0 <= j < self.available@.len() implies bucket_ok(
                (#[trigger] self.available@[j]).0@,
                self.available@[j].1@,
            ) by {
                assert(bucket_ok(table[j].0@, table[j].1@));
                if j == i {
                    let f = self.available@[j].1@;
                    assert forall|x: int| 0 <= x < f.len() implies (#[trigger] f[x]).1.key@
                        == table[j].0@ by {
                        assert(orig.contains(f[x]));
                        let w = choose|w: int| 0 <= w < orig.len() && orig[w] == f[x];
                        assert(orig[w].1.key@ == table[j].0@);
                    }
                }
            }
        }
    }
}


/// The connections of all the entries of `t` that are stale at `now`:
/// bucket by bucket, each in its order.
pub open spec fn stale_all<T>(
    t: Seq<(Key, VecDeque<Conn<T>>)>,
    now: Millis,
    keep_alive: Millis,
    lifetime: Millis,
) -> Seq<Connection<T>>
    decreases t.len(),
{
    if t.len() == 0 {
        Seq::empty()
    } else {
        stale_all(t.drop_last(), now, keep_alive, lifetime) + stale_only(
            t.last().1@,
            now,
            keep_alive,
            lifetime,
        )
    }
}

impl<T, C> ClientConnector<T, C> {
    /// Moves every idle connection that is stale at `now` to the close
    /// list.
    pub fn evict(&mut self, now: Millis)
        requires
            old(self).wf(),
        ensures
            final(self).wf(),
            forall|k: KeyView|
                #[trigger] final(self).idle(k) == fresh_only(
                    old(self).idle(k),
                    now,
                    old(self).conn_keep_alive,
                    old(self).conn_lifetime,
                ),
            final(self).to_close@ == old(self).to_close@ + stale_all(
                old(self).available@,
                now,
                old(self).conn_keep_alive,
                old(self).conn_lifetime,
            ),
            old(self).to_close@.len() <= final(self).to_close@.len(),
            final(self).to_close@.take(old(self).to_close@.len() as int) == old(self).to_close@,
            forall|k: KeyView, j: int|
                0 <= j < old(self).idle(k).len() && stale(
                    #[trigger] old(self).idle(k)[j],
                    now,
                    old(self).conn_keep_alive,
                    old(self).conn_lifetime,
                ) ==> final(self).to_close@.contains(old(self).idle(k)[j].1),
            *final(self) == (ClientConnector {
                available: final(self).available,
                to_close: final(self).to_close,
                ..*old(self)
            }),
    {
        let ghost table = self.available@;
        let ghost base = self.to_close@;
        let ghost keep_alive = self.conn_keep_alive;
        let ghost lifetime = self.conn_lifetime;
        let n = self.available.len();
        let mut i: usize = 0;
        assert(base.take(base.len() as int) =~= base);
        assert(base + stale_all(table.take(0), now, keep_alive, lifetime) =~= base);
        while i < n
            invariant
                old(self).wf(),
                self.wf(),
                table == old(self).available@,
                base == old(self).to_close@,
                keep_alive == old(self).conn_keep_alive,
                lifetime == old(self).conn_lifetime,
                n == table.len(),
                i <= n,
                self.available@.len() == n,
                forall|j: int|
                    0 <= j < n ==> (#[trigger] self.available@[j]).0 == table[j].0,
                forall|j: int|
                    i <= j < n ==> (#[trigger] self.available@[j]) == table[j],
                forall|j: int|
                    0 <= j < i ==> (#[trigger] self.available@[j]).1@ == fresh_only(
                        table[j].1@,
                        now,
                        keep_alive,
                        lifetime,
                    ),
                base.len() <= self.to_close@.len(),
                self.to_close@.take(base.len() as int) == base,
                self.to_close@ == base + stale_all(table.take(i as int), now, keep_alive, lifetime),
                forall|j: int, x: int|
                    0 <= j < i && 0 <= x < table[j].1@.len() && stale(
                        #[trigger] table[j].1@[x],
                        now,
                        keep_alive,
                        lifetime,
                    ) ==> self.to_close@.contains(table[j].1@[x].1),
                *self == (ClientConnector {
                    available: self.available,
                    to_close: self.to_close,
                    ..*old(self)
                }),
            decreases n - i,
        {
            let ghost closing = self.to_close@;
            self.evict_bucket(i, now);
            proof {
                let added = stale_only(table[i as int].1@, now, keep_alive, lifetime);
                assert(self.to_close@ == closing + added);
                assert(table.take(i + 1).drop_last() =~= table.take(i as int));
                assert(table.take(i + 1).last() == table[i as int]);
                assert(self.to_close@ =~= base + stale_all(
                    table.take(i + 1),
                    now,
                    keep_alive,
                    lifetime,
                ));
                assert(self.to_close@.take(base.len() as int) =~= base);
                lemma_stale_only(table[i as int].1@, now, keep_alive, lifetime);
                assert forall|j: int, x: int|
                    0 <= j < i + 1 && 0 <= x < table[j].1@.len() && stale(
                        #[trigger] table[j].1@[x],
                        now,
                        keep_alive,
                        lifetime,
                    ) implies self.to_close@.contains(table[j].1@[x].1) by {
                    let c = table[j].1@[x].1;
                    if j < i {
                        let w = choose|w: int| 0 <= w < closing.len() && closing[w] == c;
                        assert(self.to_close@[w] == c);
                    } else {
                        let w = choose|w: int| 0 <= w < added.len() && added[w] == c;
                        assert(self.to_close@[closing.len() + w] == c);
                    }
                }
            }
            i += 1;
        }
        proof {
            assert(table.take(n as int) =~= table);
            lemma_same_keys(table, self.available@);
            assert forall|k: KeyView| #[trigger]
                self.idle(k) == fresh_only(old(self).idle(k), now, keep_alive, lifetime) by {
                if has_key(table, k) {
                    let j = slot_of(table, k);
                    assert(self.available@[j].1@ == fresh_only(
                        table[j].1@,
                        now,
                        keep_alive,
                        lifetime,
                    ));
                }
            }
        }
    }

    /// Tries to shut down each connection of the close list. `shutdown`
    /// says whether it is done with a connection; those it is not done with
    /// stay on the list for the next pass.
    pub fn shutdown_pass<F: Fn(&T) -> bool>(&mut self, shutdown: &F)
        requires
            old(self).wf(),
            forall|t: &T| shutdown.requires((t,)),
        ensures
            final(self).wf(),
            final(self).to_close@.len() <= old(self).to_close@.len(),
            forall|j: int|
                0 <= j < final(self).to_close@.len() ==> old(self).to_close@.contains(
                    #[trigger] final(self).to_close@[j],
                ) && shutdown.ensures((&final(self).to_close@[j].stream,), false),
            forall|j: int|
                0 <= j < old(self).to_close@.len() ==> final(self).to_close@.contains(
                    #[trigger] old(self).to_close@[j],
                ) || shutdown.ensures((&old(self).to_close@[j].stream,), true),
            *final(self) == (ClientConnector { to_close: final(self).to_close, ..*old(self) }),
    {
        let mut pending: Vec<Connection<T>> = Vec::new();
        core::mem::swap(&mut self.to_close, &mut pending);
        let ghost all = pending@;
        for conn in it: pending
            invariant
                all == it.seq(),
                all == old(self).to_close@,
                forall|t: &T| shutdown.requires((t,)),
                self.to_close@.len() <= it.index(),
                forall|j: int|
                    0 <= j < self.to_close@.len() ==> all.contains(#[trigger] self.to_close@[j])
                        && shutdown.ensures((&self.to_close@[j].stream,), false),
                forall|j: int|
                    0 <= j < it.index() ==> self.to_close@.contains(#[trigger] all[j])
                        || shutdown.ensures((&all[j].stream,), true),
                *self == (ClientConnector { to_close: self.to_close, ..*old(self) }),
        {
            let ghost i = it.index() as int;
            let ghost closing = self.to_close@;
            let done = shutdown(&conn.stream);
            if !done {
                self.to_close.push(conn);
            }
            proof {
                assert(all[i] == conn);
                assert forall|j: int| 0 <= j < self.to_close@.len() implies all.contains(
                    #[trigger] self.to_close@[j],
                ) && shutdown.ensures((&self.to_close@[j].stream,), false) by {
                    if j < closing.len() {
                        assert(self.to_close@[j] == closing[j]);
                    }
                }
                assert forall|j: int| 0 <= j < i + 1 implies self.to_close@.contains(
                    #[trigger] all[j],
                ) || shutdown.ensures((&all[j].stream,), true) by {
                    if j < i {
                        if closing.contains(all[j]) {
                            let w = choose|w: int| 0 <= w < closing.len() && closing[w] == all[j];
                            assert(self.to_close@[w] == all[j]);
                        }
                    } else if !done {
                        assert(self.to_close@[closing.len() as int] == all[j]);
                    }
                }
            }
        }
    }
}


impl<T, C> ClientConnector<T, C> {
    /// What the idle set of `k` is before the stale entries leave it in a
    /// pass at `now`: what it was, then what the mailbox brings.
    pub open spec fn incoming(&self, k: KeyView, now: Millis) -> Seq<Conn<T>> {
        self.idle(k) + returned_for(k, self.pool.to_release@, now, self.conn_lifetime)
    }

    /// Empties the mailbox and evicts the stale idle connections: the slot
    /// of everything that came back is freed; the connections to close go
    /// to the close list; those to keep are filed as idle unless they have
    /// reached their lifetime; then every idle connection that is stale at
    /// `now` goes to the close list.
    pub fn drain(&mut self, now: Millis)
        requires
            old(self).wf(),
        ensures
            final(self).wf(),
            final(self).outstanding() == without(
                old(self).outstanding(),
                returned_keys(old(self).pool),
            ),
            forall|k: KeyView|
                #[trigger] final(self).idle(k) == fresh_only(
                    old(self).incoming(k, now),
                    now,
                    old(self).conn_keep_alive,
                    old(self).conn_lifetime,
                ),
            forall|k: KeyView, j: int|
                0 <= j < final(self).idle(k).len() ==> !stale(
                    #[trigger] final(self).idle(k)[j],
                    now,
                    old(self).conn_keep_alive,
                    old(self).conn_lifetime,
                ),
            old(self).to_close@.len() + old(self).pool.to_close@.len() <= final(self).to_close@.len(),
            final(self).to_close@.take(
                (old(self).to_close@.len() + old(self).pool.to_close@.len()) as int,
            ) == old(self).to_close@ + old(self).pool.to_close@,
            forall|k: KeyView, j: int|
                0 <= j < old(self).incoming(k, now).len() && stale(
                    #[trigger] old(self).incoming(k, now)[j],
                    now,
                    old(self).conn_keep_alive,
                    old(self).conn_lifetime,
                ) ==> final(self).to_close@.contains(old(self).incoming(k, now)[j].1),
            final(self).pool.keys@.len() == 0,
            final(self).pool.to_close@.len() == 0,
            final(self).pool.to_release@.len() == 0,
            !final(self).pool.modified,
            *final(self) == (ClientConnector {
                pool: final(self).pool,
                acquired: final(self).acquired,
                acquired_per_host: final(self).acquired_per_host,
                issued: final(self).issued,
                available: final(self).available,
                to_close: final(self).to_close,
                ..*old(self)
            }),
    {
        let ghost m0 = self.outstanding();
        let ghost mailbox = self.pool;
        let ghost keep_alive = self.conn_keep_alive;
        let ghost lifetime = self.conn_lifetime;
        self.pool.modified = false;
        let keys = self.pool.collect_keys();
        match keys {
            Some(keys) => {
                self.release_keys(&keys);
            },
            None => {
                assert(key_views(mailbox.keys@) =~= Seq::<KeyView>::empty());
            },
        }
        assert(self.outstanding() == without(m0, key_views(mailbox.keys@)));
        let closed = self.pool.collect_close();
        let ghost base = self.to_close@;
        match closed {
            Some(conns) => {
                self.close_all(conns);
            },
            None => {
                assert(keys_of(mailbox.to_close@) =~= Seq::<KeyView>::empty());
                assert(base + mailbox.to_close@ =~= base);
            },
        }
        assert(self.to_close@ == base + mailbox.to_close@);
        let kept = self.pool.collect_release();
        match kept {
            Some(conns) => {
                self.keep_all(conns, now);
            },
            None => {
                assert(keys_of(mailbox.to_release@) =~= Seq::<KeyView>::empty());
                assert forall|k: KeyView| #[trigger]
                    self.idle(k) == old(self).idle(k) + returned_for(
                        k,
                        mailbox.to_release@,
                        now,
                        lifetime,
                    ) by {
                    assert(old(self).idle(k) + Seq::<Conn<T>>::empty() =~= old(self).idle(k));
                }
            },
        }
        proof {
            lemma_without_concat(m0, key_views(mailbox.keys@), keys_of(mailbox.to_close@));
            lemma_without_concat(
                m0,
                key_views(mailbox.keys@) + keys_of(mailbox.to_close@),
                keys_of(mailbox.to_release@),
            );
            assert forall|k: KeyView| #[trigger] self.idle(k) == old(self).incoming(k, now) by {}
        }
        let ghost mid = *self;
        self.evict(now);
        proof {
            let front = base + mailbox.to_close@;
            assert(self.to_close@.take(front.len() as int) =~= front) by {
                assert(self.to_close@.take(mid.to_close@.len() as int) == mid.to_close@);
            }
            assert forall|k: KeyView, j: int| 0 <= j < self.idle(k).len() implies !stale(
                #[trigger] self.idle(k)[j],
                now,
                keep_alive,
                lifetime,
            ) by {
                lemma_fresh_only(old(self).incoming(k, now), now, keep_alive, lifetime);
            }
            assert forall|k: KeyView, j: int|
                0 <= j < old(self).incoming(k, now).len() && stale(
                    #[trigger] old(self).incoming(k, now)[j],
                    now,
                    keep_alive,
                    lifetime,
                ) implies self.to_close@.contains(old(self).incoming(k, now)[j].1) by {
                assert(mid.idle(k) == old(self).incoming(k, now));
                assert(stale(mid.idle(k)[j], now, keep_alive, lifetime));
            }
        }
    }

    /// A pass over what came back and what is idle, as [`Self::drain`] does
    /// it. A periodic pass then tries to shut down the connections of the
    /// close list: where `shutdown` is done with one it leaves the list.
    pub fn collect<F: Fn(&T) -> bool>(&mut self, periodic: bool, now: Millis, shutdown: &F)
        requires
            old(self).wf(),
            forall|t: &T| shutdown.requires((t,)),
        ensures
            final(self).wf(),
            final(self).outstanding() == without(
                old(self).outstanding(),
                returned_keys(old(self).pool),
            ),
            forall|k: KeyView|
                #[trigger] final(self).idle(k) == fresh_only(
                    old(self).incoming(k, now),
                    now,
                    old(self).conn_keep_alive,
                    old(self).conn_lifetime,
                ),
            forall|k: KeyView, j: int|
                0 <= j < final(self).idle(k).len() ==> !stale(
                    #[trigger] final(self).idle(k)[j],
                    now,
                    old(self).conn_keep_alive,
                    old(self).conn_lifetime,
                ),
            !periodic ==> {
                &&& old(self).to_close@.len() + old(self).pool.to_close@.len() <= final(self).to_close@.len()
                &&& final(self).to_close@.take(
                    (old(self).to_close@.len() + old(self).pool.to_close@.len()) as int,
                ) == old(self).to_close@ + old(self).pool.to_close@
                &&& forall|k: KeyView, j: int|
                    0 <= j < old(self).incoming(k, now).len() && stale(
                        #[trigger] old(self).incoming(k, now)[j],
                        now,
                        old(self).conn_keep_alive,
                        old(self).conn_lifetime,
                    ) ==> final(self).to_close@.contains(old(self).incoming(k, now)[j].1)
            },
            periodic ==> {
                &&& forall|j: int|
                    0 <= j < final(self).to_close@.len() ==> shutdown.ensures(
                        (&(#[trigger] final(self).to_close@[j]).stream,),
                        false,
                    )
                &&& forall|j: int|
                    0 <= j < (old(self).to_close@ + old(self).pool.to_close@).len() ==> final(self).to_close@.contains(
                        #[trigger] (old(self).to_close@ + old(self).pool.to_close@)[j],
                    ) || shutdown.ensures(
                        (&(old(self).to_close@ + old(self).pool.to_close@)[j].stream,),
                        true,
                    )
                &&& forall|k: KeyView, j: int|
                    0 <= j < old(self).incoming(k, now).len() && stale(
                        #[trigger] old(self).incoming(k, now)[j],
                        now,
                        old(self).conn_keep_alive,
                        old(self).conn_lifetime,
                    ) ==> final(self).to_close@.contains(old(self).incoming(k, now)[j].1)
                        || shutdown.ensures((&old(self).incoming(k, now)[j].1.stream,), true)
            },
            final(self).pool.keys@.len() == 0,
            final(self).pool.to_close@.len() == 0,
            final(self).pool.to_release@.len() == 0,
            !final(self).pool.modified,
            *final(self) == (ClientConnector {
                pool: final(self).pool,
                acquired: final(self).acquired,
                acquired_per_host: final(self).acquired_per_host,
                issued: final(self).issued,
                available: final(self).available,
                to_close: final(self).to_close,
                ..*old(self)
            }),
    {
        self.drain(now);
        if periodic {
            let ghost mid = *self;
            self.shutdown_pass(shutdown);
            proof {
                assert forall|k: KeyView| #[trigger] self.idle(k) == mid.idle(k) by {}
                let front = old(self).to_close@ + old(self).pool.to_close@;
                assert forall|j: int| 0 <= j < front.len() implies self.to_close@.contains(
                    #[trigger] front[j],
                ) || shutdown.ensures((&front[j].stream,), true) by {
                    assert(mid.to_close@.take(front.len() as int)[j] == mid.to_close@[j]);
                    assert(mid.to_close@[j] == front[j]);
                }
                assert forall|k: KeyView, j: int|
                    0 <= j < old(self).incoming(k, now).len() && stale(
                        #[trigger] old(self).incoming(k, now)[j],
                        now,
                        old(self).conn_keep_alive,
                        old(self).conn_lifetime,
                    ) implies self.to_close@.contains(old(self).incoming(k, now)[j].1)
                    || shutdown.ensures((&old(self).incoming(k, now)[j].1.stream,), true) by {
                    let c = old(self).incoming(k, now)[j].1;
                    assert(mid.to_close@.contains(c));
                    let w = choose|w: int| 0 <= w < mid.to_close@.len() && mid.to_close@[w] == c;
                    assert(self.to_close@.contains(mid.to_close@[w]) || shutdown.ensures(
                        (&mid.to_close@[w].stream,),
                        true,
                    ));
                }
            }
        }
    }
}


/// The waiters of `q` whose deadline lies after `now`, in their order.
pub open spec fn live_only(q: Seq<Waiter>, now: Millis) -> Seq<Waiter>
    decreases q.len(),
{
    if q.len() == 0 {
        Seq::empty()
    } else if q.last().wait <= now {
        live_only(q.drop_last(), now)
    } else {
        live_only(q.drop_last(), now).push(q.last())
    }
}

/// The waiters of `q` whose deadline has come at `now`, in their order.
pub open spec fn expired_only(q: Seq<Waiter>, now: Millis) -> Seq<Waiter>
    decreases q.len(),
{
    if q.len() == 0 {
        Seq::empty()
    } else if q.last().wait <= now {
        expired_only(q.drop_last(), now).push(q.last())
    } else {
        expired_only(q.drop_last(), now)
    }
}

/// The waiters of all queues of `t` whose deadline has come at `now`: queue
/// by queue, each in its order.
pub open spec fn expired_all(t: Seq<(Key, VecDeque<Waiter>)>, now: Millis) -> Seq<Waiter>
    decreases t.len(),
{
    if t.len() == 0 {
        Seq::empty()
    } else {
        expired_all(t.drop_last(), now) + expired_only(t.last().1@, now)
    }
}

/// The earlier of two optional instants.
pub fn sooner_of(a: Option<Millis>, b: Option<Millis>) -> (r: Option<Millis>)
    ensures
        r == sooner(a, b),
{
    match (a, b) {
        (None, _) => b,
        (_, None) => a,
        (Some(x), Some(y)) => if x <= y {
            a
        } else {
            b
        },
    }
}

/// Taking the earlier of two instants does not depend on their order, nor
/// on how three are grouped.
pub proof fn lemma_sooner(a: Option<Millis>, b: Option<Millis>, c: Option<Millis>)
    ensures
        sooner(a, b) == sooner(b, a),
        sooner(sooner(a, b), c) == sooner(a, sooner(b, c)),
        sooner(a, None) == a,
        sooner(None, a) == a,
{
}

/// Replacing queue `i` by one whose earliest deadline is the earlier of the
/// old one and `x` moves the earliest deadline of the table in the same way.
pub proof fn lemma_earliest_update(
    t: Seq<(Key, VecDeque<Waiter>)>,
    u: Seq<(Key, VecDeque<Waiter>)>,
    i: int,
    x: Option<Millis>,
)
    requires
        0 <= i < t.len(),
        u.len() == t.len(),
        forall|j: int| 0 <= j < t.len() && j != i ==> (#[trigger] u[j]).1@ == t[j].1@,
        earliest_in(u[i].1@) == sooner(earliest_in(t[i].1@), x),
    ensures
        earliest(u) == sooner(earliest(t), x),
    decreases t.len(),
{
    let a = earliest(t.drop_last());
    if i == t.len() - 1 {
        assert(earliest(u.drop_last()) == a) by {
            lemma_earliest_same(t.drop_last(), u.drop_last());
        }
        lemma_sooner(a, earliest_in(t[i].1@), x);
    } else {
        lemma_earliest_update(t.drop_last(), u.drop_last(), i, x);
        assert(u.last().1@ == t.last().1@);
        let b = earliest_in(t.last().1@);
        lemma_sooner(a, x, b);
        lemma_sooner(x, b, None);
        lemma_sooner(a, b, x);
    }
}

/// Tables with the same queues have the same earliest deadline.
pub proof fn lemma_earliest_same(
    t: Seq<(Key, VecDeque<Waiter>)>,
    u: Seq<(Key, VecDeque<Waiter>)>,
)
    requires
        u.len() == t.len(),
        forall|j: int| 0 <= j < t.len() ==> (#[trigger] u[j]).1@ == t[j].1@,
    ensures
        earliest(u) == earliest(t),
    decreases t.len(),
{
    if t.len() > 0 {
        lemma_earliest_same(t.drop_last(), u.drop_last());
        assert(u.last().1@ == t.last().1@);
    }
}

impl<T, C> ClientConnector<T, C> {
    /// Arms the expiry timer for `time` unless it is armed for an earlier
    /// instant.
    pub fn install_wait_timeout(&mut self, time: Millis)
        ensures
            final(self).wait_timeout == sooner(old(self).wait_timeout, Some(time)),
            *final(self) == (ClientConnector {
                wait_timeout: final(self).wait_timeout,
                ..*old(self)
            }),
    {
        if let Some(wait) = self.wait_timeout {
            if wait < time {
                return ;
            }
        }
        self.wait_timeout = Some(time);
    }

    /// Puts a new waiter at the end of the queue of `key`. It gives up at
    /// `now + wait_time`, or at the last instant there is where that sum
    /// cannot be held. The expiry timer is armed for its deadline unless
    /// it is armed for an earlier one.
    pub fn enqueue(
        &mut self,
        key: &Key,
        now: Millis,
        wait_time: Millis,
        conn_timeout: Millis,
    ) -> (r: Waiter)
        requires
            old(self).wf(),
        ensures
            final(self).wf(),
            r.id == old(self).next_waiter,
            r.wait == if now + wait_time > u64::MAX {
                u64::MAX
            } else {
                (now + wait_time) as u64
            },
            r.conn_timeout == conn_timeout,
            final(self).queue(key@) == old(self).queue(key@).push(r),
            forall|k: KeyView| k != key@ ==> final(self).queue(k) == old(self).queue(k),
            final(self).wait_timeout == sooner(old(self).wait_timeout, Some(r.wait)),
            *final(self) == (ClientConnector {
                waiters: final(self).waiters,
                wait_timeout: final(self).wait_timeout,
                next_waiter: final(self).next_waiter,
                ..*old(self)
            }),
    {
        let ghost table = self.waiters@;
        let wait = now.saturating_add(wait_time);
        let waiter = Waiter { id: self.next_waiter, wait, conn_timeout };
        self.next_waiter = if self.next_waiter < u64::MAX {
            self.next_waiter + 1
        } else {
            0
        };
        self.install_wait_timeout(wait);
        match find_key(&self.waiters, key) {
            Some(i) => {
                self.waiters[i].1.push_back(waiter);
                proof {
                    lemma_slot_unique(table, i as int);
                    lemma_same_keys(table, self.waiters@);
                    assert(self.waiters@[i as int].1@.drop_last() =~= table[i as int].1@);
                    assert(self.waiters@[i as int].1@.last() == waiter);
                    assert(earliest_in(self.waiters@[i as int].1@) == sooner(
                        earliest_in(table[i as int].1@),
                        Some(wait),
                    ));
                    lemma_earliest_update(table, self.waiters@, i as int, Some(wait));
                    assert(earliest(self.waiters@) == sooner(earliest(table), Some(wait)));
                    assert forall|k: KeyView| k != key@ implies self.queue(k) == old(self).queue(
                        k,
                    ) by {
                        if has_key(table, k) {
                            assert(slot_of(table, k) != i);
                        }
                    }
                }
            },
            None => {
                let mut q: VecDeque<Waiter> = VecDeque::new();
                q.push_back(waiter);
                let ghost entry = (*key, q);
                self.waiters.push((key.clone(), q));
                proof {
                    assert(self.waiters@ =~= table.push(entry));
                    lemma_push_key(table, entry);
                    assert(q@ =~= Seq::<Waiter>::empty().push(waiter));
                    assert(q@.drop_last() =~= Seq::<Waiter>::empty());
                    assert(self.waiters@.drop_last() =~= table);
                    assert(earliest_in(q@.drop_last()) == None::<Millis>);
                    assert(q@.last() == waiter);
                    assert(earliest_in(q@) == Some(wait));
                    assert(self.waiters@.last().1@ == q@);
                    assert(earliest(self.waiters@) == sooner(earliest(table), Some(wait)));
                }
            },
        }
        waiter
    }
}


/// Moves the waiters of `q` whose deadline has come at `now` to the end of
/// `expired`, keeps the others in their order, and says which deadline is
/// now the earliest in `q`.
pub fn sift_queue(q: &mut VecDeque<Waiter>, now: Millis, expired: &mut Vec<Waiter>) -> (r: Option<
    Millis,
>)
    ensures
        final(q)@ == live_only(old(q)@, now),
        final(expired)@ == old(expired)@ + expired_only(old(q)@, now),
        r == earliest_in(final(q)@),
{
    let ghost orig = q@;
    let ghost base = expired@;
    let mut kept: VecDeque<Waiter> = VecDeque::new();
    let mut next: Option<Millis> = None;
    let ghost mut done: int = 0;
    proof {
        assert(orig.skip(0) =~= orig);
        assert(base + expired_only(orig.take(0), now) =~= base);
    }
    loop
        invariant
            0 <= done <= orig.len(),
            q@ == orig.skip(done),
            kept@ == live_only(orig.take(done), now),
            expired@ == base + expired_only(orig.take(done), now),
            next == earliest_in(kept@),
        ensures
            done == orig.len(),
        decreases orig.len() - done,
    {
        match q.pop_front() {
            None => {
                assert(orig.skip(done).len() == 0);
                break ;
            },
            Some(w) => {
                proof {
                    assert(w == orig[done]);
                    assert(q@ =~= orig.skip(done + 1));
                    assert(orig.take(done + 1).drop_last() =~= orig.take(done));
                    assert(orig.take(done + 1).last() == w);
                }
                if w.wait <= now {
                    expired.push(w);
                    assert(expired@ =~= base + expired_only(orig.take(done + 1), now));
                } else {
                    let ghost before = kept@;
                    kept.push_back(w);
                    next = sooner_of(next, Some(w.wait));
                    assert(kept@.drop_last() =~= before);
                }
                proof {
                    done = done + 1;
                }
            },
        }
    }
    proof {
        assert(orig.take(done) =~= orig);
    }
    core::mem::swap(q, &mut kept);
    next
}

impl<T, C> ClientConnector<T, C> {
    /// Takes out of every queue the waiters whose deadline has come at
    /// `now`, to be told that they timed out, and arms the expiry timer for
    /// the earliest deadline that is left, or disarms it.
    pub fn collect_waiters(&mut self, now: Millis) -> (r: Vec<Waiter>)
        requires
            old(self).wf(),
        ensures
            final(self).wf(),
            r@ == expired_all(old(self).waiters@, now),
            forall|k: KeyView| #[trigger] final(self).queue(k) == live_only(old(self).queue(k), now),
            final(self).waiters@.len() == old(self).waiters@.len(),
            forall|i: int|
                0 <= i < old(self).waiters@.len() ==> (#[trigger] final(self).waiters@[i]).0
                    == old(self).waiters@[i].0 && final(self).waiters@[i].1@ == live_only(
                    old(self).waiters@[i].1@,
                    now,
                ),
            *final(self) == (ClientConnector {
                waiters: final(self).waiters,
                wait_timeout: final(self).wait_timeout,
                ..*old(self)
            }),
    {
        let ghost table = self.waiters@;
        let mut expired: Vec<Waiter> = Vec::new();
        let mut next: Option<Millis> = None;
        let n = self.waiters.len();
        let mut i: usize = 0;
        proof {
            assert(table.take(0) =~= Seq::<(Key, VecDeque<Waiter>)>::empty());
        }
        while i < n
            invariant
                old(self).wf(),
                table == old(self).waiters@,
                n == table.len(),
                i <= n,
                self.waiters@.len() == n,
                forall|j: int|
                    0 <= j < n ==> (#[trigger] self.waiters@[j]).0 == table[j].0,
                forall|j: int|
                    i <= j < n ==> (#[trigger] self.waiters@[j]) == table[j],
                forall|j: int|
                    0 <= j < i ==> (#[trigger] self.waiters@[j]).1@ == live_only(
                        table[j].1@,
                        now,
                    ),
                expired@ == expired_all(table.take(i as int), now),
                next == earliest(self.waiters@.take(i as int)),
                *self == (ClientConnector { waiters: self.waiters, ..*old(self) }),
            decreases n - i,
        {
            let ghost front = self.waiters@.take(i as int);
            let e = sift_queue(&mut self.waiters[i].1, now, &mut expired);
            next = sooner_of(next, e);
            proof {
                assert(self.waiters@.take(i as int) =~= front);
                assert(self.waiters@.take(i + 1).drop_last() =~= front);
                assert(self.waiters@.take(i + 1).last() == self.waiters@[i as int]);
                assert(table.take(i + 1).drop_last() =~= table.take(i as int));
                assert(table.take(i + 1).last() == table[i as int]);
            }
            i += 1;
        }
        self.wait_timeout = next;
        proof {
            assert(self.waiters@.take(n as int) =~= self.waiters@);
            assert(table.take(n as int) =~= table);
            lemma_same_keys(table, self.waiters@);
            assert forall|k: KeyView| #[trigger]
                self.queue(k) == live_only(old(self).queue(k), now) by {
                if has_key(table, k) {
                    let j = slot_of(table, k);
                    assert(self.waiters@[j].1@ == live_only(table[j].1@, now));
                }
            }
        }
        expired
    }
}


/// What is to be done with a waiter that left its queue.
#[derive(Debug)]
pub enum WaiterAction<T> {
    /// Its deadline has come: it is told that it timed out.
    Expired(Waiter),
    /// Nobody listens for it any more: it is forgotten.
    Canceled(Waiter),
    /// It gets an idle connection, with a slot.
    Reuse(Waiter, Connection<T>),
    /// It has a slot; a connection has to be dialled for it.
    Dial(Waiter, AcquiredConn),
}

impl<T> WaiterAction<T> {
    /// The waiter that the action is for.
    pub open spec fn waiter(&self) -> Waiter {
        match *self {
            WaiterAction::Expired(w) => w,
            WaiterAction::Canceled(w) => w,
            WaiterAction::Reuse(w, _) => w,
            WaiterAction::Dial(w, _) => w,
        }
    }

    /// Whether the action hands out a slot.
    pub open spec fn leases(&self) -> bool {
        *self is Reuse || *self is Dial
    }
}

/// The number of slots that a run of actions hands out.
pub open spec fn leases_in<T>(actions: Seq<WaiterAction<T>>) -> nat
    decreases actions.len(),
{
    if actions.len() == 0 {
        0
    } else {
        leases_in(actions.drop_last()) + if actions.last().leases() {
            1nat
        } else {
            0nat
        }
    }
}

/// The leases `m` with `n` more for `k`.
pub open spec fn with_leases(m: Multiset<KeyView>, k: KeyView, n: nat) -> Multiset<KeyView>
    decreases n,
{
    if n == 0 {
        m
    } else {
        with_leases(m, k, (n - 1) as nat).insert(k)
    }
}

/// Whether `a` is a front part of `b`.
pub open spec fn front_of<A>(a: Seq<A>, b: Seq<A>) -> bool {
    a.len() <= b.len() && b.take(a.len() as int) == a
}

/// A front part of a front part is a front part.
pub proof fn lemma_front_of<A>(a: Seq<A>, b: Seq<A>, c: Seq<A>)
    requires
        front_of(a, b),
        front_of(b, c),
    ensures
        front_of(a, c),
{
    assert(c.take(a.len() as int) =~= c.take(b.len() as int).take(a.len() as int));
}

impl<T> WaiterAction<T> {
    /// Whether the action hands out a slot of `k`.
    pub open spec fn leases_of(&self, k: KeyView) -> bool {
        match *self {
            WaiterAction::Reuse(_, c) => c.key@ == k,
            WaiterAction::Dial(_, slot) => slot.0@ == k,
            _ => false,
        }
    }
}

/// The number of slots of `k` that a run of actions hands out.
pub open spec fn leases_for<T>(actions: Seq<WaiterAction<T>>, k: KeyView) -> nat
    decreases actions.len(),
{
    if actions.len() == 0 {
        0
    } else {
        leases_for(actions.drop_last(), k) + if actions.last().leases_of(k) {
            1nat
        } else {
            0nat
        }
    }
}

/// The slots of a key handed out by two runs of actions are those of each.
pub proof fn lemma_leases_for_concat<T>(
    a: Seq<WaiterAction<T>>,
    b: Seq<WaiterAction<T>>,
    k: KeyView,
)
    ensures
        leases_for(a + b, k) == leases_for(a, k) + leases_for(b, k),
    decreases b.len(),
{
    if b.len() == 0 {
        assert(a + b =~= a);
    } else {
        assert((a + b).drop_last() =~= a + b.drop_last());
        assert((a + b).last() == b.last());
        lemma_leases_for_concat(a, b.drop_last(), k);
    }
}

/// Where every slot that a run of actions hands out is one of `key`, the
/// run hands out all its slots for `key` and none for another key.
pub proof fn lemma_leases_for_one<T>(actions: Seq<WaiterAction<T>>, key: KeyView, k: KeyView)
    requires
        forall|j: int|
            0 <= j < actions.len() && (#[trigger] actions[j]).leases() ==> actions[j].leases_of(
                key,
            ),
    ensures
        leases_for(actions, k) == if k == key {
            leases_in(actions)
        } else {
            0
        },
    decreases actions.len(),
{
    if actions.len() > 0 {
        let rest = actions.drop_last();
        assert forall|j: int| 0 <= j < rest.len() && (#[trigger] rest[j]).leases() implies rest[j].leases_of(
            key,
        ) by {
            assert(rest[j] == actions[j]);
        }
        lemma_leases_for_one(rest, key, k);
        let a = actions[actions.len() - 1];
        assert(a == actions.last());
        if a.leases() {
            assert(a.leases_of(key));
        }
    }
}

/// What the action `a` has to be for the waiter `w` of `key` that left its
/// queue to be served: it is for that waiter; it says that the waiter was
/// cancelled only if `canceled` said so, and hands out a slot only if
/// `canceled` said that somebody listens; a connection that it hands out is
/// one of `key` that `probe` found idle, and it holds a slot of `key`; and
/// a slot that it hands out to be dialled for is one of `key`.
pub open spec fn served_as<T, P: Fn(&T) -> Probe, X: Fn(u64) -> bool>(
    a: WaiterAction<T>,
    w: Waiter,
    key: Key,
    probe: &P,
    canceled: &X,
) -> bool {
    &&& a.waiter() == w
    &&& !(a is Expired)
    &&& a is Canceled ==> canceled.ensures((w.id,), true)
    &&& a.leases() ==> canceled.ensures((w.id,), false)
    &&& a matches WaiterAction::Reuse(_, c) ==> c.key@ == key@ && c.pool == Some(
        AcquiredConn(key, true),
    ) && probe.ensures((&c.stream,), Probe::Idle)
    &&& a matches WaiterAction::Dial(_, slot) ==> slot == AcquiredConn(key, true)
}

impl<T, C> ClientConnector<T, C> {
    /// Serves the waiters of `key` from the front of `queue` for as long
    /// as admission finds a slot, and appends one action for each waiter
    /// that leaves the queue, in the order of the queue. A waiter of whom
    /// `canceled` says that nobody listens is dropped without a slot. The
    /// first waiter that finds no slot stays at the front, and those behind
    /// it stay behind it.
    pub fn serve<P: Fn(&T) -> Probe, X: Fn(u64) -> bool>(
        &mut self,
        key: &Key,
        queue: &mut VecDeque<Waiter>,
        now: Millis,
        probe: &P,
        canceled: &X,
        actions: &mut Vec<WaiterAction<T>>,
    )
        requires
            old(self).wf(),
            forall|t: &T| probe.requires((t,)),
            forall|id: u64| canceled.requires((id,)),
        ensures
            final(self).wf(),
            final(queue)@.len() <= old(queue)@.len(),
            final(queue)@ == old(queue)@.skip(old(queue)@.len() - final(queue)@.len()),
            final(actions)@.len() == old(actions)@.len() + old(queue)@.len() - final(queue)@.len(),
            final(actions)@.take(old(actions)@.len() as int) == old(actions)@,
            forall|j: int|
                0 <= j < old(queue)@.len() - final(queue)@.len() ==> served_as(
                    #[trigger] final(actions)@[old(actions)@.len() + j],
                    old(queue)@[j],
                    *key,
                    probe,
                    canceled,
                ),
            final(queue)@.len() > 0 ==> final(self).blocked(key@),
            final(self).acquired == old(self).acquired + leases_in(
                final(actions)@.skip(old(actions)@.len() as int),
            ),
            final(self).outstanding() == with_leases(
                old(self).outstanding(),
                key@,
                leases_in(final(actions)@.skip(old(actions)@.len() as int)),
            ),
            forall|k: KeyView| k != key@ ==> final(self).idle(k) == old(self).idle(k),
            front_of(final(self).idle(key@), old(self).idle(key@)),
            front_of(old(self).to_close@, final(self).to_close@),
            *final(self) == (ClientConnector {
                acquired: final(self).acquired,
                acquired_per_host: final(self).acquired_per_host,
                issued: final(self).issued,
                available: final(self).available,
                to_close: final(self).to_close,
                ..*old(self)
            }),
    {
        let ghost q0 = queue@;
        let ghost a0 = actions@;
        let ghost mut n: int = 0;
        proof {
            assert(q0.skip(0) =~= q0);
            assert(a0.take(a0.len() as int) =~= a0);
            assert(actions@.skip(a0.len() as int) =~= Seq::<WaiterAction<T>>::empty());
            assert(self.idle(key@).take(self.idle(key@).len() as int) =~= self.idle(key@));
            assert(self.to_close@.take(self.to_close@.len() as int) =~= self.to_close@);
        }
        loop
            invariant
                old(self).wf(),
                self.wf(),
                front_of(self.idle(key@), old(self).idle(key@)),
                front_of(old(self).to_close@, self.to_close@),
                forall|t: &T| probe.requires((t,)),
                forall|id: u64| canceled.requires((id,)),
                q0 == old(queue)@,
                a0 == old(actions)@,
                0 <= n <= q0.len(),
                queue@ == q0.skip(n),
                actions@.len() == a0.len() + n,
                actions@.take(a0.len() as int) == a0,
                forall|j: int|
                    0 <= j < n ==> served_as(
                        #[trigger] actions@[a0.len() + j],
                        q0[j],
                        *key,
                        probe,
                        canceled,
                    ),
                self.acquired == old(self).acquired + leases_in(actions@.skip(a0.len() as int)),
                self.outstanding() == with_leases(
                    old(self).outstanding(),
                    key@,
                    leases_in(actions@.skip(a0.len() as int)),
                ),
                forall|k: KeyView| k != key@ ==> self.idle(k) == old(self).idle(k),
                *self == (ClientConnector {
                    acquired: self.acquired,
                    acquired_per_host: self.acquired_per_host,
                    issued: self.issued,
                    available: self.available,
                    to_close: self.to_close,
                    ..*old(self)
                }),
            ensures
                queue@.len() > 0 ==> self.blocked(key@),
            decreases q0.len() - n,
        {
            let ghost acts = actions@;
            let ghost before = *self;
            match queue.pop_front() {
                None => {
                    break ;
                },
                Some(waiter) => {
                    assert(waiter == q0[n]);
                    assert(queue@ =~= q0.skip(n + 1));
                    if canceled(waiter.id) {
                        actions.push(WaiterAction::Canceled(waiter));
                    } else {
                        match self.acquire(key, now, probe) {
                            Acquire::Acquired(conn) => {
                                let mut conn = conn;
                                proof {
                                    let q = before.idle(key@);
                                    let j = self.idle(key@).len() as int;
                                    assert(has_key(before.available@, key@));
                                    let b = slot_of(before.available@, key@);
                                    assert(bucket_ok(
                                        before.available@[b].0@,
                                        before.available@[b].1@,
                                    ));
                                    assert(q[j].1.key@ == key@);
                                }
                                conn.pool = Some(AcquiredConn(key.clone(), true));
                                actions.push(WaiterAction::Reuse(waiter, conn));
                            },
                            Acquire::NotAvailable => {
                                queue.push_front(waiter);
                                assert(queue@ =~= q0.skip(n));
                                break ;
                            },
                            Acquire::Available => {
                                actions.push(
                                    WaiterAction::Dial(waiter, AcquiredConn(key.clone(), true)),
                                );
                            },
                        }
                    }
                    proof {
                        assert(front_of(self.idle(key@), before.idle(key@))) by {
                            let q = before.idle(key@);
                            assert(q.take(q.len() as int) =~= q);
                        }
                        assert(front_of(before.to_close@, self.to_close@)) by {
                            let c = before.to_close@;
                            assert(c.take(c.len() as int) =~= c);
                        }
                        lemma_front_of(self.idle(key@), before.idle(key@), old(self).idle(key@));
                        lemma_front_of(old(self).to_close@, before.to_close@, self.to_close@);
                        let tail = actions@.skip(a0.len() as int);
                        assert(tail.drop_last() =~= acts.skip(a0.len() as int));
                        assert(tail.last() == actions@.last());
                        assert(actions@.take(a0.len() as int) =~= a0);
                        assert forall|j: int| 0 <= j < n + 1 implies served_as(
                            #[trigger] actions@[a0.len() + j],
                            q0[j],
                            *key,
                            probe,
                            canceled,
                        ) by {
                            if j < n {
                                assert(actions@[a0.len() + j] == acts[a0.len() + j]);
                            }
                        }
                        n = n + 1;
                    }
                },
            }
        }
    }
}


/// The slots handed out by two runs of actions are those of each.
pub proof fn lemma_leases_concat<T>(a: Seq<WaiterAction<T>>, b: Seq<WaiterAction<T>>)
    ensures
        leases_in(a + b) == leases_in(a) + leases_in(b),
    decreases b.len(),
{
    if b.len() == 0 {
        assert(a + b =~= a);
    } else {
        assert((a + b).drop_last() =~= a + b.drop_last());
        assert((a + b).last() == b.last());
        lemma_leases_concat(a, b.drop_last());
    }
}

/// More leases for `k` raise the count of `k` and of no other key.
pub proof fn lemma_with_leases(m: Multiset<KeyView>, k: KeyView, n: nat)
    ensures
        with_leases(m, k, n).count(k) == m.count(k) + n,
        forall|other: KeyView| other != k ==> with_leases(m, k, n).count(other) == m.count(other),
        with_leases(m, k, n).len() == m.len() + n,
    decreases n,
{
    broadcast use vstd::multiset::group_multiset_axioms;

    if n > 0 {
        lemma_with_leases(m, k, (n - 1) as nat);
    }
}

/// The earliest deadline among all the queues of `t`.
pub fn earliest_of(t: &Vec<(Key, VecDeque<Waiter>)>) -> (r: Option<Millis>)
    ensures
        r == earliest(t@),
{
    let mut next: Option<Millis> = None;
    let mut i: usize = 0;
    assert(t@.take(0) =~= Seq::<(Key, VecDeque<Waiter>)>::empty());
    while i < t.len()
        invariant
            i <= t.len(),
            next == earliest(t@.take(i as int)),
        decreases t.len() - i,
    {
        let q = &t[i].1;
        let mut e: Option<Millis> = None;
        let mut j: usize = 0;
        assert(q@.take(0) =~= Seq::<Waiter>::empty());
        while j < q.len()
            invariant
                j <= q.len(),
                e == earliest_in(q@.take(j as int)),
            decreases q.len() - j,
        {
            e = sooner_of(e, Some(q[j].wait));
            proof {
                assert(q@.take(j + 1).drop_last() =~= q@.take(j as int));
                assert(q@.take(j + 1).last() == q@[j as int]);
            }
            j += 1;
        }
        next = sooner_of(next, e);
        proof {
            assert(q@.take(q@.len() as int) =~= q@);
            assert(t@.take(i + 1).drop_last() =~= t@.take(i as int));
            assert(t@.take(i + 1).last() == t@[i as int]);
        }
        i += 1;
    }
    assert(t@.take(t@.len() as int) =~= t@);
    next
}

/// The number of waiters that a maintenance pass at `now` serves from
/// queue `i`: those that are live in `before` and not left in `after`.
pub open spec fn left_at(
    before: Seq<(Key, VecDeque<Waiter>)>,
    after: Seq<(Key, VecDeque<Waiter>)>,
    now: Millis,
    i: int,
) -> int {
    live_only(before[i].1@, now).len() - after[i].1@.len()
}

/// The number of waiters that a maintenance pass at `now` serves from the
/// first `upto` queues.
pub open spec fn left_before(
    before: Seq<(Key, VecDeque<Waiter>)>,
    after: Seq<(Key, VecDeque<Waiter>)>,
    now: Millis,
    upto: int,
) -> int
    decreases upto,
{
    if upto <= 0 {
        0
    } else {
        left_before(before, after, now, upto - 1) + left_at(before, after, now, upto - 1)
    }
}

/// The place, among the actions of a maintenance pass at `now`, of the
/// action for waiter `j` of those that are served from queue `i`: after
/// the actions for the expired waiters and for the waiters served from the
/// queues before `i`.
pub open spec fn place(
    before: Seq<(Key, VecDeque<Waiter>)>,
    after: Seq<(Key, VecDeque<Waiter>)>,
    now: Millis,
    i: int,
    j: int,
) -> int {
    expired_all(before, now).len() + left_before(before, after, now, i) + j
}

/// The waiters served from the queues before one queue are among those
/// served from the queues before a later one.
pub proof fn lemma_left_before_upper(
    before: Seq<(Key, VecDeque<Waiter>)>,
    after: Seq<(Key, VecDeque<Waiter>)>,
    now: Millis,
    b: int,
    upto: int,
)
    requires
        0 <= b < upto <= after.len(),
        forall|i: int| 0 <= i < upto ==> left_at(before, after, now, i) >= 0,
    ensures
        0 <= left_before(before, after, now, b),
        left_before(before, after, now, b) + left_at(before, after, now, b) <= left_before(
            before,
            after,
            now,
            upto,
        ),
    decreases upto,
{
    if b < upto - 1 {
        lemma_left_before_upper(before, after, now, b, upto - 1);
    } else if b > 0 {
        lemma_left_before_upper(before, after, now, b - 1, b);
    }
}

/// The number of waiters served from the first queues depends on those
/// queues only.
pub proof fn lemma_left_before_same(
    before: Seq<(Key, VecDeque<Waiter>)>,
    a: Seq<(Key, VecDeque<Waiter>)>,
    b: Seq<(Key, VecDeque<Waiter>)>,
    now: Millis,
    upto: int,
)
    requires
        0 <= upto <= a.len(),
        upto <= b.len(),
        forall|i: int| 0 <= i < upto ==> (#[trigger] a[i]).1@ == b[i].1@,
    ensures
        left_before(before, a, now, upto) == left_before(before, b, now, upto),
    decreases upto,
{
    if upto > 0 {
        lemma_left_before_same(before, a, b, now, upto - 1);
        assert(a[upto - 1].1@ == b[upto - 1].1@);
    }
}

impl<T, C> ClientConnector<T, C> {
    /// The leases that are out once the mailbox is read, if it is marked
    /// as modified.
    pub open spec fn settled(&self) -> Multiset<KeyView> {
        if self.pool.modified {
            without(self.outstanding(), returned_keys(self.pool))
        } else {
            self.outstanding()
        }
    }

    /// The idle set of `k` once the mailbox is read at `now`, if it is
    /// marked as modified: what was idle and what came back to be kept,
    /// without the stale ones.
    pub open spec fn rested(&self, k: KeyView, now: Millis) -> Seq<Conn<T>> {
        if self.pool.modified {
            fresh_only(self.incoming(k, now), now, self.conn_keep_alive, self.conn_lifetime)
        } else {
            self.idle(k)
        }
    }

    /// The close list with what the mailbox brings for it, if the mailbox
    /// is marked as modified.
    pub open spec fn closing(&self) -> Seq<Connection<T>> {
        if self.pool.modified {
            self.to_close@ + self.pool.to_close@
        } else {
            self.to_close@
        }
    }

    /// The maintenance pass. A mailbox that is marked as modified is read
    /// as [`Self::drain`] does it. The waiters whose deadline has come at
    /// `now` leave their queues and are told that they timed out. Then the
    /// queues are served one after the other, each from its front for as
    /// long as admission finds a slot, as [`Self::serve`] does it. At the
    /// end the expiry timer is armed for the earliest deadline that is
    /// left.
    ///
    /// The actions come in the order in which they were decided: first
    /// those for the expired waiters, then those for the waiters served.
    ///
    /// A mailbox that was read is empty and unmarked afterwards; one that
    /// was not read is as it was. For each key the leases that are out are
    /// those that were out once the mailbox was read and those that the
    /// actions hand out. Each idle set is a front part of what it was once
    /// the mailbox was read: serving takes from its end only. The close
    /// list keeps what it held and what the mailbox brought for it, and
    /// after a mailbox was read it holds every idle connection that was
    /// stale.
    pub fn maintain<P: Fn(&T) -> Probe, X: Fn(u64) -> bool>(
        &mut self,
        now: Millis,
        probe: &P,
        canceled: &X,
    ) -> (r: Vec<WaiterAction<T>>)
        requires
            old(self).wf(),
            forall|t: &T| probe.requires((t,)),
            forall|id: u64| canceled.requires((id,)),
        ensures
            final(self).wf(),
            r@.len() >= expired_all(old(self).waiters@, now).len(),
            forall|j: int|
                0 <= j < expired_all(old(self).waiters@, now).len() ==> #[trigger] r@[j]
                    == WaiterAction::<T>::Expired(expired_all(old(self).waiters@, now)[j]),
            forall|j: int|
                expired_all(old(self).waiters@, now).len() <= j < r@.len() ==> !(
                #[trigger] r@[j] is Expired),
            forall|k: KeyView|
                (#[trigger] final(self).queue(k)).len() <= live_only(old(self).queue(k), now).len()
                    && final(self).queue(k) == live_only(old(self).queue(k), now).skip(
                    live_only(old(self).queue(k), now).len() - final(self).queue(k).len(),
                ),
            forall|k: KeyView| (#[trigger] final(self).queue(k)).len() > 0 ==> final(self).blocked(k),
            final(self).waiters@.len() == old(self).waiters@.len(),
            forall|i: int|
                0 <= i < old(self).waiters@.len() ==> (#[trigger] final(self).waiters@[i]).0
                    == old(self).waiters@[i].0,
            r@.len() == place(
                old(self).waiters@,
                final(self).waiters@,
                now,
                old(self).waiters@.len() as int,
                0,
            ),
            forall|i: int, j: int|
                0 <= i < old(self).waiters@.len() && 0 <= j < left_at(
                    old(self).waiters@,
                    final(self).waiters@,
                    now,
                    i,
                ) ==> served_as(
                    #[trigger] r@[place(old(self).waiters@, final(self).waiters@, now, i, j)],
                    live_only(old(self).waiters@[i].1@, now)[j],
                    old(self).waiters@[i].0,
                    probe,
                    canceled,
                ),
            final(self).acquired == old(self).settled().len() + leases_in(r@),
            forall|k: KeyView| #[trigger]
                final(self).outstanding().count(k) == old(self).settled().count(k) + leases_for(
                    r@,
                    k,
                ),
            forall|k: KeyView| front_of(#[trigger] final(self).idle(k), old(self).rested(k, now)),
            front_of(old(self).closing(), final(self).to_close@),
            old(self).pool.modified ==> {
                &&& final(self).pool.keys@.len() == 0
                &&& final(self).pool.to_close@.len() == 0
                &&& final(self).pool.to_release@.len() == 0
                &&& !final(self).pool.modified
                &&& forall|k: KeyView, j: int|
                    0 <= j < old(self).incoming(k, now).len() && stale(
                        #[trigger] old(self).incoming(k, now)[j],
                        now,
                        old(self).conn_keep_alive,
                        old(self).conn_lifetime,
                    ) ==> final(self).to_close@.contains(old(self).incoming(k, now)[j].1)
            },
            !old(self).pool.modified ==> final(self).pool == old(self).pool,
            final(self).connector == old(self).connector,
            final(self).limit == old(self).limit,
            final(self).limit_per_host == old(self).limit_per_host,
            final(self).conn_keep_alive == old(self).conn_keep_alive,
            final(self).conn_lifetime == old(self).conn_lifetime,
            final(self).next_waiter == old(self).next_waiter,
    {
        if self.pool.modified {
            self.drain(now);
        }
        let ghost settled = *self;
        assert(settled.outstanding() == old(self).settled());
        proof {
            assert forall|k: KeyView| #[trigger] settled.idle(k) == old(self).rested(k, now) by {}
            assert(front_of(old(self).closing(), settled.to_close@)) by {
                let c = old(self).to_close@;
                assert(c.take(c.len() as int) =~= c);
            }
        }
        let expired = self.collect_waiters(now);
        let ghost live = self.waiters@;
        let ghost sifted = *self;
        let ghost gone = expired@;
        let mut actions: Vec<WaiterAction<T>> = Vec::new();
        let mut x: usize = 0;
        while x < expired.len()
            invariant
                x <= expired.len(),
                expired@ == gone,
                actions@.len() == x,
                forall|j: int|
                    0 <= j < x ==> #[trigger] actions@[j] == WaiterAction::<T>::Expired(gone[j]),
                leases_in(actions@) == 0,
            decreases expired.len() - x,
        {
            let ghost acts = actions@;
            actions.push(WaiterAction::Expired(expired[x]));
            proof {
                assert(actions@.drop_last() =~= acts);
            }
            x += 1;
        }
        let ghost told = actions@;
        let ghost olds = old(self).waiters@;
        let mut table: Vec<(Key, VecDeque<Waiter>)> = Vec::new();
        core::mem::swap(&mut self.waiters, &mut table);
        self.wait_timeout = None;
        let n = table.len();
        let mut i: usize = 0;
        proof {
            assert(actions@.skip(told.len() as int) =~= Seq::<WaiterAction<T>>::empty());
            assert(told.take(told.len() as int) =~= told);
            assert(settled.waiters@ == olds);
            assert forall|k: KeyView| front_of(#[trigger] self.idle(k), sifted.idle(k)) by {
                let q = sifted.idle(k);
                assert(self.idle(k) == q);
                assert(q.take(q.len() as int) =~= q);
            }
            assert(front_of(sifted.to_close@, self.to_close@)) by {
                let c = sifted.to_close@;
                assert(c.take(c.len() as int) =~= c);
            }
            assert(self.outstanding() == sifted.outstanding());
        }
        while i < n
            invariant
                sifted.wf(),
                self.wf(),
                forall|k: KeyView| front_of(#[trigger] self.idle(k), sifted.idle(k)),
                front_of(sifted.to_close@, self.to_close@),
                forall|k: KeyView| #[trigger]
                    self.outstanding().count(k) == sifted.outstanding().count(k) + leases_for(
                        actions@.skip(told.len() as int),
                        k,
                    ),
                forall|t: &T| probe.requires((t,)),
                forall|id: u64| canceled.requires((id,)),
                live == sifted.waiters@,
                n == live.len(),
                i <= n,
                table@.len() == n,
                self.waiters@.len() == 0,
                self.wait_timeout is None,
                told.len() <= actions@.len(),
                actions@.take(told.len() as int) == told,
                forall|j: int| told.len() <= j < actions@.len() ==> !(#[trigger] actions@[j] is Expired),
                forall|j: int| 0 <= j < n ==> (#[trigger] table@[j]).0 == live[j].0,
                forall|j: int| i <= j < n ==> (#[trigger] table@[j]) == live[j],
                forall|j: int|
                    0 <= j < i ==> (#[trigger] table@[j]).1@.len() <= live[j].1@.len()
                        && table@[j].1@ == live[j].1@.skip(
                        live[j].1@.len() - table@[j].1@.len(),
                    ),
                forall|j: int|
                    0 <= j < i && (#[trigger] table@[j]).1@.len() > 0 ==> self.blocked(
                        table@[j].0@,
                    ),
                self.acquired == sifted.acquired + leases_in(actions@.skip(told.len() as int)),
                olds.len() == n,
                told.len() == expired_all(olds, now).len(),
                forall|j: int|
                    0 <= j < n ==> (#[trigger] live[j]).0 == olds[j].0 && live[j].1@ == live_only(
                        olds[j].1@,
                        now,
                    ),
                actions@.len() == told.len() + left_before(olds, table@, now, i as int),
                forall|b: int, j: int|
                    0 <= b < i && 0 <= j < left_at(olds, table@, now, b) ==> served_as(
                        #[trigger] actions@[place(olds, table@, now, b, j)],
                        live_only(olds[b].1@, now)[j],
                        olds[b].0,
                        probe,
                        canceled,
                    ),
                *self == (ClientConnector {
                    acquired: self.acquired,
                    acquired_per_host: self.acquired_per_host,
                    issued: self.issued,
                    available: self.available,
                    to_close: self.to_close,
                    waiters: self.waiters,
                    wait_timeout: self.wait_timeout,
                    ..sifted
                }),
            decreases n - i,
        {
            let ghost acts = actions@;
            let ghost before = *self;
            let ghost tab = table@;
            let entry = &mut table[i];
            self.serve(&entry.0, &mut entry.1, now, probe, canceled, &mut actions);
            proof {
                lemma_left_before_same(olds, tab, table@, now, i as int);
                assert(left_before(olds, table@, now, i + 1) == left_before(
                    olds,
                    table@,
                    now,
                    i as int,
                ) + left_at(olds, table@, now, i as int));
                assert(tab[i as int].1@ == live_only(olds[i as int].1@, now));
                assert forall|b: int, j: int|
                    0 <= b < i + 1 && 0 <= j < left_at(olds, table@, now, b) implies served_as(
                    #[trigger] actions@[place(olds, table@, now, b, j)],
                    live_only(olds[b].1@, now)[j],
                    olds[b].0,
                    probe,
                    canceled,
                ) by {
                    if b < i {
                        assert(table@[b] == tab[b]);
                        lemma_left_before_same(olds, tab, table@, now, b);
                        assert forall|x: int| 0 <= x < i implies left_at(olds, tab, now, x)
                            >= 0 by {
                            assert(tab[x].1@.len() <= live[x].1@.len());
                        }
                        lemma_left_before_upper(olds, tab, now, b, i as int);
                        let at = place(olds, tab, now, b, j);
                        assert(at == place(olds, table@, now, b, j));
                        assert(left_at(olds, tab, now, b) == left_at(olds, table@, now, b));
                        assert(served_as(
                            acts[place(olds, tab, now, b, j)],
                            live_only(olds[b].1@, now)[j],
                            olds[b].0,
                            probe,
                            canceled,
                        ));
                        assert(0 <= at < acts.len());
                        assert(actions@.take(acts.len() as int)[at] == acts[at]);
                    } else {
                        assert(place(olds, table@, now, b, j) == acts.len() + j);
                        assert(served_as(
                            actions@[acts.len() + j],
                            tab[i as int].1@[j],
                            tab[i as int].0,
                            probe,
                            canceled,
                        ));
                        assert(tab[i as int].0 == olds[i as int].0);
                    }
                }
                let key = live[i as int].0@;
                let fresh = actions@.skip(acts.len() as int);
                let grown = leases_in(fresh);
                assert(actions@.take(told.len() as int) =~= told) by {
                    assert(actions@.take(acts.len() as int) == acts);
                }
                assert(actions@.skip(told.len() as int) =~= acts.skip(told.len() as int)
                    + fresh) by {
                    assert(actions@.take(acts.len() as int) == acts);
                }
                lemma_leases_concat(acts.skip(told.len() as int), fresh);
                lemma_with_leases(before.outstanding(), key, grown);
                assert forall|j: int| 0 <= j < fresh.len() && (#[trigger] fresh[j]).leases() implies fresh[j].leases_of(
                    key,
                ) by {
                    assert(fresh[j] == actions@[acts.len() + j]);
                    assert(served_as(
                        actions@[acts.len() + j],
                        tab[i as int].1@[j],
                        tab[i as int].0,
                        probe,
                        canceled,
                    ));
                }
                assert forall|k: KeyView| #[trigger]
                    self.outstanding().count(k) == sifted.outstanding().count(k) + leases_for(
                        actions@.skip(told.len() as int),
                        k,
                    ) by {
                    lemma_leases_for_concat(acts.skip(told.len() as int), fresh, k);
                    lemma_leases_for_one(fresh, key, k);
                    assert(before.outstanding().count(k) == sifted.outstanding().count(k)
                        + leases_for(acts.skip(told.len() as int), k));
                }
                assert forall|k: KeyView| front_of(#[trigger] self.idle(k), sifted.idle(k)) by {
                    assert(front_of(before.idle(k), sifted.idle(k)));
                    if k == key {
                        lemma_front_of(self.idle(k), before.idle(k), sifted.idle(k));
                    }
                }
                lemma_front_of(sifted.to_close@, before.to_close@, self.to_close@);
                assert forall|j: int| told.len() <= j < actions@.len() implies !(
                #[trigger] actions@[j] is Expired) by {
                    if j < acts.len() {
                        assert(actions@.take(acts.len() as int)[j] == acts[j]);
                    } else {
                        let a = actions@[acts.len() + (j - acts.len())];
                        assert(!(a is Expired));
                    }
                }
                assert forall|j: int| 0 <= j < i && (#[trigger] table@[j]).1@.len()
                    > 0 implies self.blocked(table@[j].0@) by {
                    assert(table@[j] == tab[j]);
                    assert(before.blocked(tab[j].0@));
                    let kj = tab[j].0@;
                    assert(live[j].0@ != live[i as int].0@);
                    assert(before.per_host(kj) == before.issued@.count(kj));
                    assert(self.per_host(kj) == self.issued@.count(kj));
                }
            }
            i += 1;
        }
        let next = earliest_of(&table);
        let ghost served = *self;
        core::mem::swap(&mut self.waiters, &mut table);
        self.wait_timeout = next;
        proof {
            assert(self.outstanding() == served.outstanding());
            assert forall|k: KeyView| #[trigger] self.idle(k) == served.idle(k) by {}
            lemma_same_keys(live, self.waiters@);
            lemma_leases_concat(told, actions@.skip(told.len() as int));
            assert(told + actions@.skip(told.len() as int) =~= actions@);
            assert forall|k: KeyView| #[trigger]
                self.outstanding().count(k) == old(self).settled().count(k) + leases_for(
                    actions@,
                    k,
                ) by {
                lemma_leases_for_concat(told, actions@.skip(told.len() as int), k);
                lemma_leases_for_one(told, k, k);
                assert(served.outstanding().count(k) == sifted.outstanding().count(k)
                    + leases_for(actions@.skip(told.len() as int), k));
            }
            assert forall|k: KeyView| front_of(
                #[trigger] self.idle(k),
                old(self).rested(k, now),
            ) by {
                assert(front_of(served.idle(k), sifted.idle(k)));
                assert(sifted.idle(k) == settled.idle(k));
            }
            lemma_front_of(old(self).closing(), sifted.to_close@, self.to_close@);
            if old(self).pool.modified {
                assert forall|k: KeyView, j: int|
                    0 <= j < old(self).incoming(k, now).len() && stale(
                        #[trigger] old(self).incoming(k, now)[j],
                        now,
                        old(self).conn_keep_alive,
                        old(self).conn_lifetime,
                    ) implies self.to_close@.contains(old(self).incoming(k, now)[j].1) by {
                    let c = old(self).incoming(k, now)[j].1;
                    assert(settled.to_close@.contains(c));
                    let w = choose|w: int|
                        0 <= w < settled.to_close@.len() && settled.to_close@[w] == c;
                    assert(self.to_close@.take(settled.to_close@.len() as int)[w]
                        == self.to_close@[w]);
                }
            }
            assert forall|j: int| 0 <= j < gone.len() implies #[trigger] actions@[j]
                == WaiterAction::<T>::Expired(gone[j]) by {
                assert(actions@.take(told.len() as int)[j] == told[j]);
            }
            assert forall|k: KeyView|
                (#[trigger] self.queue(k)).len() <= live_only(old(self).queue(k), now).len()
                    && self.queue(k) == live_only(old(self).queue(k), now).skip(
                    live_only(old(self).queue(k), now).len() - self.queue(k).len(),
                ) by {
                assert(sifted.queue(k) == live_only(settled.queue(k), now));
                if has_key(live, k) {
                    let j = slot_of(live, k);
                    assert(self.waiters@[j].0 == live[j].0);
                } else {
                    assert(sifted.queue(k).skip(0) =~= sifted.queue(k));
                }
            }
            assert forall|k: KeyView| (#[trigger] self.queue(k)).len() > 0 implies self.blocked(
                k,
            ) by {
                let j = slot_of(live, k);
                assert(self.waiters@[j].0 == live[j].0);
            }
        }
        actions
    }
}


/// The protocol that a URI asks for: none where the URI has no host, no
/// scheme, or a scheme that is not served.
pub open spec fn protocol_for(uri: TargetView) -> Option<Protocol> {
    if uri.1 is None {
        None
    } else {
        match uri.0 {
            Some(scheme) => protocol_of(scheme),
            None => None,
        }
    }
}

/// The key of the endpoint of a URI with a host: its host, its port or
/// else the default port of the protocol, and whether the protocol is
/// secure.
pub open spec fn key_for(uri: TargetView, proto: Protocol) -> KeyView {
    (
        uri.1->0,
        match uri.2 {
            Some(port) => port,
            None => proto.spec_port(),
        },
        proto.spec_is_secure(),
    )
}

/// The instant that lies `period` after `now`, or the last instant there
/// is.
pub open spec fn deadline(now: Millis, period: Millis) -> Millis {
    if now + period > u64::MAX {
        u64::MAX
    } else {
        (now + period) as u64
    }
}

/// Whether limits `limit` and `limit_per_host` leave no slot for `k` when
/// the leases `m` are out.
pub open spec fn blocked_by(
    m: Multiset<KeyView>,
    limit: usize,
    limit_per_host: usize,
    k: KeyView,
) -> bool {
    ||| limit > 0 && m.len() >= limit
    ||| limit_per_host > 0 && m.count(k) >= limit_per_host
    ||| m.len() == usize::MAX
}

/// Derives key and protocol from the parts of a URI. `tls` says whether a
/// TLS backend is present.
pub fn resolve_target(uri: &Target, tls: bool) -> (r: Result<(Key, Protocol), ClientConnectorError>)
    ensures
        protocol_for(uri@) is None ==> r == Err::<(Key, Protocol), _>(
            ClientConnectorError::InvalidUrl,
        ),
        protocol_for(uri@) matches Some(p) ==> if p.spec_is_secure() && !tls {
            r == Err::<(Key, Protocol), _>(ClientConnectorError::SslIsNotSupported)
        } else {
            r matches Ok(kp) && kp.1 == p && kp.0@ == key_for(uri@, p)
        },
{
    let host = match &uri.host {
        Some(host) => host,
        None => {
            return Err(ClientConnectorError::InvalidUrl);
        },
    };
    let proto = match &uri.scheme {
        Some(scheme) => match Protocol::from(scheme.as_str()) {
            Some(proto) => proto,
            None => {
                return Err(ClientConnectorError::InvalidUrl);
            },
        },
        None => {
            return Err(ClientConnectorError::InvalidUrl);
        },
    };
    if proto.is_secure() && !tls {
        return Err(ClientConnectorError::SslIsNotSupported);
    }
    let port = match uri.port {
        Some(port) => port,
        None => proto.port(),
    };
    Ok((Key { host: host.clone(), port, ssl: proto.is_secure() }, proto))
}

/// What the connector decides on a request for a connection.
#[derive(Debug)]
pub enum ConnectAction<T> {
    /// The request fails.
    Fail(ClientConnectorError),
    /// An idle connection is handed out, with a slot.
    Reuse(Connection<T>),
    /// No slot is free: the request waits in the queue of its key.
    Wait(Waiter),
    /// A connection has to be dialled for the slot: within `conn_timeout`,
    /// and with a TLS handshake where `secure` is set.
    Dial { slot: AcquiredConn, secure: bool, conn_timeout: Millis },
}

impl<T, C> ClientConnector<T, C> {
    /// Decides on a request for a connection. A URI without host, without
    /// scheme or with a scheme that is not served fails as invalid; a
    /// secure scheme fails where there is no TLS backend. The protocols
    /// that are not pooled are dialled without a slot. For the others
    /// admission decides: where it finds no slot the request joins the
    /// queue of its key and gives up `wait_time` after `now`; where it
    /// finds an idle connection that is handed out; else the caller dials.
    pub fn connect<P: Fn(&T) -> Probe>(&mut self, msg: Connect, now: Millis, probe: &P) -> (r:
        ConnectAction<T>)
        requires
            old(self).wf(),
            forall|t: &T| probe.requires((t,)),
        ensures
            final(self).wf(),
            protocol_for(msg.uri@) is None ==> r == ConnectAction::<T>::Fail(
                ClientConnectorError::InvalidUrl,
            ) && *final(self) == *old(self),
            protocol_for(msg.uri@) matches Some(p) ==> {
                let key = key_for(msg.uri@, p);
                if p.spec_is_secure() && old(self).connector is None {
                    r == ConnectAction::<T>::Fail(ClientConnectorError::SslIsNotSupported)
                        && *final(self) == *old(self)
                } else if !p.spec_is_http() {
                    &&& r matches ConnectAction::Dial { slot, secure, conn_timeout }
                    &&& slot.0@ == key
                    &&& !slot.1
                    &&& secure == p.spec_is_secure()
                    &&& conn_timeout == msg.conn_timeout
                    &&& *final(self) == *old(self)
                } else if old(self).blocked(key) {
                    &&& r matches ConnectAction::Wait(w)
                    &&& w == (Waiter {
                        id: old(self).next_waiter,
                        wait: deadline(now, msg.wait_time),
                        conn_timeout: msg.conn_timeout,
                    })
                    &&& final(self).queue(key) == old(self).queue(key).push(w)
                    &&& forall|k: KeyView| k != key ==> final(self).queue(k) == old(self).queue(k)
                    &&& final(self).wait_timeout == sooner(old(self).wait_timeout, Some(w.wait))
                    &&& *final(self) == (ClientConnector {
                        waiters: final(self).waiters,
                        wait_timeout: final(self).wait_timeout,
                        next_waiter: final(self).next_waiter,
                        ..*old(self)
                    })
                } else {
                    &&& final(self).acquired == old(self).acquired + 1
                    &&& final(self).outstanding() == old(self).outstanding().insert(key)
                    &&& forall|k: KeyView| k != key ==> final(self).idle(k) == old(self).idle(k)
                    &&& final(self).idle(key).len() <= old(self).idle(key).len()
                    &&& final(self).idle(key) == old(self).idle(key).take(
                        final(self).idle(key).len() as int,
                    )
                    &&& front_of(old(self).to_close@, final(self).to_close@)
                    &&& *final(self) == (ClientConnector {
                        acquired: final(self).acquired,
                        acquired_per_host: final(self).acquired_per_host,
                        issued: final(self).issued,
                        available: final(self).available,
                        to_close: final(self).to_close,
                        ..*old(self)
                    })
                    &&& match r {
                        ConnectAction::Reuse(c) => {
                            let n = final(self).idle(key).len() as int;
                            &&& n < old(self).idle(key).len()
                            &&& c.stream == old(self).idle(key)[n].1.stream
                            &&& c.ts == old(self).idle(key)[n].1.ts
                            &&& c.key@ == key
                            &&& c.pool matches Some(slot) && slot.0@ == key && slot.1
                            &&& !stale(
                                old(self).idle(key)[n],
                                now,
                                old(self).conn_keep_alive,
                                old(self).conn_lifetime,
                            )
                            &&& probe.ensures((&c.stream,), Probe::Idle)
                        },
                        ConnectAction::Dial { slot, secure, conn_timeout } => {
                            &&& slot.0@ == key
                            &&& slot.1
                            &&& secure == p.spec_is_secure()
                            &&& conn_timeout == msg.conn_timeout
                            &&& final(self).idle(key).len() == 0
                        },
                        _ => false,
                    }
                }
            },
    {
        let tls = self.connector.is_some();
        let (key, proto) = match resolve_target(&msg.uri, tls) {
            Ok(kp) => kp,
            Err(err) => {
                return ConnectAction::Fail(err);
            },
        };
        if !proto.is_http() {
            return ConnectAction::Dial {
                slot: AcquiredConn(key, false),
                secure: proto.is_secure(),
                conn_timeout: msg.conn_timeout,
            };
        }
        match self.acquire(&key, now, probe) {
            Acquire::Acquired(conn) => {
                let mut conn = conn;
                proof {
                    let j = self.idle(key@).len() as int;
                    assert(has_key(old(self).available@, key@));
                    let b = slot_of(old(self).available@, key@);
                    assert(bucket_ok(old(self).available@[b].0@, old(self).available@[b].1@));
                    assert(old(self).idle(key@)[j].1.key@ == key@);
                }
                conn.pool = Some(AcquiredConn(key, true));
                ConnectAction::Reuse(conn)
            },
            Acquire::NotAvailable => {
                let waiter = self.enqueue(&key, now, msg.wait_time, msg.conn_timeout);
                ConnectAction::Wait(waiter)
            },
            Acquire::Available => ConnectAction::Dial {
                slot: AcquiredConn(key, true),
                secure: proto.is_secure(),
                conn_timeout: msg.conn_timeout,
            },
        }
    }

    /// Handles a request for a connection: reads the mailbox as
    /// [`Self::drain`] does it if it is marked as modified, then decides
    /// as [`Self::connect`] does it.
    pub fn handle<P: Fn(&T) -> Probe>(&mut self, msg: Connect, now: Millis, probe: &P) -> (r:
        ConnectAction<T>)
        requires
            old(self).wf(),
            forall|t: &T| probe.requires((t,)),
        ensures
            final(self).wf(),
            protocol_for(msg.uri@) is None ==> r == ConnectAction::<T>::Fail(
                ClientConnectorError::InvalidUrl,
            ),
            protocol_for(msg.uri@) matches Some(p) ==> {
                let key = key_for(msg.uri@, p);
                if p.spec_is_secure() && old(self).connector is None {
                    r == ConnectAction::<T>::Fail(ClientConnectorError::SslIsNotSupported)
                } else if !p.spec_is_http() {
                    &&& r matches ConnectAction::Dial { slot, secure, conn_timeout }
                    &&& slot.0@ == key
                    &&& !slot.1
                    &&& secure == p.spec_is_secure()
                    &&& conn_timeout == msg.conn_timeout
                } else if blocked_by(
                    old(self).settled(),
                    old(self).limit,
                    old(self).limit_per_host,
                    key,
                ) {
                    &&& r matches ConnectAction::Wait(w)
                    &&& w == (Waiter {
                        id: old(self).next_waiter,
                        wait: deadline(now, msg.wait_time),
                        conn_timeout: msg.conn_timeout,
                    })
                    &&& final(self).queue(key) == old(self).queue(key).push(w)
                    &&& forall|k: KeyView| k != key ==> final(self).queue(k) == old(self).queue(k)
                    &&& final(self).wait_timeout == sooner(old(self).wait_timeout, Some(w.wait))
                    &&& final(self).outstanding() == old(self).settled()
                } else {
                    &&& final(self).outstanding() == old(self).settled().insert(key)
                    &&& match r {
                        ConnectAction::Reuse(c) => {
                            &&& c.key@ == key
                            &&& c.pool matches Some(slot) && slot.0@ == key && slot.1
                            &&& probe.ensures((&c.stream,), Probe::Idle)
                        },
                        ConnectAction::Dial { slot, secure, conn_timeout } => {
                            &&& slot.0@ == key
                            &&& slot.1
                            &&& secure == p.spec_is_secure()
                            &&& conn_timeout == msg.conn_timeout
                            &&& final(self).idle(key).len() == 0
                        },
                        _ => false,
                    }
                }
            },
            protocol_for(msg.uri@) is None || !(protocol_for(msg.uri@)->0).spec_is_http() || (
            protocol_for(msg.uri@)->0).spec_is_secure() && old(self).connector is None
                ==> final(self).outstanding() == old(self).settled() && forall|k: KeyView|
                final(self).queue(k) == old(self).queue(k),
            forall|k: KeyView| front_of(#[trigger] final(self).idle(k), old(self).rested(k, now)),
            forall|k: KeyView|
                (protocol_for(msg.uri@) matches Some(p) ==> k != key_for(msg.uri@, p))
                    ==> #[trigger] final(self).idle(k) == old(self).rested(k, now),
            !(r is Reuse) && !(r matches ConnectAction::Dial { slot, .. } && slot.1)
                ==> forall|k: KeyView| #[trigger] final(self).idle(k) == old(self).rested(k, now),
            r matches ConnectAction::Reuse(c) ==> {
                let q = old(self).rested(c.key@, now);
                let n = final(self).idle(c.key@).len() as int;
                &&& n < q.len()
                &&& c.stream == q[n].1.stream
                &&& c.ts == q[n].1.ts
                &&& !stale(q[n], now, old(self).conn_keep_alive, old(self).conn_lifetime)
            },
            front_of(old(self).closing(), final(self).to_close@),
            old(self).pool.modified ==> {
                &&& final(self).pool.keys@.len() == 0
                &&& final(self).pool.to_close@.len() == 0
                &&& final(self).pool.to_release@.len() == 0
                &&& !final(self).pool.modified
                &&& forall|k: KeyView, j: int|
                    0 <= j < old(self).incoming(k, now).len() && stale(
                        #[trigger] old(self).incoming(k, now)[j],
                        now,
                        old(self).conn_keep_alive,
                        old(self).conn_lifetime,
                    ) ==> final(self).to_close@.contains(old(self).incoming(k, now)[j].1)
            },
            !old(self).pool.modified ==> final(self).pool == old(self).pool,
            *final(self) == (ClientConnector {
                pool: final(self).pool,
                acquired: final(self).acquired,
                acquired_per_host: final(self).acquired_per_host,
                issued: final(self).issued,
                available: final(self).available,
                to_close: final(self).to_close,
                waiters: final(self).waiters,
                wait_timeout: final(self).wait_timeout,
                next_waiter: final(self).next_waiter,
                ..*old(self)
            }),
    {
        if self.pool.modified {
            self.drain(now);
        }
        let ghost mid = *self;
        proof {
            assert(self.outstanding() == old(self).settled());
            assert forall|k: KeyView| self.queue(k) == old(self).queue(k) by {}
            if protocol_for(msg.uri@) is Some {
                let key = key_for(msg.uri@, protocol_for(msg.uri@)->0);
                assert(self.per_host(key) == self.issued@.count(key));
            }
            assert forall|k: KeyView| #[trigger] mid.idle(k) == old(self).rested(k, now) by {}
            assert(front_of(old(self).closing(), mid.to_close@)) by {
                let c = old(self).to_close@;
                assert(c.take(c.len() as int) =~= c);
            }
        }
        let r = self.connect(msg, now, probe);
        let ghost res = r;
        proof {
            let admitted = res is Reuse || (res matches ConnectAction::Dial { slot, .. } && slot.1);
            assert(front_of(mid.to_close@, self.to_close@)) by {
                let c = mid.to_close@;
                assert(c.take(c.len() as int) =~= c);
            }
            lemma_front_of(old(self).closing(), mid.to_close@, self.to_close@);
            assert forall|k: KeyView| front_of(
                #[trigger] self.idle(k),
                old(self).rested(k, now),
            ) by {
                let q = mid.idle(k);
                assert(q.take(q.len() as int) =~= q);
                assert(self.idle(k) == q || (admitted && self.idle(k) == q.take(
                    self.idle(k).len() as int,
                ) && self.idle(k).len() <= q.len()));
            }
            assert forall|k: KeyView|
                (protocol_for(msg.uri@) matches Some(p) ==> k != key_for(msg.uri@, p))
                    implies #[trigger] self.idle(k) == old(self).rested(k, now) by {
                assert(self.idle(k) == mid.idle(k));
            }
            if !admitted {
                assert forall|k: KeyView| #[trigger]
                    self.idle(k) == old(self).rested(k, now) by {
                    assert(self.idle(k) == mid.idle(k));
                }
            }
            if old(self).pool.modified {
                assert forall|k: KeyView, j: int|
                    0 <= j < old(self).incoming(k, now).len() && stale(
                        #[trigger] old(self).incoming(k, now)[j],
                        now,
                        old(self).conn_keep_alive,
                        old(self).conn_lifetime,
                    ) implies self.to_close@.contains(old(self).incoming(k, now)[j].1) by {
                    let c = old(self).incoming(k, now)[j].1;
                    assert(mid.to_close@.contains(c));
                    let w = choose|w: int| 0 <= w < mid.to_close@.len() && mid.to_close@[w] == c;
                    assert(self.to_close@.take(mid.to_close@.len() as int)[w]
                        == self.to_close@[w]);
                }
            }
        }
        r
    }
}


/// What resolving and connecting came to, for a slot that was to be
/// dialled.
#[derive(Debug)]
pub enum Dialed<T> {
    /// The connection is made.
    Ready(Connection<T>),
    /// The byte stream is there; the TLS handshake has to follow.
    Handshake(AcquiredConn, T),
    /// No connection; the slot is given back.
    Failed(ClientConnectorError),
}

impl<T, C> ClientConnector<T, C> {
    /// Decides on what the resolver handed over for `slot`. A failure gives
    /// the slot back through the mailbox: a resolver timeout becomes
    /// `Timeout`, any other failure is passed on. A stream for a secure
    /// endpoint goes on to the handshake, or fails where there is no TLS
    /// backend. Any other stream becomes a connection made at `now`.
    pub fn establish(
        &mut self,
        slot: AcquiredConn,
        secure: bool,
        resolved: Result<T, ConnectorError>,
        now: Millis,
    ) -> (r: Dialed<T>)
        requires
            old(self).wf(),
        ensures
            final(self).wf(),
            *final(self) == (ClientConnector { pool: final(self).pool, ..*old(self) }),
            match resolved {
                Err(err) => r == Dialed::<T>::Failed(connector_failure(err)),
                Ok(stream) => if secure {
                    if old(self).connector is Some {
                        r == Dialed::Handshake(slot, stream)
                    } else {
                        r == Dialed::<T>::Failed(ClientConnectorError::SslIsNotSupported)
                    }
                } else {
                    r == Dialed::Ready(
                        Connection { key: slot.0, stream, pool: Some(slot), ts: now },
                    )
                },
            },
            r is Failed && slot.1 ==> final(self).pool.modified && final(self).pool.keys@ == old(self).pool.keys@.push(slot.0) && final(self).pool.to_close == old(self).pool.to_close
                && final(self).pool.to_release == old(self).pool.to_release,
            !(r is Failed && slot.1) ==> final(self).pool == old(self).pool,
    {
        let mut slot = slot;
        match resolved {
            Err(err) => {
                slot.discard(&mut self.pool);
                Dialed::Failed(ClientConnectorError::from(err))
            },
            Ok(stream) => {
                if secure {
                    if self.connector.is_some() {
                        Dialed::Handshake(slot, stream)
                    } else {
                        slot.discard(&mut self.pool);
                        Dialed::Failed(ClientConnectorError::SslIsNotSupported)
                    }
                } else {
                    Dialed::Ready(Connection::new(slot.0.clone(), Some(slot), stream, now))
                }
            },
        }
    }

    /// Decides on what the TLS handshake came to for `slot`: a stream
    /// becomes a connection made at `now`; a failure gives the slot back
    /// through the mailbox.
    pub fn secured(&mut self, slot: AcquiredConn, shaken: Result<T, String>, now: Millis) -> (r:
        Result<Connection<T>, ClientConnectorError>)
        requires
            old(self).wf(),
        ensures
            final(self).wf(),
            *final(self) == (ClientConnector { pool: final(self).pool, ..*old(self) }),
            match shaken {
                Ok(stream) => r == Ok::<_, ClientConnectorError>(
                    Connection { key: slot.0, stream, pool: Some(slot), ts: now },
                ) && final(self).pool == old(self).pool,
                Err(err) => r == Err::<Connection<T>, _>(ClientConnectorError::SslError(err)) && (
                slot.1 ==> final(self).pool.modified && final(self).pool.keys@ == old(self).pool.keys@.push(slot.0) && final(self).pool.to_close == old(self).pool.to_close
                    && final(self).pool.to_release == old(self).pool.to_release) && (!slot.1
                    ==> final(self).pool == old(self).pool),
            },
    {
        let mut slot = slot;
        match shaken {
            Ok(stream) => Ok(Connection::new(slot.0.clone(), Some(slot), stream, now)),
            Err(err) => {
                slot.discard(&mut self.pool);
                Err(ClientConnectorError::SslError(err))
            },
        }
    }
}

/// Pool accounting: in every state of the connector the count of leases
/// equals the sum of the counts per endpoint, and both equal the number of
/// leases that are out; the count for each endpoint is the number of leases
/// that are out for it.
pub proof fn lemma_pool_accounting<T, C>(c: ClientConnector<T, C>)
    requires
        c.wf(),
    ensures
        c.acquired == total(c.acquired_per_host@),
        c.acquired == c.outstanding().len(),
        forall|k: KeyView| c.per_host(k) == c.outstanding().count(k),
{
    assert forall|k: KeyView| c.per_host(k) == c.outstanding().count(k) by {
        assert(c.per_host(k) == c.issued@.count(k));
    }
}

/// Waiter fairness: of the waiters of one queue whose deadline has not come,
/// a maintenance pass serves a front part and leaves the rest as it stood.
/// So where a waiter is served, each one that came before it is served too,
/// and its action stands earlier among the actions of the pass; and where a
/// waiter stays, each one that came after it stays behind it.
pub proof fn lemma_waiter_fairness(
    before: Seq<(Key, VecDeque<Waiter>)>,
    after: Seq<(Key, VecDeque<Waiter>)>,
    now: Millis,
    i: int,
    a: int,
    b: int,
)
    requires
        0 <= i < before.len(),
        before.len() == after.len(),
        after[i].1@.len() <= live_only(before[i].1@, now).len(),
        after[i].1@ == live_only(before[i].1@, now).skip(left_at(before, after, now, i)),
        0 <= a < b < live_only(before[i].1@, now).len(),
    ensures
        b < left_at(before, after, now, i) ==> a < left_at(before, after, now, i) && place(
            before,
            after,
            now,
            i,
            a,
        ) < place(before, after, now, i, b),
        a >= left_at(before, after, now, i) ==> after[i].1@[a - left_at(before, after, now, i)]
            == live_only(before[i].1@, now)[a] && after[i].1@[b - left_at(before, after, now, i)]
            == live_only(before[i].1@, now)[b],
{
}

/// Idle discipline: an idle connection that is older than the larger of
/// keep-alive period and lifetime is stale, so that no pass over the idle
/// set leaves it there.
pub proof fn lemma_idle_discipline<T>(c: Conn<T>, now: Millis, keep_alive: Millis, lifetime: Millis)
    requires
        elapsed(now, c.1.ts) > keep_alive,
        elapsed(now, c.1.ts) > lifetime,
    ensures
        stale(c, now, keep_alive, lifetime),
{
}

} // verus!
