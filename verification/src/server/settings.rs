//! Settings of a server and of one of its workers.

use vstd::prelude::*;

verus! {

/// Settings of a server: the address it listens on, in text; whether its
/// connections are secure; and the host it answers as.
#[derive(Debug)]
pub struct ServerSettings {
    pub addr: Option<String>,
    pub secure: bool,
    pub host: String,
}

impl Clone for ServerSettings {
    fn clone(&self) -> (r: ServerSettings)
        ensures
            r == *self,
    {
        ServerSettings {
            addr: match &self.addr {
                Some(addr) => Some(addr.clone()),
                None => None,
            },
            secure: self.secure,
            host: self.host.clone(),
        }
    }
}

impl Default for ServerSettings {
    /// Settings of a server without address: it is not secure and answers
    /// as `localhost:8080`.
    fn default() -> (r: ServerSettings)
        ensures
            r.addr is None,
            !r.secure,
            r.host@ == "localhost:8080"@,
    {
        ServerSettings { addr: None, secure: false, host: "localhost:8080".to_owned() }
    }
}

/// The host that a server answers as: the one it is given; else the
/// address it listens on; else `localhost`.
pub open spec fn host_for(addr: Option<Seq<char>>, host: Option<Seq<char>>) -> Seq<char> {
    match host {
        Some(host) => host,
        None => match addr {
            Some(addr) => addr,
            None => "localhost"@,
        },
    }
}

impl ServerSettings {
    /// Settings of a server that listens on `addr`.
    pub fn new(addr: Option<String>, host: &Option<String>, secure: bool) -> (r: ServerSettings)
        ensures
            r.addr == addr,
            r.secure == secure,
            r.host@ == host_for(
                match addr {
                    Some(a) => Some(a@),
                    None => None,
                },
                match *host {
                    Some(h) => Some(h@),
                    None => None,
                },
            ),
    {
        let host = match host {
            Some(host) => host.clone(),
            None => match &addr {
                Some(addr) => addr.clone(),
                None => "localhost".to_owned(),
            },
        };
        ServerSettings { addr, secure, host }
    }

    /// The address that the server listens on.
    pub fn local_addr(&self) -> (r: Option<&String>)
        ensures
            r == match self.addr {
                Some(a) => Some(&a),
                None => None,
            },
    {
        self.addr.as_ref()
    }

    /// Whether the connections are secure.
    pub fn secure(&self) -> (r: bool)
        ensures
            r == self.secure,
    {
        self.secure
    }

    /// The host that the server answers as.
    pub fn host(&self) -> (r: &str)
        ensures
            r@ == self.host@,
    {
        self.host.as_str()
    }
}

/// The open channels of a worker.
#[derive(Debug)]
pub struct Node<T> {
    pub channels: Vec<T>,
}

impl<T> Node<T> {
    /// The head of a list without channels.
    pub fn head() -> (r: Node<T>)
        ensures
            r.channels@.len() == 0,
    {
        Node { channels: Vec::new() }
    }
}

/// The most buffers, and the most messages, that a worker keeps for use
/// again.
pub const POOL_LIMIT: usize = 128;

/// A message head that is used again from request to request.
#[derive(Debug)]
pub struct SharedHttpInnerMessage {
    pub keep_alive: bool,
    pub upgrade: bool,
    pub headers: Vec<(String, String)>,
}

impl SharedHttpInnerMessage {
    /// Whether the message holds nothing of a request.
    pub open spec fn is_blank(&self) -> bool {
        self.keep_alive && !self.upgrade && self.headers@.len() == 0
    }
}

/// Settings of a worker: its handlers, the keep-alive period, the buffers
/// and messages it keeps for use again, and the channels it has open.
pub struct WorkerSettings<H> {
    pub h: Vec<H>,
    pub enabled: bool,
    pub keep_alive: u64,
    pub bytes: Vec<Vec<u8>>,
    pub messages: Vec<SharedHttpInnerMessage>,
    pub channels: usize,
    pub node: Node<()>,
}

impl<H> WorkerSettings<H> {
    /// The invariant of the settings: what is kept for use again is
    /// blank, and no more of it is kept than the limit allows.
    pub open spec fn wf(&self) -> bool {
        &&& self.bytes@.len() <= POOL_LIMIT
        &&& self.messages@.len() <= POOL_LIMIT
        &&& forall|i: int| 0 <= i < self.bytes@.len() ==> (#[trigger] self.bytes@[i])@.len() == 0
        &&& forall|i: int|
            0 <= i < self.messages@.len() ==> (#[trigger] self.messages@[i]).is_blank()
    }

    /// Settings for the handlers `h`. Keep-alive is on for a period above
    /// zero.
    pub fn new(h: Vec<H>, keep_alive: Option<u64>) -> (r: WorkerSettings<H>)
        ensures
            r.wf(),
            r.h == h,
            r.enabled == (keep_alive matches Some(ka) && ka > 0),
            r.keep_alive == match keep_alive {
                Some(ka) => ka,
                None => 0,
            },
            r.channels == 0,
            r.bytes@.len() == 0,
            r.messages@.len() == 0,
    {
        WorkerSettings {
            h,
            enabled: if let Some(ka) = keep_alive {
                ka > 0
            } else {
                false
            },
            keep_alive: match keep_alive {
                Some(ka) => ka,
                None => 0,
            },
            bytes: Vec::new(),
            messages: Vec::new(),
            channels: 0,
            node: Node::head(),
        }
    }

    /// The number of open channels.
    pub fn num_channels(&self) -> (r: usize)
        ensures
            r == self.channels,
    {
        self.channels
    }

    /// The head of the list of open channels.
    pub fn head(&self) -> (r: &Node<()>)
        ensures
            *r == self.node,
    {
        &self.node
    }

    /// The handlers.
    pub fn handlers(&mut self) -> (r: &mut Vec<H>)
        ensures
            *r == old(self).h,
            *final(self) == (WorkerSettings { h: *final(r), ..*old(self) }),
    {
        &mut self.h
    }

    /// The keep-alive period in seconds.
    pub fn keep_alive(&self) -> (r: u64)
        ensures
            r == self.keep_alive,
    {
        self.keep_alive
    }

    /// Whether connections are kept alive.
    pub fn keep_alive_enabled(&self) -> (r: bool)
        ensures
            r == self.enabled,
    {
        self.enabled
    }

    /// An empty buffer: one that was kept for use again, the last given
    /// back first, or a new one.
    pub fn get_shared_bytes(&mut self) -> (r: Vec<u8>)
        requires
            old(self).wf(),
        ensures
            final(self).wf(),
            r@.len() == 0,
            final(self).bytes@ == if old(self).bytes@.len() > 0 {
                old(self).bytes@.drop_last()
            } else {
                old(self).bytes@
            },
            *final(self) == (WorkerSettings { bytes: final(self).bytes, ..*old(self) }),
    {
        match self.bytes.pop() {
            Some(buf) => buf,
            None => Vec::new(),
        }
    }

    /// Gives a buffer back. It is emptied and kept for use again unless
    /// as many are kept as the limit allows.
    pub fn release_bytes(&mut self, bytes: Vec<u8>)
        requires
            old(self).wf(),
        ensures
            final(self).wf(),
            old(self).bytes@.len() < POOL_LIMIT ==> final(self).bytes@.len() == old(self).bytes@.len() + 1 && final(self).bytes@.drop_last() == old(self).bytes@,
            old(self).bytes@.len() >= POOL_LIMIT ==> final(self).bytes == old(self).bytes,
            *final(self) == (WorkerSettings { bytes: final(self).bytes, ..*old(self) }),
    {
        if self.bytes.len() < POOL_LIMIT {
            let mut bytes = bytes;
            bytes.clear();
            let ghost before = self.bytes@;
            self.bytes.push(bytes);
            assert(self.bytes@.drop_last() =~= before);
        }
    }

    /// A blank message: one that was kept for use again, the last given
    /// back first, or a new one.
    pub fn get_http_message(&mut self) -> (r: SharedHttpInnerMessage)
        requires
            old(self).wf(),
        ensures
            final(self).wf(),
            r.is_blank(),
            final(self).messages@ == if old(self).messages@.len() > 0 {
                old(self).messages@.drop_last()
            } else {
                old(self).messages@
            },
            *final(self) == (WorkerSettings { messages: final(self).messages, ..*old(self) }),
    {
        match self.messages.pop() {
            Some(msg) => msg,
            None => SharedHttpInnerMessage { keep_alive: true, upgrade: false, headers: Vec::new() },
        }
    }

    /// Gives a message back. It is made blank and kept for use again
    /// unless as many are kept as the limit allows.
    pub fn release_http_message(&mut self, msg: SharedHttpInnerMessage)
        requires
            old(self).wf(),
        ensures
            final(self).wf(),
            old(self).messages@.len() < POOL_LIMIT ==> final(self).messages@.len() == old(self).messages@.len() + 1 && final(self).messages@.drop_last() == old(self).messages@,
            old(self).messages@.len() >= POOL_LIMIT ==> final(self).messages == old(self).messages,
            *final(self) == (WorkerSettings { messages: final(self).messages, ..*old(self) }),
    {
        if self.messages.len() < POOL_LIMIT {
            let mut msg = msg;
            msg.keep_alive = true;
            msg.upgrade = false;
            msg.headers.clear();
            let ghost before = self.messages@;
            self.messages.push(msg);
            assert(self.messages@.drop_last() =~= before);
        }
    }

    /// Counts a channel that was opened. The count stays where it cannot
    /// grow.
    pub fn add_channel(&mut self)
        ensures
            final(self).channels == if old(self).channels < usize::MAX {
                (old(self).channels + 1) as usize
            } else {
                old(self).channels
            },
            *final(self) == (WorkerSettings { channels: final(self).channels, ..*old(self) }),
    {
        if self.channels < usize::MAX {
            self.channels = self.channels + 1;
        }
    }

    /// Counts a channel that was closed. A count of zero stays.
    pub fn remove_channel(&mut self)
        ensures
            final(self).channels == if old(self).channels > 0 {
                (old(self).channels - 1) as usize
            } else {
                0
            },
            *final(self) == (WorkerSettings { channels: final(self).channels, ..*old(self) }),
    {
        let num = self.channels;
        if num > 0 {
            self.channels = num - 1;
        }
    }
}

} // verus!
