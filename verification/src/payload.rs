//! The bytes of a message body as they come in: a buffer that the reader
//! of the connection feeds and a parser consumes.

use vstd::prelude::*;

verus! {

/// Why a body could not be read.
#[derive(Clone, Copy, Debug, PartialEq, Eq, Structural)]
pub enum PayloadError {
    /// The peer went away before the body was complete.
    Incomplete,
    /// The content coding is corrupt.
    EncodingCorrupted,
    /// The body is larger than allowed.
    Overflow,
    /// The length of the body cannot be known.
    UnknownLength,
}

/// A value that is there, or not yet.
#[derive(Debug)]
pub enum Async<T> {
    Ready(T),
    NotReady,
}

/// The bytes received and not yet consumed, whether the stream they come
/// from has ended, and the error it ended with, if any.
#[derive(Debug)]
pub struct PayloadHelper {
    pub buf: Vec<u8>,
    pub eof: bool,
    pub err: Option<PayloadError>,
}

impl PayloadHelper {
    /// What the stream says to a reader that wants more than is there: the
    /// error it ended with, or that it has ended, or that nothing is there
    /// yet.
    pub open spec fn starved<T>(&self) -> Result<Async<Option<T>>, PayloadError> {
        match self.err {
            Some(err) => Err(err),
            None => if self.eof {
                Ok(Async::Ready(None))
            } else {
                Ok(Async::NotReady)
            },
        }
    }

    /// A stream that yields `chunk` and then ends.
    pub fn new(chunk: Vec<u8>) -> (r: PayloadHelper)
        ensures
            r == (PayloadHelper { buf: chunk, eof: true, err: None }),
    {
        PayloadHelper { buf: chunk, eof: true, err: None }
    }

    /// A stream that has yielded nothing yet.
    pub fn empty() -> (r: PayloadHelper)
        ensures
            r.buf@.len() == 0,
            !r.eof,
            r.err is None,
    {
        PayloadHelper { buf: Vec::new(), eof: false, err: None }
    }

    /// Takes in the bytes that the stream yielded.
    pub fn feed(&mut self, chunk: &[u8])
        ensures
            final(self).buf@ == old(self).buf@ + chunk@,
            final(self).eof == old(self).eof,
            final(self).err == old(self).err,
    {
        let mut i: usize = 0;
        while i < chunk.len()
            invariant
                i <= chunk.len(),
                self.buf@ == old(self).buf@ + chunk@.take(i as int),
                self.eof == old(self).eof,
                self.err == old(self).err,
            decreases chunk.len() - i,
        {
            self.buf.push(chunk[i]);
            i += 1;
            assert(self.buf@ =~= old(self).buf@ + chunk@.take(i as int));
        }
        assert(chunk@.take(chunk@.len() as int) =~= chunk@);
    }

    /// Takes note that the stream has ended.
    pub fn feed_eof(&mut self)
        ensures
            *final(self) == (PayloadHelper { eof: true, ..*old(self) }),
    {
        self.eof = true;
    }

    /// Takes note that the stream has failed.
    pub fn feed_error(&mut self, err: PayloadError)
        ensures
            *final(self) == (PayloadHelper { err: Some(err), ..*old(self) }),
    {
        self.err = Some(err);
    }

    /// The number of bytes that are there.
    pub fn len(&self) -> (r: usize)
        ensures
            r == self.buf@.len(),
    {
        self.buf.len()
    }

    /// Whether `size` bytes are there; where they are not, what the stream
    /// says.
    pub fn can_read(&self, size: usize) -> (r: Result<Async<Option<bool>>, PayloadError>)
        ensures
            self.buf@.len() >= size ==> r == Ok::<_, PayloadError>(Async::Ready(Some(true))),
            self.buf@.len() < size ==> r == self.starved::<bool>(),
    {
        if self.buf.len() >= size {
            Ok(Async::Ready(Some(true)))
        } else {
            match self.err {
                Some(err) => Err(err),
                None => if self.eof {
                    Ok(Async::Ready(None))
                } else {
                    Ok(Async::NotReady)
                },
            }
        }
    }

    /// Drops the first `size` bytes, or all where there are fewer.
    pub fn drop_payload(&mut self, size: usize)
        ensures
            final(self).buf@ == old(self).buf@.skip(
                if size <= old(self).buf@.len() {
                    size as int
                } else {
                    old(self).buf@.len() as int
                },
            ),
            final(self).eof == old(self).eof,
            final(self).err == old(self).err,
    {
        let n = if size <= self.buf.len() {
            size
        } else {
            self.buf.len()
        };
        let rest = self.buf.split_off(n);
        self.buf = rest;
    }

    /// Takes the first `size` bytes; where fewer are there, what the stream
    /// says.
    pub fn readexactly(&mut self, size: usize) -> (r: Result<Async<Option<Vec<u8>>>, PayloadError>)
        ensures
            final(self).eof == old(self).eof,
            final(self).err == old(self).err,
            old(self).buf@.len() >= size ==> (r matches Ok(Async::Ready(Some(data))) && data@
                == old(self).buf@.take(size as int)) && final(self).buf@ == old(self).buf@.skip(
                size as int,
            ),
            old(self).buf@.len() < size ==> r == old(self).starved::<Vec<u8>>() && final(self).buf
                == old(self).buf,
    {
        if self.buf.len() >= size {
            let rest = self.buf.split_off(size);
            let mut data = rest;
            core::mem::swap(&mut self.buf, &mut data);
            Ok(Async::Ready(Some(data)))
        } else {
            match self.err {
                Some(err) => Err(err),
                None => if self.eof {
                    Ok(Async::Ready(None))
                } else {
                    Ok(Async::NotReady)
                },
            }
        }
    }
}

} // verus!
