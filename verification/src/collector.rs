//! The collector: a state machine that is fed what each pull of a body gave
//! and says whether to pull again or what the collection came to.
//!
//! A body with a single chunk is answered with that chunk itself. Only when a
//! second chunk arrives are the two copied into one growing buffer, to which
//! every later chunk is added. With a maximum length the collector stops at
//! the first chunk that brings the length to that maximum or past it, so the
//! buffer it returns is made of whole chunks and may be longer than the
//! maximum.

use crate::chunk::append;
use crate::chunk::contents;
use crate::chunk::freeze;
use bytes::Bytes;
use vstd::prelude::*;

verus! {

/// The most that a body's size hint adds to the first reservation, so that a
/// large or wrong hint cannot make the collector reserve much more than it
/// has in hand.
pub const RESERVE_CEILING: usize = 16384;

/// What one pull of a body gave.
pub enum Pulled<E> {
    /// A chunk of data.
    Chunk(Bytes),
    /// A frame that carries no data, such as trailers.
    NoData,
    /// The body is exhausted.
    End,
    /// The pull failed.
    Failed(E),
}

/// What the collector says after a pull.
pub enum Step<E> {
    /// Pull again, and hand the outcome to the collector given here.
    Pull(Collector),
    /// The collection is over, with this buffer or this error.
    Done(Result<Bytes, E>),
}

/// What a collector has received.
pub enum Seen {
    /// No chunk yet.
    Nothing,
    /// One chunk, held as it came.
    One(Bytes),
    /// Two chunks or more, copied into one buffer.
    Many {
        /// Their bytes, in the order in which they came.
        bytes: Seq<u8>,
        /// The capacity asked for when the buffer was made.
        reserved: usize,
    },
}

/// A collector as the contracts see it.
pub struct Progress {
    /// The length at which the collection stops, if there is one.
    pub max_length: Option<usize>,
    /// What has been received.
    pub seen: Seen,
}

impl Progress {
    /// The bytes received so far, in the order in which they came.
    pub open spec fn bytes(self) -> Seq<u8> {
        match self.seen {
            Seen::Nothing => Seq::empty(),
            Seen::One(only) => contents(only),
            Seen::Many { bytes, .. } => bytes,
        }
    }

    /// Whether `chunk` is the last one that the collector takes: with it the
    /// length is at the maximum or past it.
    pub open spec fn reaches_limit(self, chunk: Bytes) -> bool {
        self.max_length matches Some(limit) && self.bytes().len() + contents(chunk).len() >= limit
    }

    /// The collector once it has taken `chunk`, where `size_hint_lower` is
    /// the body's lower bound on the bytes to come after it. A first chunk is
    /// kept as it came. With the second a buffer is made for both, of the
    /// capacity that `reserve_size` gives. A later chunk is added to it.
    pub open spec fn with_chunk(self, chunk: Bytes, size_hint_lower: u64) -> Progress {
        Progress {
            max_length: self.max_length,
            seen: match self.seen {
                Seen::Nothing => Seen::One(chunk),
                Seen::One(first) => Seen::Many {
                    bytes: contents(first) + contents(chunk),
                    reserved: reserve_size(
                        contents(first).len(),
                        contents(chunk).len(),
                        size_hint_lower,
                    ) as usize,
                },
                Seen::Many { bytes, reserved } => Seen::Many {
                    bytes: bytes + contents(chunk),
                    reserved,
                },
            },
        }
    }

    /// Whether `out` is what a collection that ends in this state returns:
    /// the single chunk itself where there was one, else a buffer that holds
    /// the bytes received.
    pub open spec fn yields(self, out: Bytes) -> bool {
        match self.seen {
            Seen::One(only) => out == only,
            _ => contents(out) == self.bytes(),
        }
    }

    /// Whether `chunk` can be taken. A first chunk always can, since it is
    /// not copied. A later one must leave the joined bytes within what a
    /// vector can hold.
    pub open spec fn has_room(self, chunk: Bytes) -> bool {
        self.seen is Nothing || self.bytes().len() + contents(chunk).len() <= isize::MAX
    }
}

/// The capacity to reserve when a second chunk arrives: room for two chunks
/// of `first` and `second` bytes and for what the body says is still to come,
/// the latter counted up to `RESERVE_CEILING`, the whole never more than a
/// vector can hold.
pub open spec fn reserve_size(first: nat, second: nat, size_hint_lower: u64) -> nat {
    let rest: nat = if size_hint_lower < RESERVE_CEILING {
        size_hint_lower as nat
    } else {
        RESERVE_CEILING as nat
    };
    if first + second + rest <= isize::MAX {
        first + second + rest
    } else {
        isize::MAX as nat
    }
}

/// Computes `reserve_size` without overflow.
pub fn reserve_for(first: usize, second: usize, size_hint_lower: u64) -> (capacity: usize)
    ensures
        capacity == reserve_size(first as nat, second as nat, size_hint_lower),
{
    let most: usize = isize::MAX as usize;
    let rest: usize = if size_hint_lower < RESERVE_CEILING as u64 {
        size_hint_lower as usize
    } else {
        RESERVE_CEILING
    };
    if first > most || second > most - first || rest > most - first - second {
        most
    } else {
        first + second + rest
    }
}

enum Held {
    Nothing,
    One(Bytes),
    Many(Vec<u8>, usize),
}

/// The state of one collection.
pub struct Collector {
    max_length: Option<usize>,
    held: Held,
}

impl View for Collector {
    type V = Progress;

    closed spec fn view(&self) -> Progress {
        Progress {
            max_length: self.max_length,
            seen: match self.held {
                Held::Nothing => Seen::Nothing,
                Held::One(only) => Seen::One(only),
                Held::Many(buf, reserved) => Seen::Many { bytes: buf@, reserved },
            },
        }
    }
}

impl Collector {
    /// A collector that takes every chunk until the body ends.
    pub fn new() -> (collector: Collector)
        ensures
            collector@ == (Progress { max_length: None, seen: Seen::Nothing }),
    {
        Collector { max_length: None, held: Held::Nothing }
    }

    /// A collector that stops at the first chunk with which it holds
    /// `max_length` bytes or more.
    pub fn with_max_length(max_length: usize) -> (collector: Collector)
        ensures
            collector@ == (Progress { max_length: Some(max_length), seen: Seen::Nothing }),
    {
        Collector { max_length: Some(max_length), held: Held::Nothing }
    }

    /// The length at which this collector stops, if it has one.
    pub fn max_length(&self) -> (limit: Option<usize>)
        ensures
            limit == self@.max_length,
    {
        self.max_length
    }

    /// The number of bytes received so far.
    pub fn len(&self) -> (n: usize)
        ensures
            n == self@.bytes().len(),
    {
        match &self.held {
            Held::Nothing => 0,
            Held::One(only) => only.len(),
            Held::Many(buf, _) => buf.len(),
        }
    }

    /// The capacity asked for when the buffer was made, once two chunks have
    /// come.
    pub fn reserved(&self) -> (capacity: Option<usize>)
        ensures
            capacity == match self@.seen {
                Seen::Many { reserved, .. } => Some(reserved),
                _ => None,
            },
    {
        match &self.held {
            Held::Many(_, reserved) => Some(*reserved),
            _ => None,
        }
    }

    /// Tells whether `chunk` can be handed to `step`.
    pub fn fits(&self, chunk: &Bytes) -> (ok: bool)
        ensures
            ok == self@.has_room(*chunk),
    {
        match &self.held {
            Held::Nothing => true,
            _ => {
                let most: usize = isize::MAX as usize;
                let have: usize = self.len();
                have <= most && chunk.len() <= most - have
            },
        }
    }

    /// Takes what a pull gave and says what comes next.
    ///
    /// A failed pull ends the collection with its error, whatever was
    /// received before. A frame without data changes nothing. At the end of
    /// the body the collection is over with what was received. A chunk is
    /// taken; the collection is over with it when the maximum length is
    /// reached, and goes on otherwise.
    ///
    /// `size_hint_lower` is the body's lower bound on the bytes still to
    /// come. It is read when a second chunk arrives, to size the buffer, and
    /// has no part in the bytes returned.
    pub fn step<E>(self, pulled: Pulled<E>, size_hint_lower: u64) -> (out: Step<E>)
        requires
            pulled matches Pulled::Chunk(chunk) ==> self@.has_room(chunk),
        ensures
            match pulled {
                Pulled::Failed(error) => out == Step::<E>::Done(Err(error)),
                Pulled::NoData => out == Step::<E>::Pull(self),
                Pulled::End => out matches Step::Done(Ok(buffer)) && self@.yields(buffer),
                Pulled::Chunk(chunk) => if self@.reaches_limit(chunk) {
                    out matches Step::Done(Ok(buffer)) && self@.with_chunk(
                        chunk,
                        size_hint_lower,
                    ).yields(buffer)
                } else {
                    out matches Step::Pull(next) && next@ == self@.with_chunk(
                        chunk,
                        size_hint_lower,
                    )
                },
            },
    {
        match pulled {
            Pulled::Failed(error) => Step::Done(Err(error)),
            Pulled::NoData => Step::Pull(self),
            Pulled::End => Step::Done(Ok(self.finish())),
            Pulled::Chunk(chunk) => {
                let total: usize = self.len() + chunk.len();
                let limit: Option<usize> = self.max_length;
                let next = self.take(chunk, size_hint_lower);
                match limit {
                    Some(limit) if total >= limit => Step::Done(Ok(next.finish())),
                    _ => Step::Pull(next),
                }
            },
        }
    }

    /// Takes `chunk`: keeps a first chunk as it is, copies a second one
    /// together with the first into a new buffer, and adds a later one to
    /// that buffer.
    fn take(self, chunk: Bytes, size_hint_lower: u64) -> (next: Collector)
        requires
            self@.has_room(chunk),
        ensures
            next@ == self@.with_chunk(chunk, size_hint_lower),
    {
        let held = match self.held {
            Held::Nothing => Held::One(chunk),
            Held::One(first) => {
                let capacity: usize = reserve_for(first.len(), chunk.len(), size_hint_lower);
                let mut buf: Vec<u8> = Vec::with_capacity(capacity);
                append(&mut buf, first);
                append(&mut buf, chunk);
                Held::Many(buf, capacity)
            },
            Held::Many(mut buf, reserved) => {
                append(&mut buf, chunk);
                Held::Many(buf, reserved)
            },
        };
        Collector { max_length: self.max_length, held }
    }

    /// Ends the collection with what was received.
    fn finish(self) -> (out: Bytes)
        ensures
            self@.yields(out),
    {
        match self.held {
            Held::Nothing => Bytes::new(),
            Held::One(only) => only,
            Held::Many(buf, _) => freeze(buf),
        }
    }
}

} // verus!
