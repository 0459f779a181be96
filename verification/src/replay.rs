//! A recorded body, and the collection of one from its first pull to its
//! last.
//!
//! A recorded body holds in memory what each pull of a body gives: a chunk, or
//! the error with which the pull fails. Pulled past its last frame it reports
//! the end.

use crate::chunk::contents;
use crate::collector::reserve_size;
use crate::collector::Collector;
use crate::collector::Progress;
use crate::collector::Pulled;
use crate::collector::Seen;
use crate::collector::Step;
use crate::frames::all_chunks;
use crate::frames::chunks;
use crate::frames::collected;
use crate::frames::frame_bytes;
use crate::frames::halts_at;
use crate::frames::joined;
use crate::frames::lemma_collected_buffer;
use crate::frames::lemma_failure_is_returned;
use crate::frames::lemma_joined_first;
use crate::frames::lemma_joined_small;
use crate::frames::lemma_joined_split;
use crate::frames::lemma_joined_take_next;
use crate::frames::lemma_taken_from;
use crate::frames::lemma_taken_whole;
use crate::frames::lemma_taken_within;
use crate::frames::pulled_from;
use crate::frames::taken;
use crate::frames::taken_from;
use bytes::Bytes;
use vstd::prelude::*;

verus! {

/// The frames of `rest`, the last one first.
spec fn backwards<E>(rest: Seq<Result<Bytes, E>>) -> Seq<Result<Bytes, E>> {
    Seq::new(rest.len(), |i: int| rest[rest.len() - 1 - i])
}

/// A recorded body: the frames that its pulls give, in order.
pub struct Replay<E> {
    /// The frames not pulled yet, the next one last.
    rest: Vec<Result<Bytes, E>>,
    /// The number of data bytes in them.
    pending: usize,
}

impl<E> View for Replay<E> {
    type V = Seq<Result<Bytes, E>>;

    /// The frames not pulled yet, the next one first.
    closed spec fn view(&self) -> Seq<Result<Bytes, E>> {
        backwards(self.rest@)
    }
}

impl<E> Replay<E> {
    /// Whether the body is sound: it knows how many bytes it holds, and they
    /// are no more than a vector can hold.
    pub closed spec fn wf(&self) -> bool {
        self.pending == joined(self@).len() && self.pending <= isize::MAX
    }

    /// Records a body that gives `frames`, the first one first. There is
    /// none where the chunks together hold more bytes than a vector can.
    pub fn new(frames: Vec<Result<Bytes, E>>) -> (body: Option<Replay<E>>)
        ensures
            body is Some <==> joined(frames@).len() <= isize::MAX,
            body matches Some(recorded) ==> recorded.wf() && recorded@ == frames@,
    {
        let most: usize = isize::MAX as usize;
        let mut left = frames;
        let mut rest: Vec<Result<Bytes, E>> = Vec::new();
        let mut pending: usize = 0;
        proof {
            assert(frames@.take(frames@.len() as int) =~= frames@);
            assert(chunks(frames@.skip(frames@.len() as int)) =~= Seq::<Seq<u8>>::empty());
        }
        loop
            invariant
                most == isize::MAX,
                left@.len() <= frames@.len(),
                left@ == frames@.take(left@.len() as int),
                backwards(rest@) == frames@.skip(left@.len() as int),
                pending == joined(frames@.skip(left@.len() as int)).len(),
                pending <= most,
            decreases left@.len(),
        {
            let ghost before = left@.len() as int;
            let ghost reversed = rest@;
            match left.pop() {
                None => {
                    assert(frames@.skip(0) =~= frames@);
                    return Some(Replay { rest, pending });
                },
                Some(frame) => {
                    let size: usize = match &frame {
                        Ok(chunk) => chunk.len(),
                        Err(_) => 0,
                    };
                    proof {
                        assert(frame == frames@[before - 1]);
                        lemma_joined_first(frames@.skip(before - 1));
                        assert(frames@.skip(before - 1).drop_first() =~= frames@.skip(before));
                        lemma_joined_split(frames@, before - 1);
                    }
                    if size > most - pending {
                        return None;
                    }
                    pending = pending + size;
                    rest.push(frame);
                    proof {
                        assert forall|i: int| 0 <= i < before - (before - 1) + reversed.len()
                            implies backwards(rest@)[i] == frames@.skip(before - 1)[i] by {
                            if i > 0 {
                                assert(backwards(reversed)[i - 1] == frames@.skip(before)[i - 1]);
                            }
                        }
                        assert(backwards(rest@) =~= frames@.skip(before - 1));
                        assert(left@ =~= frames@.take(before - 1));
                    }
                },
            }
        }
    }

    /// The number of frames not pulled yet.
    pub fn remaining(&self) -> (count: usize)
        ensures
            count == self@.len(),
    {
        self.rest.len()
    }

    /// A lower bound on the data bytes still to come: those of the chunks
    /// not pulled yet.
    pub fn size_hint_lower(&self) -> (lower: u64)
        requires
            self.wf(),
        ensures
            lower == joined(self@).len(),
    {
        self.pending as u64
    }

    /// Gives the next frame, or the end where none is left.
    pub fn pull(&mut self) -> (pulled: Pulled<E>)
        requires
            old(self).wf(),
        ensures
            final(self).wf(),
            old(self)@.len() == 0 ==> pulled is End && final(self)@ == old(self)@,
            old(self)@.len() > 0 ==> pulled == pulled_from(old(self)@[0]) && final(self)@
                == old(self)@.drop_first(),
    {
        let ghost before = self@;
        match self.rest.pop() {
            None => Pulled::End,
            Some(frame) => {
                proof {
                    lemma_joined_first(before);
                    assert(self@ =~= before.drop_first());
                    assert(frame == before[0]);
                }
                match frame {
                    Ok(chunk) => {
                        self.pending = self.pending - chunk.len();
                        Pulled::Chunk(chunk)
                    },
                    Err(error) => Pulled::Failed(error),
                }
            },
        }
    }
}

/// The collector once it has taken the first `count` frames, all of them
/// chunks.
spec fn progress<E>(
    frames: Seq<Result<Bytes, E>>,
    max_length: Option<usize>,
    count: int,
) -> Progress {
    Progress {
        max_length,
        seen: if count == 0 {
            Seen::Nothing
        } else if count == 1 {
            Seen::One(frames[0]->Ok_0)
        } else {
            Seen::Many {
                bytes: joined(frames.take(count)),
                reserved: reserve_size(
                    frame_bytes(frames[0]).len(),
                    frame_bytes(frames[1]).len(),
                    joined(frames.skip(2)).len() as u64,
                ) as usize,
            }
        },
    }
}

/// The bytes of a collector that has taken `count` chunks are those of the
/// frames it took.
proof fn lemma_progress_bytes<E>(
    frames: Seq<Result<Bytes, E>>,
    max_length: Option<usize>,
    count: int,
)
    requires
        0 <= count <= frames.len(),
        count >= 1 ==> frames[0] is Ok,
    ensures
        progress(frames, max_length, count).bytes() == joined(frames.take(count)),
{
    if count == 0 {
        assert(chunks(frames.take(0)) =~= Seq::<Seq<u8>>::empty());
    } else if count == 1 {
        lemma_joined_take_next(frames, 0);
        assert(chunks(frames.take(0)) =~= Seq::<Seq<u8>>::empty());
    }
}

/// Feeds `collector` the frames of `body` until it says that the collection
/// is over.
fn run<E>(collector: Collector, body: &mut Replay<E>) -> (result: Result<Bytes, E>)
    requires
        collector@.seen is Nothing,
        old(body).wf(),
    ensures
        final(body).wf(),
        final(body)@ == old(body)@.skip(taken(old(body)@, collector@.max_length)),
        collected(old(body)@, collector@.max_length, result),
{
    let ghost frames = body@;
    let ghost max_length = collector@.max_length;
    let mut state = collector;
    proof {
        assert(frames.skip(0) =~= frames);
    }
    loop
        invariant
            frames == old(body)@,
            max_length == collector@.max_length,
            body.wf(),
            body@.len() <= frames.len(),
            body@ == frames.skip(frames.len() - body@.len()),
            joined(frames).len() <= isize::MAX,
            forall|j: int| 0 <= j < frames.len() - body@.len() ==> (#[trigger] frames[j]) is Ok,
            state@ == progress(frames, max_length, frames.len() - body@.len()),
            taken_from(frames, max_length, frames.len() - body@.len()) == taken(
                frames,
                max_length,
            ),
        decreases body@.len(),
    {
        let ghost count = frames.len() - body@.len();
        let ghost rest = body@;
        let pulled = body.pull();
        let size_hint_lower: u64 = body.size_hint_lower();
        proof {
            lemma_progress_bytes(frames, max_length, count);
            lemma_joined_split(frames, count);
            if count < frames.len() {
                assert(rest[0] == frames[count]);
                lemma_joined_first(rest);
                lemma_joined_take_next(frames, count);
                if frames[count] is Ok {
                    lemma_progress_bytes(frames, max_length, count + 1);
                }
                assert(rest.drop_first() =~= frames.skip(count + 1));
            } else {
                assert(frames.take(count) =~= frames);
            }
        }
        match state.step(pulled, size_hint_lower) {
            Step::Pull(next) => {
                state = next;
            },
            Step::Done(result) => {
                return result;
            },
        }
    }
}

/// Collects a recorded body whole.
///
/// Every frame is pulled up to the first failure, or to the end where no
/// pull fails, and the body is left at the frame after the last one pulled.
/// A failure is returned as it came, whatever was received before it. Else
/// the buffer holds every chunk, byte for byte and in order; a body of one
/// chunk gives that chunk itself, and an empty body an empty buffer.
pub fn http_body_to_bytes<E>(body: &mut Replay<E>) -> (result: Result<Bytes, E>)
    requires
        old(body).wf(),
    ensures
        final(body).wf(),
        final(body)@ == old(body)@.skip(taken(old(body)@, None)),
        collected(old(body)@, None, result),
        all_chunks(old(body)@) ==> final(body)@.len() == 0 && result is Ok && contents(
            result->Ok_0,
        ) == joined(old(body)@),
        old(body)@.len() == 1 ==> result == old(body)@[0],
        old(body)@.len() == 0 ==> result is Ok && contents(result->Ok_0) == Seq::<u8>::empty(),
        forall|k: int|
            0 <= k < old(body)@.len() && (#[trigger] old(body)@[k]) is Err && all_chunks(
                old(body)@.take(k),
            ) ==> result == old(body)@[k] && final(body)@ == old(body)@.skip(k + 1),
{
    let ghost frames = body@;
    let result = run(Collector::new(), body);
    proof {
        lemma_taken_from(frames, None, 0);
        lemma_joined_small(frames);
        if all_chunks(frames) {
            lemma_taken_whole(frames);
            assert(frames[frames.len() - 1] is Ok || frames.len() == 0);
        }
        assert forall|k: int|
            0 <= k < frames.len() && (#[trigger] frames[k]) is Err && all_chunks(
                frames.take(k),
            ) implies result == frames[k] && body@ == frames.skip(k + 1) by {
            lemma_failure_is_returned(frames, None, k, result);
        }
    }
    result
}

/// Collects a recorded body up to the first chunk with which `max_length`
/// bytes or more have come.
///
/// No frame after that chunk is pulled, and the chunk is taken whole, so the
/// buffer may be longer than `max_length`. A buffer shorter than
/// `max_length` holds the whole body, which then had no failure. A failure
/// met on the way is returned as it came. The body is left at the frame
/// after the last one pulled.
pub fn http_body_to_bytes_with_max_length<E>(body: &mut Replay<E>, max_length: usize) -> (result:
    Result<Bytes, E>)
    requires
        old(body).wf(),
    ensures
        final(body).wf(),
        final(body)@ == old(body)@.skip(taken(old(body)@, Some(max_length))),
        collected(old(body)@, Some(max_length), result),
        result matches Ok(buffer) ==> if contents(buffer).len() < max_length {
            all_chunks(old(body)@) && final(body)@.len() == 0 && contents(buffer) == joined(
                old(body)@,
            )
        } else {
            exists|count: int|
                0 <= count <= old(body)@.len() && contents(buffer) == joined(
                    #[trigger] old(body)@.take(count),
                )
        },
        forall|count: int|
            1 <= count <= old(body)@.len() && joined(#[trigger] old(body)@.take(count)).len()
                >= max_length ==> old(body)@.len() - final(body)@.len() <= count,
        forall|k: int|
            0 <= k < old(body)@.len() && (#[trigger] old(body)@[k]) is Err && all_chunks(
                old(body)@.take(k),
            ) && (k == 0 || joined(old(body)@.take(k)).len() < max_length) ==> result == old(
                body,
            )@[k] && final(body)@ == old(body)@.skip(k + 1),
{
    let ghost frames = body@;
    let result = run(Collector::with_max_length(max_length), body);
    proof {
        let count = taken(frames, Some(max_length));
        lemma_taken_from(frames, Some(max_length), 0);
        lemma_joined_small(frames);
        if result is Ok {
            lemma_collected_buffer(frames, Some(max_length), result);
            let buffer = result->Ok_0;
            if contents(buffer).len() < max_length {
                if count < frames.len() {
                    assert(frames.take(count)[count - 1] is Ok);
                    assert(halts_at(frames, Some(max_length), count - 1));
                }
                assert(frames.take(count) =~= frames);
            } else {
                assert(contents(buffer) == joined(frames.take(count)));
            }
        }
        assert forall|upto: int|
            1 <= upto <= frames.len() && joined(#[trigger] frames.take(upto)).len()
                >= max_length implies frames.len() - body@.len() <= upto by {
            lemma_taken_within(frames, max_length, upto);
        }
        assert forall|k: int|
            0 <= k < frames.len() && (#[trigger] frames[k]) is Err && all_chunks(frames.take(k))
                && (k == 0 || joined(frames.take(k)).len() < max_length) implies result
                == frames[k] && body@ == frames.skip(k + 1) by {
            lemma_failure_is_returned(frames, Some(max_length), k, result);
        }
    }
    result
}

} // verus!
