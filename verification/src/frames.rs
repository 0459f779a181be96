//! What the frames of a body come to: their bytes, how many of them a
//! collection pulls, and what it returns.
//!
//! A body is taken here as the sequence of what its pulls give, each a chunk
//! or the error with which the pull fails; past the last frame every pull
//! reports the end.

use crate::chunk::contents;
use crate::collector::Pulled;
use bytes::Bytes;
use vstd::prelude::*;

verus! {

/// The bytes that a frame carries: those of its chunk, and none where the
/// pull fails.
pub open spec fn frame_bytes<E>(frame: Result<Bytes, E>) -> Seq<u8> {
    match frame {
        Ok(chunk) => contents(chunk),
        Err(_) => Seq::empty(),
    }
}

/// The bytes of each frame, frame by frame.
pub open spec fn chunks<E>(frames: Seq<Result<Bytes, E>>) -> Seq<Seq<u8>> {
    Seq::new(frames.len(), |i: int| frame_bytes(frames[i]))
}

/// The bytes of all the frames, one chunk after the other.
pub open spec fn joined<E>(frames: Seq<Result<Bytes, E>>) -> Seq<u8> {
    chunks(frames).flatten()
}

/// Whether every frame is a chunk.
pub open spec fn all_chunks<E>(frames: Seq<Result<Bytes, E>>) -> bool {
    forall|i: int| 0 <= i < frames.len() ==> (#[trigger] frames[i]) is Ok
}

/// What a pull gives for a frame.
pub open spec fn pulled_from<E>(frame: Result<Bytes, E>) -> Pulled<E> {
    match frame {
        Ok(chunk) => Pulled::Chunk(chunk),
        Err(error) => Pulled::Failed(error),
    }
}

/// Whether a collection that has come to frame `i` is over with it: the pull
/// fails, or the chunk brings the length to the maximum or past it.
pub open spec fn halts_at<E>(
    frames: Seq<Result<Bytes, E>>,
    max_length: Option<usize>,
    i: int,
) -> bool {
    frames[i] is Err || (max_length matches Some(limit) && joined(frames.take(i + 1)).len()
        >= limit)
}

/// The number of frames pulled by a collection that has come to frame `i`:
/// up to the first frame from `i` on with which it is over, that frame
/// included, and all of them where there is none.
pub open spec fn taken_from<E>(
    frames: Seq<Result<Bytes, E>>,
    max_length: Option<usize>,
    i: int,
) -> int
    decreases frames.len() - i,
{
    if i < 0 || i >= frames.len() {
        frames.len() as int
    } else if halts_at(frames, max_length, i) {
        i + 1
    } else {
        taken_from(frames, max_length, i + 1)
    }
}

/// The number of frames that a collection pulls from a body.
pub open spec fn taken<E>(frames: Seq<Result<Bytes, E>>, max_length: Option<usize>) -> int {
    taken_from(frames, max_length, 0)
}

/// Whether `result` is what the collection of a body comes to. Where the
/// last frame pulled fails, it is that error. Where a single frame was
/// pulled, it is that frame's chunk itself. Else it is a buffer with the
/// bytes of the frames pulled.
pub open spec fn collected<E>(
    frames: Seq<Result<Bytes, E>>,
    max_length: Option<usize>,
    result: Result<Bytes, E>,
) -> bool {
    let count = taken(frames, max_length);
    if count >= 1 && (count == 1 || frames[count - 1] is Err) {
        result == frames[count - 1]
    } else {
        result matches Ok(buffer) && contents(buffer) == joined(frames.take(count))
    }
}

/// A frame added at the end adds its bytes at the end.
pub proof fn lemma_joined_push<E>(frames: Seq<Result<Bytes, E>>, frame: Result<Bytes, E>)
    ensures
        joined(frames.push(frame)) == joined(frames) + frame_bytes(frame),
{
    assert(chunks(frames.push(frame)) =~= chunks(frames).push(frame_bytes(frame)));
    chunks(frames).lemma_flatten_push(frame_bytes(frame));
}

/// One frame more in a prefix adds that frame's bytes.
pub proof fn lemma_joined_take_next<E>(frames: Seq<Result<Bytes, E>>, count: int)
    requires
        0 <= count < frames.len(),
    ensures
        joined(frames.take(count + 1)) == joined(frames.take(count)) + frame_bytes(frames[count]),
{
    assert(frames.take(count + 1) =~= frames.take(count).push(frames[count]));
    lemma_joined_push(frames.take(count), frames[count]);
}

/// The bytes of a body are those of its first frame, then those of the rest.
pub proof fn lemma_joined_first<E>(frames: Seq<Result<Bytes, E>>)
    requires
        frames.len() > 0,
    ensures
        joined(frames) == frame_bytes(frames[0]) + joined(frames.drop_first()),
{
    assert(chunks(frames).drop_first() =~= chunks(frames.drop_first()));
}

/// The bytes of a body are those of a prefix, then those of what follows it.
pub proof fn lemma_joined_split<E>(frames: Seq<Result<Bytes, E>>, count: int)
    requires
        0 <= count <= frames.len(),
    ensures
        joined(frames) == joined(frames.take(count)) + joined(frames.skip(count)),
{
    assert(chunks(frames) =~= chunks(frames.take(count)) + chunks(frames.skip(count)));
    vstd::seq_lib::lemma_flatten_concat(
        chunks(frames.take(count)),
        chunks(frames.skip(count)),
    );
}

/// No frames hold no bytes, and one frame holds its own.
pub proof fn lemma_joined_small<E>(frames: Seq<Result<Bytes, E>>)
    ensures
        joined(frames.take(0)) == Seq::<u8>::empty(),
        frames.len() >= 1 ==> joined(frames.take(1)) == frame_bytes(frames[0]),
        joined(frames.take(frames.len() as int)) == joined(frames),
{
    assert(chunks(frames.take(0)) =~= Seq::<Seq<u8>>::empty());
    assert(frames.take(frames.len() as int) =~= frames);
    if frames.len() >= 1 {
        lemma_joined_take_next(frames, 0);
    }
}

/// A longer prefix holds no fewer bytes.
pub proof fn lemma_joined_grows<E>(frames: Seq<Result<Bytes, E>>, shorter: int, longer: int)
    requires
        0 <= shorter <= longer <= frames.len(),
    ensures
        joined(frames.take(shorter)).len() <= joined(frames.take(longer)).len(),
{
    lemma_joined_split(frames.take(longer), shorter);
    assert(frames.take(longer).take(shorter) =~= frames.take(shorter));
}

/// What `taken_from` finds: a count between `i` and the number of frames,
/// past `i` where a frame is left; before the last frame pulled the
/// collection is not over; and where frames are left behind, it is over with
/// the last one pulled.
pub proof fn lemma_taken_from<E>(
    frames: Seq<Result<Bytes, E>>,
    max_length: Option<usize>,
    i: int,
)
    requires
        0 <= i <= frames.len(),
    ensures
        i <= taken_from(frames, max_length, i) <= frames.len(),
        i < frames.len() ==> i < taken_from(frames, max_length, i),
        forall|j: int|
            i <= j < taken_from(frames, max_length, i) - 1 ==> !halts_at(frames, max_length, j),
        taken_from(frames, max_length, i) < frames.len() ==> halts_at(
            frames,
            max_length,
            taken_from(frames, max_length, i) - 1,
        ),
    decreases frames.len() - i,
{
    if i < frames.len() && !halts_at(frames, max_length, i) {
        lemma_taken_from(frames, max_length, i + 1);
    }
}

/// A collection that has come to frame `i` and is over with no frame before
/// `count` pulls as many frames as one that has come to frame `count`.
pub proof fn lemma_taken_skips<E>(
    frames: Seq<Result<Bytes, E>>,
    max_length: Option<usize>,
    i: int,
    count: int,
)
    requires
        0 <= i <= count <= frames.len(),
        forall|j: int| i <= j < count ==> !halts_at(frames, max_length, j),
    ensures
        taken_from(frames, max_length, i) == taken_from(frames, max_length, count),
    decreases count - i,
{
    if i < count {
        assert(!halts_at(frames, max_length, i));
        lemma_taken_skips(frames, max_length, i + 1, count);
    }
}

/// The bytes of a buffer that a collection returns are those of the frames
/// pulled, and every frame pulled is a chunk.
pub proof fn lemma_collected_buffer<E>(
    frames: Seq<Result<Bytes, E>>,
    max_length: Option<usize>,
    result: Result<Bytes, E>,
)
    requires
        collected(frames, max_length, result),
        result is Ok,
    ensures
        contents(result->Ok_0) == joined(frames.take(taken(frames, max_length))),
        all_chunks(frames.take(taken(frames, max_length))),
{
    let count = taken(frames, max_length);
    lemma_taken_from(frames, max_length, 0);
    lemma_joined_small(frames);
    assert forall|j: int| 0 <= j < count implies (#[trigger] frames.take(count)[j]) is Ok by {
        if j < count - 1 {
            assert(!halts_at(frames, max_length, j));
        }
    }
}

/// A collection comes to the first frame that fails, and is over with it,
/// unless the maximum length was reached before.
pub proof fn lemma_taken_at_failure<E>(
    frames: Seq<Result<Bytes, E>>,
    max_length: Option<usize>,
    k: int,
)
    requires
        0 <= k < frames.len(),
        frames[k] is Err,
        all_chunks(frames.take(k)),
        max_length matches Some(limit) ==> k == 0 || joined(frames.take(k)).len() < limit,
    ensures
        taken(frames, max_length) == k + 1,
{
    assert forall|j: int| 0 <= j < k implies !halts_at(frames, max_length, j) by {
        assert(frames.take(k)[j] is Ok);
        lemma_joined_grows(frames, j + 1, k);
    }
    lemma_taken_skips(frames, max_length, 0, k);
}

/// The first failure that a collection comes to is what it returns, with or
/// without a maximum length and whatever was received before: no buffer is
/// returned in its place.
pub proof fn lemma_failure_is_returned<E>(
    frames: Seq<Result<Bytes, E>>,
    max_length: Option<usize>,
    k: int,
    result: Result<Bytes, E>,
)
    requires
        0 <= k < frames.len(),
        frames[k] is Err,
        all_chunks(frames.take(k)),
        max_length matches Some(limit) ==> k == 0 || joined(frames.take(k)).len() < limit,
        collected(frames, max_length, result),
    ensures
        result == frames[k],
        result is Err,
        taken(frames, max_length) == k + 1,
{
    lemma_taken_at_failure(frames, max_length, k);
}

/// A collection without a maximum length pulls every frame of a body of
/// which no pull fails.
pub proof fn lemma_taken_whole<E>(frames: Seq<Result<Bytes, E>>)
    requires
        all_chunks(frames),
    ensures
        taken(frames, None) == frames.len(),
{
    lemma_taken_skips(frames, None, 0, frames.len() as int);
}

/// A collection pulls no frame after the first one with which the length is
/// at the maximum or past it.
pub proof fn lemma_taken_within<E>(frames: Seq<Result<Bytes, E>>, max_length: usize, count: int)
    requires
        1 <= count <= frames.len(),
        joined(frames.take(count)).len() >= max_length,
    ensures
        taken(frames, Some(max_length)) <= count,
{
    lemma_taken_from(frames, Some(max_length), 0);
    assert(halts_at(frames, Some(max_length), count - 1));
}

} // verus!
