//! Frames on the wire: encoding, and decoding from a stream of bytes.

use super::error::{ProtocolError, ProtocolErrorView};
use crate::bytes::{be16, be16_bytes, push16, push_bytes, read16};
use crate::views::{option_view, result_view};
use vstd::prelude::*;

verus! {

pub const HEADER_LEN: usize = 9;

pub const MAX_CONTENT_LEN: usize = 8192;

/// The bytes that start a frame.
pub const SYNC: [u8; 4] = [0xBA, 0xD2, 0xAC, 0xE5];

/// A message.
#[derive(Debug, Clone, PartialEq, Eq)]
pub struct Frame {
    pub source: u8,
    pub destination: u8,
    pub message_type: u8,
    pub content: Vec<u8>,
}

/// The value of a `Frame`.
pub struct FrameView {
    pub source: u8,
    pub destination: u8,
    pub message_type: u8,
    pub content: Seq<u8>,
}

impl View for Frame {
    type V = FrameView;

    open spec fn view(&self) -> FrameView {
        FrameView {
            source: self.source,
            destination: self.destination,
            message_type: self.message_type,
            content: self.content@,
        }
    }
}

/// The bytes that start a frame.
pub open spec fn sync_bytes() -> Seq<u8> {
    seq![0xBAu8, 0xD2u8, 0xACu8, 0xE5u8]
}

/// A frame on the wire: the start bytes, the two addresses, the type, the length of the content,
/// and the content.
pub open spec fn wire_bytes(frame: FrameView) -> Seq<u8> {
    sync_bytes() + seq![frame.source, frame.destination, frame.message_type] + be16_bytes(
        frame.content.len() as u16,
    ) + frame.content
}

/// A frame on the wire, where its content is not too large.
pub open spec fn encoded_frame(frame: FrameView) -> Result<Seq<u8>, ProtocolErrorView> {
    if frame.content.len() > MAX_CONTENT_LEN {
        Err(ProtocolErrorView::ContentTooLarge(frame.content.len() as usize))
    } else {
        Ok(wire_bytes(frame))
    }
}

impl Frame {
    /// The frame on the wire.
    pub fn encode(&self) -> (r: Result<Vec<u8>, ProtocolError>)
        ensures
            result_view(r) == encoded_frame(self@),
    {
        if self.content.len() > MAX_CONTENT_LEN {
            return Err(ProtocolError::ContentTooLarge(self.content.len()));
        }
        let mut bytes: Vec<u8> = Vec::with_capacity(HEADER_LEN + self.content.len());
        push_bytes(&mut bytes, &SYNC);
        bytes.push(self.source);
        bytes.push(self.destination);
        bytes.push(self.message_type);
        push16(&mut bytes, self.content.len() as u16);
        push_bytes(&mut bytes, &self.content);
        assert(bytes@ =~= wire_bytes(self@));
        Ok(bytes)
    }
}

/// Whether a frame starts at `at`.
pub open spec fn syncs_at(bytes: Seq<u8>, at: int) -> bool {
    at + 4 <= bytes.len() && bytes.subrange(at, at + 4) == sync_bytes()
}

/// The bytes from the first start of a frame on, or, where none starts, the last three, which may
/// begin one.
pub open spec fn aligned(bytes: Seq<u8>) -> Seq<u8>
    decreases bytes.len(),
{
    if syncs_at(bytes, 0) || bytes.len() <= 3 {
        bytes
    } else {
        aligned(bytes.skip(1))
    }
}

/// What the received bytes hold first: a frame, nothing complete yet, or a frame that is too
/// large.
pub open spec fn decoded(bytes: Seq<u8>) -> Result<Option<FrameView>, ProtocolErrorView> {
    let frame = aligned(bytes);
    let length = be16(frame, 7);
    if frame.len() < HEADER_LEN {
        Ok(None)
    } else if length > MAX_CONTENT_LEN {
        Err(ProtocolErrorView::ContentTooLarge(length as usize))
    } else if frame.len() < HEADER_LEN + length {
        Ok(None)
    } else {
        Ok(
            Some(
                FrameView {
                    source: frame[4],
                    destination: frame[5],
                    message_type: frame[6],
                    content: frame.subrange(HEADER_LEN as int, HEADER_LEN + length),
                },
            ),
        )
    }
}

/// The bytes that are left after `decoded`: what follows the frame, or the start bytes of one
/// that is too large.
pub open spec fn undecoded(bytes: Seq<u8>) -> Seq<u8> {
    let frame = aligned(bytes);
    match decoded(bytes) {
        Ok(None) => frame,
        Ok(Some(_)) => frame.skip(HEADER_LEN + be16(frame, 7)),
        Err(_) => frame.skip(4),
    }
}

/// Frames out of a stream of bytes that comes in pieces.
#[derive(Debug)]
pub struct FrameDecoder {
    buffer: Vec<u8>,
}

impl View for FrameDecoder {
    type V = Seq<u8>;

    closed spec fn view(&self) -> Seq<u8> {
        self.buffer@
    }
}

impl Default for FrameDecoder {
    fn default() -> (r: Self)
        ensures
            r@ == Seq::<u8>::empty(),
    {
        FrameDecoder { buffer: Vec::new() }
    }
}

impl FrameDecoder {
    /// Takes a piece of the stream.
    pub fn push(&mut self, bytes: &[u8])
        ensures
            final(self)@ == old(self)@ + bytes@,
    {
        push_bytes(&mut self.buffer, bytes);
    }

    /// The next frame of the stream, once it is complete.
    pub fn next_frame(&mut self) -> (r: Result<Option<Frame>, ProtocolError>)
        ensures
            match r {
                Ok(frame) => decoded(old(self)@) == Ok::<_, ProtocolErrorView>(option_view(frame)),
                Err(error) => decoded(old(self)@) == Err::<Option<FrameView>, _>(error@),
            },
            final(self)@ == undecoded(old(self)@),
    {
        self.align_to_sync();
        if self.buffer.len() < HEADER_LEN {
            return Ok(None);
        }
        let length: usize = read16(&self.buffer, 7) as usize;
        if length > MAX_CONTENT_LEN {
            self.drop_front(4);
            return Err(ProtocolError::ContentTooLarge(length));
        }
        if self.buffer.len() < HEADER_LEN + length {
            return Ok(None);
        }
        let mut content: Vec<u8> = Vec::new();
        push_bytes(&mut content, &self.buffer.as_slice()[HEADER_LEN..HEADER_LEN + length]);
        let frame = Frame {
            source: self.buffer[4],
            destination: self.buffer[5],
            message_type: self.buffer[6],
            content,
        };
        assert(frame@.content =~= self@.subrange(HEADER_LEN as int, HEADER_LEN + length));
        self.drop_front(HEADER_LEN + length);
        Ok(Some(frame))
    }

    fn drop_front(&mut self, count: usize)
        requires
            count <= old(self)@.len(),
        ensures
            final(self)@ == old(self)@.skip(count as int),
    {
        let rest = self.buffer.split_off(count);
        self.buffer = rest;
        assert(self@ =~= old(self)@.skip(count as int));
    }

    fn align_to_sync(&mut self)
        ensures
            final(self)@ == aligned(old(self)@),
    {
        let mut position: usize = 0;
        let ghost all = self@;
        assert(all.skip(0) =~= all);
        while self.buffer.len() - position >= 4 && !(self.buffer[position] == SYNC[0]
            && self.buffer[position + 1] == SYNC[1] && self.buffer[position + 2] == SYNC[2]
            && self.buffer[position + 3] == SYNC[3])
            invariant
                self@ == all,
                self.buffer@ == all,
                position <= all.len(),
                aligned(all.skip(position as int)) == aligned(all),
            decreases all.len() - position,
        {
            proof {
                let rest = all.skip(position as int);
                assert(rest.skip(1) =~= all.skip(position + 1));
                let start = rest.subrange(0, 4);
                assert(start[0] == all[position as int] && start[1] == all[position + 1] && start[2]
                    == all[position + 2] && start[3] == all[position + 3]);
                assert(!syncs_at(rest, 0));
            }
            position += 1;
        }
        proof {
            let rest = all.skip(position as int);
            if rest.len() >= 4 {
                assert(rest.subrange(0, 4) =~= sync_bytes());
            }
        }
        self.drop_front(position);
    }
}

/// Aligning what is received so far changes nothing of what is aligned later.
pub proof fn lemma_aligned_append(bytes: Seq<u8>, more: Seq<u8>)
    ensures
        aligned(aligned(bytes) + more) == aligned(bytes + more),
    decreases bytes.len(),
{
    if bytes.len() > 3 {
        assert((bytes + more).subrange(0, 4) =~= bytes.subrange(0, 4));
        if !syncs_at(bytes, 0) {
            lemma_aligned_append(bytes.skip(1), more);
            assert((bytes + more).skip(1) =~= bytes.skip(1) + more);
        }
    }
}

proof fn lemma_aligned_start(bytes: Seq<u8>)
    ensures
        aligned(bytes).len() <= 3 || syncs_at(aligned(bytes), 0),
        aligned(aligned(bytes)) == aligned(bytes),
    decreases bytes.len(),
{
    if !syncs_at(bytes, 0) && bytes.len() > 3 {
        lemma_aligned_start(bytes.skip(1));
    }
}

/// A frame that is encoded and received comes out as it was, and leaves what follows it.
pub proof fn law_frame_round_trip(frame: FrameView, rest: Seq<u8>)
    requires
        frame.content.len() <= MAX_CONTENT_LEN,
    ensures
        decoded(wire_bytes(frame) + rest) == Ok::<_, ProtocolErrorView>(Some(frame)),
        undecoded(wire_bytes(frame) + rest) == rest,
{
    let bytes = wire_bytes(frame) + rest;
    assert(bytes.subrange(0, 4) =~= sync_bytes());
    assert(bytes[7] == frame.content.len() / 0x100 && bytes[8] == frame.content.len() % 0x100);
    assert(bytes.subrange(9, 9 + frame.content.len() as int) =~= frame.content);
    assert(bytes.skip(9 + frame.content.len() as int) =~= rest);
}

/// The pieces in which a stream comes do not matter: what is left when no frame is complete
/// stands for all that was received.
pub proof fn law_incomplete_frame_waits(bytes: Seq<u8>, more: Seq<u8>)
    requires
        decoded(bytes) == Ok::<Option<FrameView>, ProtocolErrorView>(None),
    ensures
        decoded(undecoded(bytes) + more) == decoded(bytes + more),
        undecoded(undecoded(bytes) + more) == undecoded(bytes + more),
{
    lemma_aligned_append(bytes, more);
}

/// Once a frame, or one that is too large, has come, what comes after it changes nothing of it.
pub proof fn law_complete_frame_stands(bytes: Seq<u8>, more: Seq<u8>)
    requires
        decoded(bytes) != Ok::<Option<FrameView>, ProtocolErrorView>(None),
    ensures
        decoded(bytes + more) == decoded(bytes),
        undecoded(bytes + more) == undecoded(bytes) + more,
{
    lemma_aligned_append(bytes, more);
    lemma_aligned_start(bytes);
    let frame = aligned(bytes);
    let length = be16(frame, 7);
    let both = frame + more;
    assert(both.subrange(0, 4) =~= frame.subrange(0, 4));
    assert(be16(both, 7) == length);
    if length <= MAX_CONTENT_LEN {
        assert(both.subrange(9, 9 + length) =~= frame.subrange(9, 9 + length));
        assert(both.skip(9 + length) =~= frame.skip(9 + length) + more);
    } else {
        assert(both.skip(4) =~= frame.skip(4) + more);
    }
}

/// The frames on the wire, one behind the other.
pub open spec fn stream_of(frames: Seq<FrameView>) -> Seq<u8>
    decreases frames.len(),
{
    if frames.len() == 0 {
        seq![]
    } else {
        wire_bytes(frames[0]) + stream_of(frames.skip(1))
    }
}

/// What `count` calls of `next_frame` leave of the received bytes.
pub open spec fn undecoded_after(bytes: Seq<u8>, count: nat) -> Seq<u8>
    decreases count,
{
    if count == 0 {
        bytes
    } else {
        undecoded_after(undecoded(bytes), (count - 1) as nat)
    }
}

/// Frames that are sent one behind the other come out one behind the other.
pub proof fn law_stream_round_trip(frames: Seq<FrameView>, rest: Seq<u8>, index: nat)
    requires
        index < frames.len(),
        forall|i: int|
            0 <= i < frames.len() ==> (#[trigger] frames[i]).content.len() <= MAX_CONTENT_LEN,
    ensures
        decoded(undecoded_after(stream_of(frames) + rest, index)) == Ok::<_, ProtocolErrorView>(
            Some(frames[index as int]),
        ),
        undecoded_after(stream_of(frames) + rest, frames.len()) == rest,
    decreases frames.len(),
{
    let tail = frames.skip(1);
    let after = stream_of(tail) + rest;
    assert(stream_of(frames) + rest =~= wire_bytes(frames[0]) + after);
    law_frame_round_trip(frames[0], after);
    if tail.len() == 0 {
        assert(after =~= rest);
        assert(undecoded_after(rest, 0) == rest);
    } else if index == 0 {
        law_stream_round_trip(tail, rest, 0);
    } else {
        law_stream_round_trip(tail, rest, (index - 1) as nat);
    }
}

/// Bytes before a frame in which no frame starts are passed over.
pub proof fn law_noise_is_passed_over(noise: Seq<u8>, frame: FrameView, rest: Seq<u8>)
    requires
        frame.content.len() <= MAX_CONTENT_LEN,
        is_noise(noise),
    ensures
        decoded(noise + wire_bytes(frame) + rest) == Ok::<_, ProtocolErrorView>(Some(frame)),
        undecoded(noise + wire_bytes(frame) + rest) == rest,
{
    let sent = wire_bytes(frame) + rest;
    assert(noise + wire_bytes(frame) + rest =~= noise + sent);
    assert(sent.subrange(0, 4) =~= sync_bytes());
    lemma_noise_dropped(noise, sent);
    law_frame_round_trip(frame, rest);
}

proof fn lemma_noise_dropped(noise: Seq<u8>, sent: Seq<u8>)
    requires
        syncs_at(sent, 0),
        forall|at: int| 0 <= at < noise.len() ==> !#[trigger] syncs_at(noise, at),
    ensures
        aligned(noise + sent) == sent,
    decreases noise.len(),
{
    let all = noise + sent;
    let start = sent.subrange(0, 4);
    if noise.len() == 0 {
        assert(all =~= sent);
    } else {
        assert(!syncs_at(noise, 0));
        assert(!syncs_at(all, 0)) by {
            let window = all.subrange(0, 4);
            if noise.len() >= 4 {
                assert(window =~= noise.subrange(0, 4));
            } else {
                // Start bytes do not occur again inside themselves.
                let k = noise.len() as int;
                assert(window[k] == start[0]);
            }
        }
        let shorter = noise.skip(1);
        assert forall|at: int| 0 <= at < shorter.len() implies !#[trigger] syncs_at(
            shorter,
            at,
        ) by {
            assert(!syncs_at(noise, at + 1));
            if at + 4 <= shorter.len() {
                assert(shorter.subrange(at, at + 4) =~= noise.subrange(at + 1, at + 5));
            }
        }
        lemma_noise_dropped(shorter, sent);
        assert(all.skip(1) =~= shorter + sent);
    }
}

/// Whether the received bytes hold something to take: a frame, or one that is too large. Taking it
/// leaves fewer bytes.
pub open spec fn has_next(bytes: Seq<u8>) -> bool {
    decoded(bytes) != Ok::<Option<FrameView>, ProtocolErrorView>(None) && undecoded(bytes).len()
        < bytes.len()
}

/// All that the received bytes hold: the frames, and the errors about those that are too large, in
/// order.
pub open spec fn drained(bytes: Seq<u8>) -> Seq<Result<Option<FrameView>, ProtocolErrorView>>
    decreases bytes.len(),
{
    if has_next(bytes) {
        seq![decoded(bytes)] + drained(undecoded(bytes))
    } else {
        seq![]
    }
}

/// What is left of the received bytes once all that they hold was taken.
pub open spec fn left_over(bytes: Seq<u8>) -> Seq<u8>
    decreases bytes.len(),
{
    if has_next(bytes) {
        left_over(undecoded(bytes))
    } else {
        undecoded(bytes)
    }
}

proof fn lemma_aligned_length(bytes: Seq<u8>)
    ensures
        aligned(bytes).len() <= bytes.len(),
    decreases bytes.len(),
{
    if !syncs_at(bytes, 0) && bytes.len() > 3 {
        lemma_aligned_length(bytes.skip(1));
    }
}

/// Whatever is taken leaves fewer bytes.
pub proof fn law_taking_leaves_fewer_bytes(bytes: Seq<u8>)
    ensures
        has_next(bytes) <==> decoded(bytes) != Ok::<Option<FrameView>, ProtocolErrorView>(None),
{
    lemma_aligned_length(bytes);
}

/// It does not matter whether what has come is taken before more comes.
pub proof fn law_taking_early_changes_nothing(bytes: Seq<u8>, more: Seq<u8>)
    ensures
        drained(bytes + more) == drained(bytes) + drained(left_over(bytes) + more),
        left_over(bytes + more) == left_over(left_over(bytes) + more),
    decreases bytes.len(),
{
    law_taking_leaves_fewer_bytes(bytes);
    law_taking_leaves_fewer_bytes(bytes + more);
    if decoded(bytes) == Ok::<Option<FrameView>, ProtocolErrorView>(None) {
        let rest = undecoded(bytes);
        law_incomplete_frame_waits(bytes, more);
        law_taking_leaves_fewer_bytes(rest + more);
        assert(drained(bytes) + drained(rest + more) =~= drained(rest + more));
    } else {
        let rest = undecoded(bytes);
        law_complete_frame_stands(bytes, more);
        law_taking_early_changes_nothing(rest, more);
        assert(undecoded(bytes + more) == rest + more);
        assert(drained(bytes) == seq![decoded(bytes)] + drained(rest));
        assert(drained(bytes + more) =~= drained(bytes) + drained(left_over(bytes) + more));
    }
}

/// The pieces, one behind the other.
pub open spec fn whole(pieces: Seq<Seq<u8>>) -> Seq<u8>
    decreases pieces.len(),
{
    if pieces.len() == 0 {
        seq![]
    } else {
        whole(pieces.drop_last()) + pieces.last()
    }
}

/// What is left of the pieces where all is taken after each of them.
pub open spec fn left_over_pieces(pieces: Seq<Seq<u8>>) -> Seq<u8>
    decreases pieces.len(),
{
    if pieces.len() == 0 {
        seq![]
    } else {
        left_over(left_over_pieces(pieces.drop_last()) + pieces.last())
    }
}

/// All that the pieces hold where all is taken after each of them.
pub open spec fn drained_pieces(pieces: Seq<Seq<u8>>) -> Seq<
    Result<Option<FrameView>, ProtocolErrorView>,
>
    decreases pieces.len(),
{
    if pieces.len() == 0 {
        seq![]
    } else {
        drained_pieces(pieces.drop_last()) + drained(
            left_over_pieces(pieces.drop_last()) + pieces.last(),
        )
    }
}

/// A stream that comes in pieces gives what it gives as a whole, however it is cut.
pub proof fn law_cuts_do_not_matter(pieces: Seq<Seq<u8>>)
    ensures
        drained_pieces(pieces) == drained(whole(pieces)),
        left_over_pieces(pieces) == left_over(whole(pieces)),
    decreases pieces.len(),
{
    if pieces.len() == 0 {
        law_taking_leaves_fewer_bytes(whole(pieces));
    } else {
        law_cuts_do_not_matter(pieces.drop_last());
        law_taking_early_changes_nothing(whole(pieces.drop_last()), pieces.last());
    }
}

/// Whether no frame starts in the bytes.
pub open spec fn is_noise(bytes: Seq<u8>) -> bool {
    forall|at: int| 0 <= at < bytes.len() ==> !#[trigger] syncs_at(bytes, at)
}

/// Frames one behind the other, each behind bytes of its own.
pub open spec fn noisy_stream(sent: Seq<(Seq<u8>, FrameView)>) -> Seq<u8>
    decreases sent.len(),
{
    if sent.len() == 0 {
        seq![]
    } else {
        sent[0].0 + wire_bytes(sent[0].1) + noisy_stream(sent.skip(1))
    }
}

/// Frames with noise before each of them come out whole, in order, and nothing else does, however
/// the stream is cut.
pub proof fn law_frames_come_out_of_noise(
    sent: Seq<(Seq<u8>, FrameView)>,
    pieces: Seq<Seq<u8>>,
)
    requires
        whole(pieces) == noisy_stream(sent),
        forall|i: int| 0 <= i < sent.len() ==> is_noise((#[trigger] sent[i]).0),
        forall|i: int|
            0 <= i < sent.len() ==> (#[trigger] sent[i]).1.content.len() <= MAX_CONTENT_LEN,
    ensures
        drained_pieces(pieces) == sent.map_values(
            |s: (Seq<u8>, FrameView)| Ok::<_, ProtocolErrorView>(Some(s.1)),
        ),
        left_over_pieces(pieces) == Seq::<u8>::empty(),
{
    law_cuts_do_not_matter(pieces);
    lemma_noisy_stream(sent);
}

proof fn lemma_noisy_stream(sent: Seq<(Seq<u8>, FrameView)>)
    requires
        forall|i: int| 0 <= i < sent.len() ==> is_noise((#[trigger] sent[i]).0),
        forall|i: int|
            0 <= i < sent.len() ==> (#[trigger] sent[i]).1.content.len() <= MAX_CONTENT_LEN,
    ensures
        drained(noisy_stream(sent)) == sent.map_values(
            |s: (Seq<u8>, FrameView)| Ok::<_, ProtocolErrorView>(Some(s.1)),
        ),
        left_over(noisy_stream(sent)) == Seq::<u8>::empty(),
    decreases sent.len(),
{
    let bytes = noisy_stream(sent);
    let got = sent.map_values(|s: (Seq<u8>, FrameView)| Ok::<_, ProtocolErrorView>(Some(s.1)));
    law_taking_leaves_fewer_bytes(bytes);
    if sent.len() == 0 {
        assert(got =~= seq![]);
        assert(undecoded(bytes) =~= Seq::<u8>::empty());
    } else {
        let rest = sent.skip(1);
        assert forall|i: int| 0 <= i < rest.len() implies is_noise((#[trigger] rest[i]).0) && (
        rest[i]).1.content.len() <= MAX_CONTENT_LEN by {
            assert(rest[i] == sent[i + 1]);
        }
        lemma_noisy_stream(rest);
        law_noise_is_passed_over(sent[0].0, sent[0].1, noisy_stream(rest));
        assert(got =~= seq![decoded(bytes)] + rest.map_values(
            |s: (Seq<u8>, FrameView)| Ok::<_, ProtocolErrorView>(Some(s.1)),
        ));
    }
}

} // verus!
