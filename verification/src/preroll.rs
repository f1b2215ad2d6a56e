//! Audio captured while the bridge is still arming: only the most recent
//! tail, up to a byte limit, is kept and forwarded once recording starts.

use vstd::prelude::*;
use std::collections::VecDeque;

verus! {

/// Total byte count of a sequence of chunks.
pub open spec fn total_bytes(chunks: Seq<Seq<u8>>) -> nat {
    chunks.flatten().len()
}

/// Drops `excess` bytes from the front of `chunks`: whole chunks while they fit
/// in the excess, then the leading bytes of the next chunk.
pub open spec fn trim_front(chunks: Seq<Seq<u8>>, excess: nat) -> Seq<Seq<u8>>
    decreases chunks.len(),
{
    if excess == 0 || chunks.len() == 0 {
        chunks
    } else if chunks[0].len() <= excess {
        trim_front(chunks.drop_first(), (excess - chunks[0].len()) as nat)
    } else {
        chunks.update(0, chunks[0].skip(excess as int))
    }
}

/// Arming-time audio: chunks kept in arrival order, their byte count, the
/// byte limit, and whether recording has started (chunks then pass through).
pub struct PrerollAudio {
    chunks: VecDeque<Vec<u8>>,
    bytes: usize,
    limit: usize,
    recording: bool,
    pushed: Ghost<Seq<Seq<u8>>>,
}

impl PrerollAudio {
    /// The chunks currently held, oldest first.
    pub closed spec fn held(self) -> Seq<Seq<u8>> {
        self.chunks@.map_values(|c: Vec<u8>| c@)
    }

    pub closed spec fn limit(self) -> nat {
        self.limit as nat
    }

    pub closed spec fn recording(self) -> bool {
        self.recording
    }

    /// The chunks pushed before recording started, oldest first.
    pub closed spec fn pushed(self) -> Seq<Seq<u8>> {
        self.pushed@
    }

    /// The byte count is that of the held chunks, and never above the limit;
    /// before recording, the held chunks are what the pushes so far leave.
    pub closed spec fn wf(self) -> bool {
        &&& self.bytes as nat == total_bytes(self.held())
        &&& self.bytes <= self.limit
        &&& !self.recording ==> self.held() == held_after(self.pushed@, self.limit as nat)
    }

    pub fn new(limit: usize) -> (audio: Self)
        ensures
            audio.wf(),
            audio.held() == Seq::<Seq<u8>>::empty(),
            audio.limit() == limit,
            !audio.recording(),
            audio.pushed() == Seq::<Seq<u8>>::empty(),
    {
        let audio = PrerollAudio {
            chunks: VecDeque::new(),
            bytes: 0,
            limit,
            recording: false,
            pushed: Ghost(Seq::empty()),
        };
        assert(audio.held() =~= Seq::<Seq<u8>>::empty());
        assert(total_bytes(audio.held()) == 0) by {
            assert(audio.held().flatten() =~= Seq::<u8>::empty());
        }
        audio
    }

    /// Takes one captured chunk. Once recording, the chunk is handed back to be
    /// sent at once; before that it is held, and the oldest bytes are dropped
    /// so that at most `limit` bytes stay.
    pub fn push(&mut self, pcm: Vec<u8>) -> (forward: Vec<Vec<u8>>)
        requires
            old(self).wf(),
            total_bytes(old(self).held()) + pcm@.len() <= usize::MAX,
        ensures
            final(self).wf(),
            final(self).limit() == old(self).limit(),
            final(self).recording() == old(self).recording(),
            final(self).pushed() == if old(self).recording() { old(self).pushed() } else { old(self).pushed().push(pcm@) },
            old(self).recording() ==> forward@.map_values(|c: Vec<u8>| c@) == seq![pcm@]
                && final(self).held() == old(self).held(),
            !old(self).recording() ==> forward@.len() == 0
                && final(self).held() == trim_front(old(self).held().push(pcm@),
                    (if total_bytes(old(self).held()) + pcm@.len() > old(self).limit() {
                        (total_bytes(old(self).held()) + pcm@.len() - old(self).limit()) as nat
                    } else {
                        0
                    })),
    {
        if self.recording {
            let ghost p = pcm@;
            let mut forward: Vec<Vec<u8>> = Vec::new();
            forward.push(pcm);
            assert(forward@.map_values(|c: Vec<u8>| c@) =~= seq![p]);
            return forward;
        }
        let ghost before = self.held();
        let ghost p = pcm@;
        proof {
            lemma_flatten_push(before, p);
        }
        self.pushed = Ghost(self.pushed@.push(p));
        self.bytes = self.bytes + pcm.len();
        self.chunks.push_back(pcm);
        assert(self.held() =~= before.push(p));
        let ghost excess0: nat = if self.bytes > self.limit { (self.bytes - self.limit) as nat } else { 0 };
        let ghost all = before.push(p);
        while self.bytes > self.limit
            invariant
                self.limit == old(self).limit,
                !self.recording,
                self.pushed@ == old(self).pushed@.push(pcm@),
                self.bytes as nat == total_bytes(self.held()),
                trim_front(all, excess0) == trim_front(self.held(),
                    if self.bytes > self.limit { (self.bytes - self.limit) as nat } else { 0 }),
            decreases self.bytes, self.chunks.len(),
        {
            let excess = self.bytes - self.limit;
            let ghost h = self.held();
            if self.chunks.len() == 0 {
                assert(h.flatten() =~= Seq::<u8>::empty());
                assert(false);
            }
            let front_len = self.chunks[0].len();
            proof {
                lemma_flatten_front(h);
            }
            assert(h[0] == self.chunks@[0]@);
            if front_len <= excess {
                let _dropped = self.chunks.pop_front();
                self.bytes = self.bytes - front_len;
                assert(self.held() =~= h.drop_first());
                assert(trim_front(h, excess as nat) == trim_front(h.drop_first(), (excess - front_len) as nat));
            } else {
                let front = self.chunks.pop_front().unwrap();
                let mut rest: Vec<u8> = Vec::new();
                let mut i: usize = excess;
                while i < front.len()
                    invariant
                        excess <= i <= front.len(),
                        rest@ == front@.subrange(excess as int, i as int),
                    decreases front.len() - i,
                {
                    rest.push(front[i]);
                    i = i + 1;
                    assert(rest@ =~= front@.subrange(excess as int, i as int));
                }
                assert(rest@ =~= front@.skip(excess as int));
                self.chunks.push_front(rest);
                self.bytes = self.bytes - excess;
                let ghost h2 = h.update(0, h[0].skip(excess as int));
                assert(self.held() =~= h2);
                proof {
                    lemma_flatten_front(h2);
                    assert(h2.drop_first() =~= h.drop_first());
                }
            }
        }
        assert(trim_front(self.held(), 0) == self.held());
        assert(self.pushed@.drop_last() =~= old(self).pushed@);
        Vec::new()
    }

    /// Starts recording: hands back every held chunk, oldest first, and holds
    /// nothing more from now on.
    pub fn start_recording(&mut self) -> (held: Vec<Vec<u8>>)
        requires
            old(self).wf(),
        ensures
            final(self).wf(),
            final(self).recording(),
            final(self).limit() == old(self).limit(),
            final(self).held() == Seq::<Seq<u8>>::empty(),
            final(self).pushed() == old(self).pushed(),
            held@.map_values(|c: Vec<u8>| c@) == old(self).held(),
            !old(self).recording() ==> held@.map_values(|c: Vec<u8>| c@).flatten()
                == newest_bytes(old(self).pushed().flatten(), old(self).limit()),
            !old(self).recording() ==> exists|d: int, cut: int|
                0 <= d <= old(self).pushed().len() && cut_within(old(self).pushed().skip(d), cut)
                    && held@.map_values(|c: Vec<u8>| c@) == #[trigger] cut_front(old(self).pushed().skip(d), cut),
    {
        proof {
            lemma_preroll_holds_newest_bytes_of_all_pushes(self.pushed@, self.limit as nat);
            lemma_preroll_holds_a_suffix_of_the_pushes(self.pushed@, self.limit as nat);
        }
        self.recording = true;
        self.bytes = 0;
        let mut out: Vec<Vec<u8>> = Vec::new();
        let ghost all = self.held();
        while self.chunks.len() > 0
            invariant
                all == out@.map_values(|c: Vec<u8>| c@) + self.held(),
                self.recording,
                self.bytes == 0,
                self.limit == old(self).limit,
                self.pushed@ == old(self).pushed@,
            decreases self.chunks.len(),
        {
            let ghost h = self.held();
            let chunk = self.chunks.pop_front().unwrap();
            out.push(chunk);
            assert(self.held() =~= h.drop_first());
            assert(out@.map_values(|c: Vec<u8>| c@) + self.held() =~= all);
        }
        assert(self.held() =~= Seq::<Seq<u8>>::empty());
        assert(out@.map_values(|c: Vec<u8>| c@) =~= all);
        assert(total_bytes(self.held()) == 0) by {
            assert(self.held().flatten() =~= Seq::<u8>::empty());
        }
        out
    }
}

proof fn lemma_trim_front_flatten(chunks: Seq<Seq<u8>>, excess: nat)
    requires
        excess <= total_bytes(chunks),
    ensures
        trim_front(chunks, excess).flatten() == chunks.flatten().skip(excess as int),
    decreases chunks.len(),
{
    if excess == 0 {
        assert(chunks.flatten().skip(0) =~= chunks.flatten());
    } else if chunks.len() == 0 {
        assert(chunks.flatten() =~= Seq::<u8>::empty());
    } else {
        lemma_flatten_front(chunks);
        let rest = chunks.drop_first();
        if chunks[0].len() <= excess {
            lemma_trim_front_flatten(rest, (excess - chunks[0].len()) as nat);
            assert(chunks.flatten().skip(excess as int) =~= rest.flatten().skip(excess - chunks[0].len()));
        } else {
            let t = chunks.update(0, chunks[0].skip(excess as int));
            lemma_flatten_front(t);
            assert(t.drop_first() =~= rest);
            assert(chunks.flatten().skip(excess as int) =~= chunks[0].skip(excess as int) + rest.flatten());
        }
    }
}

/// While arming, the audio held after a push is exactly the newest `limit`
/// bytes of what was held plus the new chunk (all of it when that fits).
pub proof fn lemma_preroll_keeps_newest_tail(held: Seq<Seq<u8>>, pcm: Seq<u8>, limit: nat)
    ensures
        ({
            let total = total_bytes(held) + pcm.len();
            let excess: nat = if total > limit { (total - limit) as nat } else { 0 };
            &&& trim_front(held.push(pcm), excess).flatten() == (held.flatten() + pcm).skip(excess as int)
            &&& total_bytes(trim_front(held.push(pcm), excess)) == if total > limit { limit } else { total }
        }),
{
    lemma_flatten_push(held, pcm);
    let total = total_bytes(held) + pcm.len();
    let excess: nat = if total > limit { (total - limit) as nat } else { 0 };
    lemma_trim_front_flatten(held.push(pcm), excess);
}

proof fn lemma_flatten_push(s: Seq<Seq<u8>>, x: Seq<u8>)
    ensures
        s.push(x).flatten() == s.flatten() + x,
{
    s.push(x).lemma_flatten_and_flatten_alt_are_equivalent();
    s.lemma_flatten_and_flatten_alt_are_equivalent();
    assert(s.push(x).drop_last() =~= s);
}

proof fn lemma_flatten_front(s: Seq<Seq<u8>>)
    requires
        s.len() > 0,
    ensures
        s.flatten() == s[0] + s.drop_first().flatten(),
{
}

/// The chunks held after pushing `pushes`, in order, into a fresh buffer with
/// byte limit `limit` before recording starts: each push keeps the newest
/// `limit` bytes, as `PrerollAudio::push` does.
pub open spec fn held_after(pushes: Seq<Seq<u8>>, limit: nat) -> Seq<Seq<u8>>
    decreases pushes.len(),
{
    if pushes.len() == 0 {
        Seq::empty()
    } else {
        let held = held_after(pushes.drop_last(), limit);
        let total = total_bytes(held) + pushes.last().len();
        trim_front(held.push(pushes.last()), if total > limit { (total - limit) as nat } else { 0 })
    }
}

/// The newest `limit` bytes of `bytes` (all of them when they fit).
pub open spec fn newest_bytes(bytes: Seq<u8>, limit: nat) -> Seq<u8> {
    if bytes.len() > limit {
        bytes.skip(bytes.len() - limit)
    } else {
        bytes
    }
}

/// Over a whole arming period: what a fresh buffer holds after any sequence
/// of pushes (and so what the first `start_recording` hands back) is exactly
/// the newest `limit` bytes of everything pushed, in push order.
pub proof fn lemma_preroll_holds_newest_bytes_of_all_pushes(pushes: Seq<Seq<u8>>, limit: nat)
    ensures
        held_after(pushes, limit).flatten() == newest_bytes(pushes.flatten(), limit),
        total_bytes(held_after(pushes, limit)) <= limit,
    decreases pushes.len(),
{
    if pushes.len() == 0 {
        assert(Seq::<Seq<u8>>::empty().flatten() =~= Seq::<u8>::empty());
        assert(pushes.flatten() =~= Seq::<u8>::empty());
    } else {
        let before = pushes.drop_last();
        let pcm = pushes.last();
        lemma_preroll_holds_newest_bytes_of_all_pushes(before, limit);
        let held = held_after(before, limit);
        lemma_preroll_keeps_newest_tail(held, pcm, limit);
        lemma_flatten_push(before, pcm);
        assert(before.push(pcm) =~= pushes);
        let all = before.flatten();
        let total = total_bytes(held) + pcm.len();
        let excess: nat = if total > limit { (total - limit) as nat } else { 0 };
        if all.len() > limit {
            assert(held.flatten() == all.skip(all.len() - limit));
            assert((held.flatten() + pcm).skip(excess as int)
                =~= (all + pcm).skip((all + pcm).len() - limit));
        } else {
            assert(held.flatten() == all);
        }
    }
}

/// `chunks` with the first `cut` bytes of its first chunk dropped.
pub open spec fn cut_front(chunks: Seq<Seq<u8>>, cut: int) -> Seq<Seq<u8>> {
    if chunks.len() == 0 {
        chunks
    } else {
        chunks.update(0, chunks[0].skip(cut))
    }
}

/// A valid cut: within the first chunk.
pub open spec fn cut_within(chunks: Seq<Seq<u8>>, cut: int) -> bool {
    0 <= cut && (chunks.len() > 0 ==> cut <= chunks[0].len())
}

proof fn lemma_trim_front_of_cut(chunks: Seq<Seq<u8>>, cut: int, excess: nat) -> (w: (int, int))
    requires
        cut_within(chunks, cut),
    ensures
        0 <= w.0 <= chunks.len(),
        cut_within(chunks.skip(w.0), w.1),
        trim_front(cut_front(chunks, cut), excess) == cut_front(chunks.skip(w.0), w.1),
    decreases chunks.len(),
{
    let c = cut_front(chunks, cut);
    if excess == 0 || chunks.len() == 0 {
        assert(chunks.skip(0) =~= chunks);
        (0, cut)
    } else if c[0].len() <= excess {
        let rest = chunks.drop_first();
        if rest.len() > 0 {
            assert(rest[0].skip(0) =~= rest[0]);
        }
        assert(c.drop_first() =~= cut_front(rest, 0));
        let w = lemma_trim_front_of_cut(rest, 0, (excess - c[0].len()) as nat);
        assert(rest.skip(w.0) =~= chunks.skip(w.0 + 1));
        (w.0 + 1, w.1)
    } else {
        assert(chunks.skip(0) =~= chunks);
        assert(chunks[0].skip(cut).skip(excess as int) =~= chunks[0].skip(cut + excess));
        assert(c.update(0, c[0].skip(excess as int)) =~= cut_front(chunks, cut + excess));
        (0, cut + excess)
    }
}

/// Over a whole arming period: the chunks held are the newest pushes, in push
/// order and unchanged, except that the oldest of them may have lost bytes at
/// its front.
pub proof fn lemma_preroll_holds_a_suffix_of_the_pushes(pushes: Seq<Seq<u8>>, limit: nat)
    ensures
        exists|d: int, cut: int|
            0 <= d <= pushes.len() && cut_within(pushes.skip(d), cut)
                && held_after(pushes, limit) == #[trigger] cut_front(pushes.skip(d), cut),
    decreases pushes.len(),
{
    if pushes.len() == 0 {
        assert(held_after(pushes, limit) =~= cut_front(pushes.skip(0), 0));
    } else {
        let before = pushes.drop_last();
        let pcm = pushes.last();
        lemma_preroll_holds_a_suffix_of_the_pushes(before, limit);
        let (d, cut) = choose|d: int, cut: int|
            0 <= d <= before.len() && cut_within(before.skip(d), cut)
                && held_after(before, limit) == #[trigger] cut_front(before.skip(d), cut);
        let held = held_after(before, limit);
        let total = total_bytes(held) + pcm.len();
        let excess: nat = if total > limit { (total - limit) as nat } else { 0 };
        let (d1, cut1) = if d < before.len() { (d, cut) } else { (d, 0int) };
        assert(before.push(pcm) =~= pushes);
        if d < before.len() {
            assert(pushes.skip(d) =~= before.skip(d).push(pcm));
        } else {
            assert(before.skip(d) =~= Seq::<Seq<u8>>::empty());
            assert(pcm.skip(0) =~= pcm);
            assert(pushes.skip(d) =~= seq![pcm]);
        }
        assert(held.push(pcm) =~= cut_front(pushes.skip(d1), cut1));
        let w = lemma_trim_front_of_cut(pushes.skip(d1), cut1, excess);
        assert(pushes.skip(d1).skip(w.0) =~= pushes.skip(d1 + w.0));
        assert(held_after(pushes, limit) == cut_front(pushes.skip(d1 + w.0), w.1));
    }
}

} // verus!
