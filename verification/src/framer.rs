//! The stream framer: cuts an unbounded character stream into frames by
//! balancing braces.
//!
//! The framer keeps the characters it has not yet handed out (the pending
//! buffer) and their brace depth. A frame leaves when a `}` brings the depth
//! from one back to zero. Nothing is parsed: a brace inside a quoted string
//! counts like any other.
//!
//! A pending buffer whose depth is negative can only come from unbalanced
//! input. Climbing back to zero from below completes nothing: a frame leaves
//! only when the depth comes down to zero from above. Input whose closing
//! braces keep the depth from rising above zero is stuck: it piles up until the
//! buffer is dropped, by `reset` or because it has reached the configured limit.

use vstd::prelude::*;
use vstd::arithmetic::div_mod::{
    lemma_fundamental_div_mod, lemma_fundamental_div_mod_converse, lemma_mod_decreases,
    lemma_mod_pos_bound, lemma_small_mod,
};
use crate::text::{
    is_blank, is_whitespace, lemma_trim_keeps_end, lemma_trim_padded, push_char, texts, trim,
};

verus! {

/// What one character adds to the brace depth.
pub open spec fn brace_delta(c: char) -> int {
    if c == '{' {
        1
    } else if c == '}' {
        -1
    } else {
        0
    }
}

/// The brace depth of `s`: opening braces minus closing braces.
pub open spec fn balance(s: Seq<char>) -> int
    decreases s.len(),
{
    if s.len() == 0 {
        0
    } else {
        balance(s.drop_last()) + brace_delta(s.last())
    }
}

/// Whether feeding `c` to the pending buffer `pending` completes a frame: the
/// depth returns to zero from above.
pub open spec fn completes(pending: Seq<char>, c: char) -> bool {
    c == '}' && balance(pending) == 1
}

/// One step of the framer with the given limit: the pending buffer after `c`
/// has been fed, and the frame that left, if one did.
///
/// The character is appended. If that completes a frame, the whole buffer leaves
/// as the frame. Otherwise, if the buffer has reached the limit, it is dropped.
pub open spec fn step(limit: nat, pending: Seq<char>, c: char) -> (Seq<char>, Option<Seq<char>>) {
    let grown = pending.push(c);
    if completes(pending, c) {
        (Seq::<char>::empty(), Some(grown))
    } else if grown.len() >= limit {
        (Seq::<char>::empty(), None)
    } else {
        (grown, None)
    }
}

/// The framer run over the characters of `input` in order, starting with the
/// pending buffer `pending`: the pending buffer at the end, and the frames that
/// left, in the order in which they left.
pub open spec fn run(limit: nat, pending: Seq<char>, input: Seq<char>) -> (
    Seq<char>,
    Seq<Seq<char>>,
)
    decreases input.len(),
{
    if input.len() == 0 {
        (pending, Seq::<Seq<char>>::empty())
    } else {
        let before = run(limit, pending, input.drop_last());
        let last = step(limit, before.0, input.last());
        match last.1 {
            Some(frame) => (last.0, before.1.push(frame)),
            None => (last.0, before.1),
        }
    }
}

/// The depth of a sequence is never further from zero than the sequence is long.
pub proof fn lemma_balance_bounded(s: Seq<char>)
    ensures
        -s.len() <= balance(s) <= s.len(),
    decreases s.len(),
{
    if s.len() > 0 {
        lemma_balance_bounded(s.drop_last());
    }
}

/// The depth of a concatenation is the sum of the depths.
pub proof fn lemma_balance_concat(a: Seq<char>, b: Seq<char>)
    ensures
        balance(a + b) == balance(a) + balance(b),
    decreases b.len(),
{
    if b.len() == 0 {
        assert(a + b == a);
    } else {
        assert((a + b).drop_last() == a + b.drop_last());
        lemma_balance_concat(a, b.drop_last());
    }
}

/// White space holds no brace.
pub proof fn lemma_balance_blank(s: Seq<char>)
    requires
        is_blank(s),
    ensures
        balance(s) == 0,
    decreases s.len(),
{
    if s.len() > 0 {
        assert(is_whitespace(s[s.len() - 1]));
        assert forall|i: int| 0 <= i < s.drop_last().len() implies is_whitespace(
            #[trigger] s.drop_last()[i],
        ) by {
            assert(s.drop_last()[i] == s[i]);
        }
        lemma_balance_blank(s.drop_last());
    }
}

/// A stream framer.
#[derive(Debug)]
pub struct Framer {
    buffer: String,
    count: usize,
    depth: i128,
    limit: usize,
}

impl Framer {
    /// The characters fed since the last frame left or the buffer was dropped.
    pub closed spec fn pending(&self) -> Seq<char> {
        self.buffer@
    }

    /// The limit the framer was made with: a pending buffer that reaches this
    /// many characters without completing a frame is dropped.
    pub closed spec fn cap(&self) -> nat {
        self.limit as nat
    }

    /// The framer's invariant: the cached length and depth are those of the
    /// pending buffer, which is shorter than the limit.
    pub closed spec fn wf(&self) -> bool {
        &&& self.count == self.buffer@.len()
        &&& self.depth == balance(self.buffer@)
        &&& (self.count < self.limit || self.count == 0)
    }

    /// A framer with nothing pending.
    pub fn new(limit: usize) -> (framer: Framer)
        ensures
            framer.wf(),
            framer.pending() == Seq::<char>::empty(),
            framer.cap() == limit,
    {
        Framer { buffer: String::new(), count: 0, depth: 0, limit }
    }

    /// Feeds one character and returns the frame it completes, if any.
    ///
    /// A frame is the whole pending buffer, white space included; it leaves
    /// exactly when `ch` is a `}` that takes the depth from one to zero, and
    /// what is left of it after trimming is never empty.
    pub fn feed(&mut self, ch: char) -> (frame: Option<String>)
        requires
            old(self).wf(),
        ensures
            final(self).wf(),
            final(self).cap() == old(self).cap(),
            final(self).pending() == step(old(self).cap(), old(self).pending(), ch).0,
            match frame {
                Some(f) => step(old(self).cap(), old(self).pending(), ch).1 == Some(f@),
                None => step(old(self).cap(), old(self).pending(), ch).1 is None,
            },
            frame is Some <==> completes(old(self).pending(), ch),
            frame matches Some(f) ==> trim(f@).len() > 0 && balance(f@) == 0,
    {
        proof {
            lemma_balance_bounded(self.buffer@);
            assert(self.buffer@.push(ch).drop_last() == self.buffer@);
        }
        push_char(&mut self.buffer, ch);
        self.count = self.count + 1;
        if ch == '{' {
            self.depth = self.depth + 1;
        } else if ch == '}' {
            self.depth = self.depth - 1;
        }
        if ch == '}' && self.depth == 0 {
            let mut frame = String::new();
            std::mem::swap(&mut self.buffer, &mut frame);
            self.count = 0;
            proof {
                lemma_trim_keeps_end(frame@);
            }
            Some(frame)
        } else {
            if self.count >= self.limit {
                self.buffer = String::new();
                self.count = 0;
                self.depth = 0;
            }
            None
        }
    }

    /// Feeds the characters of `chunk` in order and returns the frames that they
    /// complete, in the order in which they leave. Chunks need not line up with
    /// frames: what is left over stays pending for the next call.
    pub fn feed_chunk(&mut self, chunk: &str) -> (frames: Vec<String>)
        requires
            old(self).wf(),
        ensures
            final(self).wf(),
            final(self).cap() == old(self).cap(),
            final(self).pending() == run(old(self).cap(), old(self).pending(), chunk@).0,
            texts(frames@) == run(old(self).cap(), old(self).pending(), chunk@).1,
    {
        let ghost start = self.pending();
        let ghost cap = self.cap();
        let mut frames: Vec<String> = Vec::new();
        for c in it: chunk.chars()
            invariant
                it.seq() == chunk@,
                self.wf(),
                self.cap() == cap,
                self.pending() == run(cap, start, chunk@.take(it.index())).0,
                texts(frames@) == run(cap, start, chunk@.take(it.index())).1,
        {
            let ghost seen = chunk@.take(it.index());
            let ghost next = chunk@.take(it.index() + 1);
            let ghost before = frames@;
            assert(next.drop_last() == seen);
            assert(next.last() == c);
            match self.feed(c) {
                Some(frame) => {
                    frames.push(frame);
                    assert(texts(frames@) == texts(before).push(frame@));
                },
                None => {},
            }
        }
        assert(chunk@.take(chunk@.len() as int) == chunk@);
        frames
    }

    /// Drops the pending buffer and returns to depth zero.
    pub fn reset(&mut self)
        ensures
            final(self).wf(),
            final(self).cap() == old(self).cap(),
            final(self).pending() == Seq::<char>::empty(),
    {
        self.buffer = String::new();
        self.count = 0;
        self.depth = 0;
    }

    /// The brace depth of the pending buffer.
    pub fn depth(&self) -> (d: i128)
        requires
            self.wf(),
        ensures
            d == balance(self.pending()),
    {
        self.depth
    }

    /// Whether the pending buffer has more closing than opening braces.
    pub fn is_stuck(&self) -> (stuck: bool)
        requires
            self.wf(),
        ensures
            stuck == (balance(self.pending()) < 0),
    {
        self.depth < 0
    }

    /// The number of pending characters.
    pub fn pending_len(&self) -> (n: usize)
        requires
            self.wf(),
        ensures
            n == self.pending().len(),
    {
        self.count
    }

    /// The limit the framer was made with.
    pub fn limit(&self) -> (n: usize)
        ensures
            n == self.cap(),
    {
        self.limit
    }
}

/// A brace-balanced top-level block: it opens with `{`, its depth is positive
/// from there up to its last character, and that one brings it back to zero.
pub open spec fn is_block(b: Seq<char>) -> bool {
    &&& b.len() > 0
    &&& b[0] == '{'
    &&& balance(b) == 0
    &&& forall|k: int| 0 < k < b.len() ==> balance(#[trigger] b.take(k)) > 0
}

/// The end of a run of white space that is still pending when the run, fed to
/// a framer with nothing pending, is over: the framer drops the run each time
/// it reaches the limit.
pub open spec fn kept(sep: Seq<char>, limit: nat) -> Seq<char>
    recommends
        limit > 0,
{
    sep.skip(sep.len() - sep.len() % limit)
}

/// The stream made of each separator followed by its block.
pub open spec fn interleave(seps: Seq<Seq<char>>, blocks: Seq<Seq<char>>) -> Seq<char>
    recommends
        seps.len() == blocks.len(),
    decreases blocks.len(),
{
    if blocks.len() == 0 || seps.len() != blocks.len() {
        Seq::<char>::empty()
    } else {
        interleave(seps.drop_last(), blocks.drop_last()) + seps.last() + blocks.last()
    }
}

/// A block has at least two characters, ends in `}`, and is at depth one just
/// before that.
pub proof fn lemma_block_end(b: Seq<char>)
    requires
        is_block(b),
    ensures
        b.len() >= 2,
        b.last() == '}',
        balance(b.drop_last()) == 1,
{
    if b.len() == 1 {
        assert(balance(b.drop_last()) == 0);
    }
    assert(b.drop_last() == b.take(b.len() - 1));
}

/// Input of which no character completes a frame, and which does not fill the
/// buffer up to the limit, simply becomes pending.
pub proof fn lemma_run_quiet(limit: nat, pending: Seq<char>, input: Seq<char>)
    requires
        pending.len() + input.len() < limit,
        forall|k: int|
            0 <= k < input.len() ==> !completes(pending + #[trigger] input.take(k), input[k]),
    ensures
        run(limit, pending, input) == (pending + input, Seq::<Seq<char>>::empty()),
    decreases input.len(),
{
    if input.len() == 0 {
        assert(pending + input == pending);
    } else {
        let shorter = input.drop_last();
        assert forall|k: int| 0 <= k < shorter.len() implies !completes(
            pending + #[trigger] shorter.take(k),
            shorter[k],
        ) by {
            assert(shorter.take(k) == input.take(k));
        }
        lemma_run_quiet(limit, pending, shorter);
        assert(input.take(input.len() - 1) == shorter);
        assert(!completes(pending + input.take(input.len() - 1), input[input.len() - 1]));
        assert((pending + shorter).push(input.last()) == pending + input);
    }
}

/// Feeding a stream in two chunks gives what feeding it in one gives: the same
/// frames in the same order, and the same pending buffer. So frames do not
/// depend on where the reads cut the stream.
pub proof fn law_chunking(limit: nat, pending: Seq<char>, first: Seq<char>, second: Seq<char>)
    ensures
        run(limit, pending, first + second).0 == run(
            limit,
            run(limit, pending, first).0,
            second,
        ).0,
        run(limit, pending, first + second).1 == run(limit, pending, first).1 + run(
            limit,
            run(limit, pending, first).0,
            second,
        ).1,
    decreases second.len(),
{
    let mid = run(limit, pending, first);
    if second.len() == 0 {
        assert(first + second == first);
        assert(mid.1 + Seq::<Seq<char>>::empty() == mid.1);
    } else {
        let whole = first + second;
        assert(whole.drop_last() == first + second.drop_last());
        assert(whole.last() == second.last());
        law_chunking(limit, pending, first, second.drop_last());
        let rest = run(limit, mid.0, second.drop_last());
        let last = step(limit, rest.0, second.last());
        match last.1 {
            Some(frame) => {
                assert((mid.1 + rest.1).push(frame) == mid.1 + rest.1.push(frame));
            },
            None => {},
        }
    }
}

/// A run of white space fed to a framer that holds only white space completes
/// no frame, and leaves only white space pending.
pub proof fn lemma_run_blank(limit: nat, pending: Seq<char>, sep: Seq<char>)
    requires
        is_blank(pending),
        is_blank(sep),
    ensures
        run(limit, pending, sep).1 == Seq::<Seq<char>>::empty(),
        is_blank(run(limit, pending, sep).0),
    decreases sep.len(),
{
    if sep.len() > 0 {
        let shorter = sep.drop_last();
        assert forall|i: int| 0 <= i < shorter.len() implies is_whitespace(
            #[trigger] shorter[i],
        ) by {
            assert(shorter[i] == sep[i]);
        }
        lemma_run_blank(limit, pending, shorter);
        assert(is_whitespace(sep[sep.len() - 1]));
    }
}

/// The remainder of a successor: one more, or back to zero.
proof fn lemma_mod_successor(n: nat, l: nat)
    requires
        l > 0,
    ensures
        n % l < l,
        n % l <= n,
        n % l + 1 < l ==> (n + 1) % l == n % l + 1,
        n % l + 1 == l ==> (n + 1) % l == 0,
{
    let q = (n as int) / (l as int);
    let r = (n as int) % (l as int);
    lemma_fundamental_div_mod(n as int, l as int);
    lemma_mod_pos_bound(n as int, l as int);
    lemma_mod_decreases(n, l);
    assert((l as int) * q == q * (l as int)) by (nonlinear_arith);
    if r + 1 < l {
        lemma_fundamental_div_mod_converse(n as int + 1, l as int, q, r + 1);
    } else {
        assert((q + 1) * (l as int) == q * (l as int) + (l as int)) by (nonlinear_arith);
        lemma_fundamental_div_mod_converse(n as int + 1, l as int, q + 1, 0);
    }
}

/// A run of white space fed to a framer with nothing pending leaves pending
/// what `kept` says.
pub proof fn lemma_run_blank_kept(limit: nat, sep: Seq<char>)
    requires
        limit > 0,
        is_blank(sep),
    ensures
        run(limit, Seq::<char>::empty(), sep) == (kept(sep, limit), Seq::<Seq<char>>::empty()),
        kept(sep, limit).len() == sep.len() % limit,
        is_blank(kept(sep, limit)),
    decreases sep.len(),
{
    if sep.len() == 0 {
        lemma_small_mod(0, limit);
        assert(kept(sep, limit) == Seq::<char>::empty());
    } else {
        let shorter = sep.drop_last();
        assert forall|i: int| 0 <= i < shorter.len() implies is_whitespace(
            #[trigger] shorter[i],
        ) by {
            assert(shorter[i] == sep[i]);
        }
        lemma_run_blank_kept(limit, shorter);
        lemma_run_blank(limit, Seq::<char>::empty(), sep);
        lemma_mod_successor(shorter.len(), limit);
        let m = shorter.len() % limit;
        assert(is_whitespace(sep[sep.len() - 1]));
        assert(balance(kept(shorter, limit)) == 0) by {
            lemma_balance_blank(kept(shorter, limit));
        }
        if m + 1 < limit {
            let cut = shorter.len() - m;
            assert(sep.len() == shorter.len() + 1);
            assert(sep.len() % limit == m + 1);
            assert(kept(sep, limit) == sep.skip(cut));
            assert(kept(shorter, limit) == shorter.skip(cut));
            assert(shorter.skip(cut).push(sep.last()) =~= sep.skip(cut));
        } else {
            assert(kept(sep, limit) == Seq::<char>::empty());
        }
    }
}

/// A block fed to a framer that holds only white space, where both together
/// fit the limit, leaves as one frame: the white space followed by the block.
pub proof fn lemma_run_block(limit: nat, pending: Seq<char>, block: Seq<char>)
    requires
        is_blank(pending),
        is_block(block),
        pending.len() + block.len() <= limit,
    ensures
        run(limit, pending, block) == (Seq::<char>::empty(), seq![pending + block]),
        trim(pending + block) == block,
{
    lemma_block_end(block);
    lemma_balance_blank(pending);
    let body = block.drop_last();
    assert forall|k: int| 0 <= k < body.len() implies !completes(
        pending + #[trigger] body.take(k),
        body[k],
    ) by {
        lemma_balance_concat(pending, body.take(k));
        assert(body.take(k) == block.take(k));
        assert(block.take(k + 1).drop_last() == block.take(k));
        assert(block.take(k + 1).last() == body[k]);
        if k > 0 {
            assert(balance(block.take(k)) > 0);
        }
        assert(balance(block.take(k + 1)) > 0);
    }
    lemma_run_quiet(limit, pending, body);
    lemma_balance_concat(pending, body);
    assert(completes(pending + body, block.last()));
    assert((pending + body).push(block.last()) == pending + block);
    assert(Seq::<Seq<char>>::empty().push(pending + block) == seq![pending + block]);
    assert(pending + block + Seq::<char>::empty() == pending + block);
    lemma_trim_padded(pending, block, Seq::<char>::empty());
}

/// A stream of blocks, each after its own run of white space, gives the frame
/// of each block in order, and leaves nothing pending.
pub proof fn lemma_run_blocks(limit: nat, seps: Seq<Seq<char>>, blocks: Seq<Seq<char>>)
    requires
        limit > 0 || blocks.len() == 0,
        seps.len() == blocks.len(),
        forall|i: int| 0 <= i < blocks.len() ==> is_blank(#[trigger] seps[i]),
        forall|i: int| 0 <= i < blocks.len() ==> is_block(#[trigger] blocks[i]),
        forall|i: int|
            0 <= i < blocks.len() ==> (#[trigger] seps[i]).len() % limit
                + blocks[i].len() <= limit,
    ensures
        run(limit, Seq::<char>::empty(), interleave(seps, blocks)).0 == Seq::<char>::empty(),
        run(limit, Seq::<char>::empty(), interleave(seps, blocks)).1 == Seq::new(
            blocks.len(),
            |i: int| kept(seps[i], limit) + blocks[i],
        ),
    decreases blocks.len(),
{
    let nothing = Seq::<char>::empty();
    let frames = Seq::new(blocks.len(), |i: int| kept(seps[i], limit) + blocks[i]);
    if blocks.len() == 0 {
        assert(frames == Seq::<Seq<char>>::empty());
    } else {
        let n = blocks.len() - 1;
        let head_seps = seps.drop_last();
        let head_blocks = blocks.drop_last();
        lemma_run_blocks(limit, head_seps, head_blocks);
        let head = interleave(head_seps, head_blocks);
        let head_frames = Seq::new(
            head_blocks.len(),
            |i: int| kept(head_seps[i], limit) + head_blocks[i],
        );
        assert(is_blank(seps[n]) && is_block(blocks[n]));
        law_chunking(limit, nothing, head, seps[n]);
        lemma_run_blank_kept(limit, seps[n]);
        assert(head_frames + Seq::<Seq<char>>::empty() == head_frames);
        law_chunking(limit, nothing, head + seps[n], blocks[n]);
        lemma_run_block(limit, kept(seps[n], limit), blocks[n]);
        assert(head_frames + seq![kept(seps[n], limit) + blocks[n]] == frames);
    }
}

/// A stream of brace-balanced blocks, each after its own run of white space
/// and with more white space at the end, gives exactly one frame for each
/// block, in order, and each frame trimmed is its block.
///
/// The frame holds, in front of the block, the white space that was still
/// pending when the block began. The block has to fit the limit together with
/// that white space: a block that the limit cuts in two cannot leave whole. So
/// the limit is not zero where there is any block.
pub proof fn law_blocks_become_frames(
    limit: nat,
    seps: Seq<Seq<char>>,
    blocks: Seq<Seq<char>>,
    tail: Seq<char>,
)
    requires
        limit > 0 || blocks.len() == 0,
        seps.len() == blocks.len(),
        forall|i: int| 0 <= i < blocks.len() ==> is_blank(#[trigger] seps[i]),
        forall|i: int| 0 <= i < blocks.len() ==> is_block(#[trigger] blocks[i]),
        forall|i: int|
            0 <= i < blocks.len() ==> (#[trigger] seps[i]).len() % limit
                + blocks[i].len() <= limit,
        is_blank(tail),
    ensures
        run(limit, Seq::<char>::empty(), interleave(seps, blocks) + tail).1.len() == blocks.len(),
        forall|i: int|
            0 <= i < blocks.len() ==> (#[trigger] run(
                limit,
                Seq::<char>::empty(),
                interleave(seps, blocks) + tail,
            ).1[i]) == kept(seps[i], limit) + blocks[i],
        forall|i: int|
            0 <= i < blocks.len() ==> trim(
                #[trigger] run(limit, Seq::<char>::empty(), interleave(seps, blocks) + tail).1[i],
            ) == blocks[i],
{
    let nothing = Seq::<char>::empty();
    lemma_run_blocks(limit, seps, blocks);
    let body = run(limit, nothing, interleave(seps, blocks));
    law_chunking(limit, nothing, interleave(seps, blocks), tail);
    lemma_run_blank(limit, nothing, tail);
    assert(body.1 + Seq::<Seq<char>>::empty() == body.1);
    assert forall|i: int| 0 <= i < blocks.len() implies trim(#[trigger] body.1[i])
        == blocks[i] by {
        lemma_run_blank_kept(limit, seps[i]);
        lemma_run_block(limit, kept(seps[i], limit), blocks[i]);
    }
}

/// As long as the depth of what is pending is at or below zero before each
/// character, no frame leaves: after an unbalanced `}` nothing is handed out
/// until the depth has been above zero and comes back from there.
pub proof fn law_no_frame_below_zero(limit: nat, pending: Seq<char>, input: Seq<char>)
    requires
        forall|k: int|
            0 <= k < input.len() ==> balance(run(limit, pending, #[trigger] input.take(k)).0)
                <= 0,
    ensures
        run(limit, pending, input).1 == Seq::<Seq<char>>::empty(),
    decreases input.len(),
{
    if input.len() > 0 {
        let shorter = input.drop_last();
        assert forall|k: int| 0 <= k < shorter.len() implies balance(
            run(limit, pending, #[trigger] shorter.take(k)).0,
        ) <= 0 by {
            assert(shorter.take(k) == input.take(k));
        }
        law_no_frame_below_zero(limit, pending, shorter);
        assert(input.take(input.len() - 1) == shorter);
    }
}

/// Input that never lifts the depth above zero, and that does not fill the
/// buffer up to the limit, completes no frame and all stays pending. This holds
/// in particular of a stream that begins with unbalanced `}`, for as long as
/// its `{` have not outnumbered its `}`.
pub proof fn law_unbalanced_stays_pending(limit: nat, pending: Seq<char>, input: Seq<char>)
    requires
        pending.len() + input.len() < limit,
        forall|k: int| 0 <= k <= input.len() ==> balance(pending + #[trigger] input.take(k)) <= 0,
    ensures
        run(limit, pending, input) == (pending + input, Seq::<Seq<char>>::empty()),
{
    lemma_run_quiet(limit, pending, input);
}

} // verus!
