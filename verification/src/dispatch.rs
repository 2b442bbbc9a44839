//! The producer path: from characters to dispatch requests.
//!
//! The path feeds each character to the framer, extracts the key of each frame
//! that leaves, and turns the frame into a request to publish it. It decides;
//! it does not send. Whoever owns the connection publishes each request, one at
//! a time and in the order in which they are handed out, and reports back how
//! that went.

use vstd::prelude::*;
use vstd::string::*;
use crate::framer::{
    interleave, is_block, kept, law_blocks_become_frames, run, step, Framer,
};
use crate::key::{extract, extracted, KeyPath};
use crate::text::{is_blank, opt_text, trim};

verus! {

/// How long a publish may wait for the broker, in seconds.
pub const PUBLISH_TIMEOUT_SECS: u64 = 10;

/// The key under which a request without a key is published.
pub open spec fn fallback_key() -> Seq<char> {
    "id"@
}

/// What becomes of a frame in which the key path finds no key.
#[derive(Debug, Clone, Copy, PartialEq, Eq)]
pub enum MissPolicy {
    /// The frame is dropped: not published, not reported.
    Drop,
    /// The frame is published without a key of its own.
    Keyless,
}

/// What becomes of the producer path when a publish fails.
#[derive(Debug, Clone, Copy, PartialEq, Eq)]
pub enum FailurePolicy {
    /// The path ends: the failure is fatal.
    Abort,
    /// The message is given up and the path goes on.
    Skip,
}

/// How a publish ended.
#[derive(Debug, Clone, Copy, PartialEq, Eq)]
pub enum PublishOutcome {
    Delivered,
    TimedOut,
    Failed,
}

/// Whether a path goes on.
#[derive(Debug, Clone, Copy, PartialEq, Eq)]
pub enum Verdict {
    Continue,
    Abort,
}

/// A request to publish one frame.
#[derive(Debug, Clone, PartialEq, Eq)]
pub struct DispatchRequest {
    pub topic: String,
    pub key: Option<String>,
    pub payload: String,
}

/// The mathematical value of a `DispatchRequest`.
pub struct Dispatch {
    pub topic: Seq<char>,
    pub key: Option<Seq<char>>,
    pub payload: Seq<char>,
}

impl View for DispatchRequest {
    type V = Dispatch;

    open spec fn view(&self) -> Dispatch {
        Dispatch { topic: self.topic@, key: opt_text(self.key), payload: self.payload@ }
    }
}

/// The views of a sequence of requests.
pub open spec fn dispatch_views(requests: Seq<DispatchRequest>) -> Seq<Dispatch> {
    Seq::new(requests.len(), |i: int| requests[i]@)
}

/// The request for a frame whose key is `key`: with a key the frame is always
/// published under it; without one the policy decides.
pub open spec fn request_with(
    topic: Seq<char>,
    key: Option<Seq<char>>,
    policy: MissPolicy,
    frame: Seq<char>,
) -> Option<Dispatch> {
    match key {
        Some(k) => Some(Dispatch { topic, key: Some(k), payload: frame }),
        None => match policy {
            MissPolicy::Drop => None,
            MissPolicy::Keyless => Some(Dispatch { topic, key: None, payload: frame }),
        },
    }
}

/// The request for `frame`, if it gets one: its key is the one that `path`
/// extracts from it.
pub open spec fn request_for(
    topic: Seq<char>,
    path: Seq<Seq<char>>,
    policy: MissPolicy,
    frame: Seq<char>,
) -> Option<Dispatch> {
    request_with(topic, extracted(frame, path), policy, frame)
}

/// The requests for `frames`, in the order of the frames.
pub open spec fn requests_for(
    topic: Seq<char>,
    path: Seq<Seq<char>>,
    policy: MissPolicy,
    frames: Seq<Seq<char>>,
) -> Seq<Dispatch>
    decreases frames.len(),
{
    if frames.len() == 0 {
        Seq::<Dispatch>::empty()
    } else {
        let before = requests_for(topic, path, policy, frames.drop_last());
        match request_for(topic, path, policy, frames.last()) {
            Some(request) => before.push(request),
            None => before,
        }
    }
}

/// For each request of `requests_for`, the index of the frame it was made for.
pub open spec fn sources(
    topic: Seq<char>,
    path: Seq<Seq<char>>,
    policy: MissPolicy,
    frames: Seq<Seq<char>>,
) -> Seq<int>
    decreases frames.len(),
{
    if frames.len() == 0 {
        Seq::<int>::empty()
    } else {
        let before = sources(topic, path, policy, frames.drop_last());
        match request_for(topic, path, policy, frames.last()) {
            Some(_) => before.push(frames.len() - 1),
            None => before,
        }
    }
}

/// Whether a path goes on after a publish that ended in `outcome`.
pub open spec fn verdict_after(policy: FailurePolicy, outcome: PublishOutcome) -> Verdict {
    if outcome is Delivered || policy is Skip {
        Verdict::Continue
    } else {
        Verdict::Abort
    }
}

impl DispatchRequest {
    /// The key to publish under: the request's own, or the fallback key `id`
    /// where it has none. A request is never published under the empty key for
    /// want of one.
    pub fn publish_key(&self) -> (key: String)
        ensures
            key@ == match self.key {
                Some(k) => k@,
                None => fallback_key(),
            },
    {
        match &self.key {
            Some(k) => k.clone(),
            None => String::from_str("id"),
        }
    }
}

/// Makes the request for a frame whose extracted key is `key`.
pub fn request_from(topic: &String, key: Option<String>, policy: MissPolicy, frame: String) -> (request:
    Option<DispatchRequest>)
    ensures
        match request {
            Some(r) => request_with(topic@, opt_text(key), policy, frame@) == Some(r@),
            None => request_with(topic@, opt_text(key), policy, frame@) is None,
        },
{
    match key {
        Some(k) => Some(DispatchRequest { topic: topic.clone(), key: Some(k), payload: frame }),
        None => match policy {
            MissPolicy::Drop => None,
            MissPolicy::Keyless => Some(
                DispatchRequest { topic: topic.clone(), key: None, payload: frame },
            ),
        },
    }
}

/// Decides whether a path goes on after a publish.
pub fn after_publish(policy: FailurePolicy, outcome: PublishOutcome) -> (verdict: Verdict)
    ensures
        verdict == verdict_after(policy, outcome),
{
    match outcome {
        PublishOutcome::Delivered => Verdict::Continue,
        _ => match policy {
            FailurePolicy::Skip => Verdict::Continue,
            FailurePolicy::Abort => Verdict::Abort,
        },
    }
}

/// The producer path.
#[derive(Debug)]
pub struct Producer {
    framer: Framer,
    path: KeyPath,
    topic: String,
    on_miss: MissPolicy,
    on_failure: FailurePolicy,
    halted: bool,
}

impl Producer {
    /// The characters that the framer holds.
    pub closed spec fn pending(&self) -> Seq<char> {
        self.framer.pending()
    }

    /// The framer's limit.
    pub closed spec fn cap(&self) -> nat {
        self.framer.cap()
    }

    /// The key path.
    pub closed spec fn path(&self) -> Seq<Seq<char>> {
        self.path@
    }

    /// The topic that requests are made for.
    pub closed spec fn topic(&self) -> Seq<char> {
        self.topic@
    }

    /// What happens to frames without a key.
    pub closed spec fn on_miss(&self) -> MissPolicy {
        self.on_miss
    }

    /// What happens when a publish fails.
    pub closed spec fn on_failure(&self) -> FailurePolicy {
        self.on_failure
    }

    /// Whether a failed publish has ended the path.
    pub closed spec fn halted(&self) -> bool {
        self.halted
    }

    /// The path's invariant: that of its framer.
    pub closed spec fn wf(&self) -> bool {
        self.framer.wf()
    }

    /// Whether `other` differs from this path at most in what is pending and
    /// in being halted.
    pub open spec fn same_setup(&self, other: &Producer) -> bool {
        &&& self.cap() == other.cap()
        &&& self.path() == other.path()
        &&& self.topic() == other.topic()
        &&& self.on_miss() == other.on_miss()
        &&& self.on_failure() == other.on_failure()
    }

    /// A producer path with nothing pending, which drops frames without a key
    /// and ends at the first publish that fails.
    pub fn new(topic: String, path: KeyPath, limit: usize) -> (producer: Producer)
        ensures
            producer.wf(),
            producer.pending() == Seq::<char>::empty(),
            producer.cap() == limit,
            producer.path() == path@,
            producer.topic() == topic@,
            producer.on_miss() == MissPolicy::Drop,
            producer.on_failure() == FailurePolicy::Abort,
            !producer.halted(),
    {
        Producer {
            framer: Framer::new(limit),
            path,
            topic,
            on_miss: MissPolicy::Drop,
            on_failure: FailurePolicy::Abort,
            halted: false,
        }
    }

    /// The same path with other policies.
    pub fn with_policies(self, on_miss: MissPolicy, on_failure: FailurePolicy) -> (producer:
        Producer)
        requires
            self.wf(),
        ensures
            producer.wf(),
            producer.pending() == self.pending(),
            producer.cap() == self.cap(),
            producer.path() == self.path(),
            producer.topic() == self.topic(),
            producer.on_miss() == on_miss,
            producer.on_failure() == on_failure,
            producer.halted() == self.halted(),
    {
        Producer {
            framer: self.framer,
            path: self.path,
            topic: self.topic,
            on_miss,
            on_failure,
            halted: self.halted,
        }
    }

    /// Whether a failed publish has ended the path.
    pub fn is_halted(&self) -> (halted: bool)
        ensures
            halted == self.halted(),
    {
        self.halted
    }

    /// Takes one character of input and returns the request to publish, if
    /// the character completes a frame that is to be published.
    ///
    /// A path that has ended takes nothing: the character is ignored.
    pub fn accept(&mut self, ch: char) -> (request: Option<DispatchRequest>)
        requires
            old(self).wf(),
        ensures
            final(self).wf(),
            final(self).same_setup(old(self)),
            final(self).halted() == old(self).halted(),
            old(self).halted() ==> request is None && final(self).pending() == old(self).pending(),
            !old(self).halted() ==> {
                let fed = step(old(self).cap(), old(self).pending(), ch);
                &&& final(self).pending() == fed.0
                &&& match fed.1 {
                    Some(frame) => match request {
                        Some(r) => request_for(
                            old(self).topic(),
                            old(self).path(),
                            old(self).on_miss(),
                            frame,
                        ) == Some(r@),
                        None => request_for(
                            old(self).topic(),
                            old(self).path(),
                            old(self).on_miss(),
                            frame,
                        ) is None,
                    },
                    None => request is None,
                }
            },
    {
        if self.halted {
            return None;
        }
        match self.framer.feed(ch) {
            Some(frame) => {
                let key = extract(frame.as_str(), &self.path);
                request_from(&self.topic, key, self.on_miss, frame)
            },
            None => None,
        }
    }

    /// Takes the characters of `chunk` in order and returns the requests to
    /// publish, in the order of the frames they are made for.
    pub fn accept_chunk(&mut self, chunk: &str) -> (requests: Vec<DispatchRequest>)
        requires
            old(self).wf(),
        ensures
            final(self).wf(),
            final(self).same_setup(old(self)),
            final(self).halted() == old(self).halted(),
            old(self).halted() ==> requests@.len() == 0 && final(self).pending() == old(
                self,
            ).pending(),
            !old(self).halted() ==> {
                let fed = run(old(self).cap(), old(self).pending(), chunk@);
                &&& final(self).pending() == fed.0
                &&& dispatch_views(requests@) == requests_for(
                    old(self).topic(),
                    old(self).path(),
                    old(self).on_miss(),
                    fed.1,
                )
            },
    {
        let mut requests: Vec<DispatchRequest> = Vec::new();
        if self.halted {
            return requests;
        }
        let ghost start = self.pending();
        let ghost cap = self.cap();
        let ghost topic = self.topic();
        let ghost path = self.path();
        let ghost policy = self.on_miss();
        let ghost before = *self;
        assert(dispatch_views(requests@) == Seq::<Dispatch>::empty());
        for c in it: chunk.chars()
            invariant
                it.seq() == chunk@,
                self.wf(),
                self.same_setup(&before),
                !self.halted(),
                cap == before.cap(),
                topic == before.topic(),
                path == before.path(),
                policy == before.on_miss(),
                self.pending() == run(cap, start, chunk@.take(it.index())).0,
                dispatch_views(requests@) == requests_for(
                    topic,
                    path,
                    policy,
                    run(cap, start, chunk@.take(it.index())).1,
                ),
        {
            let ghost seen = chunk@.take(it.index());
            let ghost next = chunk@.take(it.index() + 1);
            let ghost made = requests@;
            assert(next.drop_last() == seen);
            assert(next.last() == c);
            proof {
                let fed = step(cap, run(cap, start, seen).0, c);
                match fed.1 {
                    Some(frame) => {
                        assert(run(cap, start, next).1.drop_last() == run(cap, start, seen).1);
                        assert(run(cap, start, next).1.last() == frame);
                    },
                    None => {},
                }
            }
            match self.accept(c) {
                Some(request) => {
                    requests.push(request);
                    assert(dispatch_views(requests@) == dispatch_views(made).push(request@));
                },
                None => {},
            }
        }
        assert(chunk@.take(chunk@.len() as int) == chunk@);
        requests
    }

    /// Takes the outcome of the publish of the request handed out last, and
    /// says whether the path goes on. A failure ends the path under the policy
    /// `Abort`, and only there.
    pub fn settle(&mut self, outcome: PublishOutcome) -> (verdict: Verdict)
        requires
            old(self).wf(),
        ensures
            final(self).wf(),
            final(self).same_setup(old(self)),
            final(self).pending() == old(self).pending(),
            final(self).halted() == (old(self).halted() || verdict_after(
                old(self).on_failure(),
                outcome,
            ) is Abort),
            verdict == (if final(self).halted() {
                Verdict::Abort
            } else {
                Verdict::Continue
            }),
    {
        match after_publish(self.on_failure, outcome) {
            Verdict::Abort => {
                self.halted = true;
            },
            Verdict::Continue => {},
        }
        if self.halted {
            Verdict::Abort
        } else {
            Verdict::Continue
        }
    }
}

/// Requests leave in the order of their frames. Each request is the one made
/// for the frame at its index in `sources`, and those indices rise strictly:
/// of two frames that both get a request, the one fed first is handed to the
/// transport first.
pub proof fn law_dispatch_order(
    topic: Seq<char>,
    path: Seq<Seq<char>>,
    policy: MissPolicy,
    frames: Seq<Seq<char>>,
)
    ensures
        sources(topic, path, policy, frames).len() == requests_for(
            topic,
            path,
            policy,
            frames,
        ).len(),
        forall|k: int|
            0 <= k < sources(topic, path, policy, frames).len() ==> {
                let at = #[trigger] sources(topic, path, policy, frames)[k];
                &&& 0 <= at < frames.len()
                &&& request_for(topic, path, policy, frames[at]) == Some(
                    requests_for(topic, path, policy, frames)[k],
                )
                &&& requests_for(topic, path, policy, frames)[k].payload == frames[at]
            },
        forall|i: int, j: int|
            0 <= i < j < sources(topic, path, policy, frames).len() ==> sources(
                topic,
                path,
                policy,
                frames,
            )[i] < sources(topic, path, policy, frames)[j],
    decreases frames.len(),
{
    if frames.len() > 0 {
        law_dispatch_order(topic, path, policy, frames.drop_last());
        let before = sources(topic, path, policy, frames.drop_last());
        assert forall|k: int| 0 <= k < before.len() implies frames.drop_last()[before[k]]
            == frames[before[k]] by {}
    }
}

/// The requests for one run of frames followed by another are those for the
/// first followed by those for the second: cutting the input differently
/// changes no request.
pub proof fn law_requests_concat(
    topic: Seq<char>,
    path: Seq<Seq<char>>,
    policy: MissPolicy,
    first: Seq<Seq<char>>,
    second: Seq<Seq<char>>,
)
    ensures
        requests_for(topic, path, policy, first + second) == requests_for(
            topic,
            path,
            policy,
            first,
        ) + requests_for(topic, path, policy, second),
    decreases second.len(),
{
    let head = requests_for(topic, path, policy, first);
    if second.len() == 0 {
        assert(first + second == first);
        assert(head + Seq::<Dispatch>::empty() == head);
    } else {
        assert((first + second).drop_last() == first + second.drop_last());
        law_requests_concat(topic, path, policy, first, second.drop_last());
        let rest = requests_for(topic, path, policy, second.drop_last());
        match request_for(topic, path, policy, second.last()) {
            Some(request) => {
                assert((head + rest).push(request) == head + rest.push(request));
            },
            None => {},
        }
    }
}

/// Frames that each get a request give as many requests as there are frames,
/// the request of each frame at the index of the frame.
pub proof fn lemma_every_frame_requested(
    topic: Seq<char>,
    path: Seq<Seq<char>>,
    policy: MissPolicy,
    frames: Seq<Seq<char>>,
)
    requires
        forall|i: int|
            0 <= i < frames.len() ==> request_for(topic, path, policy, #[trigger] frames[i])
                is Some,
    ensures
        requests_for(topic, path, policy, frames).len() == frames.len(),
        forall|i: int|
            0 <= i < frames.len() ==> request_for(topic, path, policy, frames[i]) == Some(
                #[trigger] requests_for(topic, path, policy, frames)[i],
            ),
    decreases frames.len(),
{
    if frames.len() > 0 {
        let head = frames.drop_last();
        assert forall|i: int| 0 <= i < head.len() implies request_for(
            topic,
            path,
            policy,
            #[trigger] head[i],
        ) is Some by {
            assert(head[i] == frames[i]);
        }
        lemma_every_frame_requested(topic, path, policy, head);
        assert(request_for(topic, path, policy, frames[frames.len() - 1]) is Some);
        assert forall|i: int| 0 <= i < frames.len() implies request_for(
            topic,
            path,
            policy,
            frames[i],
        ) == Some(#[trigger] requests_for(topic, path, policy, frames)[i]) by {
            if i < head.len() {
                assert(head[i] == frames[i]);
            }
        }
    }
}

/// A stream of brace-balanced blocks, each after its own run of white space
/// and each fitting the limit, gives exactly one request for each block, in
/// order, where the key path finds a key in each frame as it leaves. The
/// payload of each request, trimmed, is its block, and its key is the one
/// found in the payload.
pub proof fn law_blocks_become_requests(
    limit: nat,
    topic: Seq<char>,
    path: Seq<Seq<char>>,
    policy: MissPolicy,
    seps: Seq<Seq<char>>,
    blocks: Seq<Seq<char>>,
    tail: Seq<char>,
)
    requires
        limit > 0 || blocks.len() == 0,
        seps.len() == blocks.len(),
        forall|i: int| 0 <= i < blocks.len() ==> is_blank(#[trigger] seps[i]),
        forall|i: int| 0 <= i < blocks.len() ==> is_block(#[trigger] blocks[i]),
        forall|i: int|
            0 <= i < blocks.len() ==> (#[trigger] seps[i]).len() % limit
                + blocks[i].len() <= limit,
        forall|i: int|
            0 <= i < blocks.len() ==> extracted(
                kept(seps[i], limit) + #[trigger] blocks[i],
                path,
            ) is Some,
        is_blank(tail),
    ensures
        ({
            let frames = run(limit, Seq::<char>::empty(), interleave(seps, blocks) + tail).1;
            let requests = requests_for(topic, path, policy, frames);
            &&& requests.len() == blocks.len()
            &&& forall|i: int|
                0 <= i < blocks.len() ==> {
                    &&& (#[trigger] requests[i]).topic == topic
                    &&& requests[i].payload == kept(seps[i], limit) + blocks[i]
                    &&& trim(requests[i].payload) == blocks[i]
                    &&& requests[i].key == extracted(requests[i].payload, path)
                }
        }),
{
    let frames = run(limit, Seq::<char>::empty(), interleave(seps, blocks) + tail).1;
    let requests = requests_for(topic, path, policy, frames);
    law_blocks_become_frames(limit, seps, blocks, tail);
    assert forall|i: int| 0 <= i < frames.len() implies request_for(
        topic,
        path,
        policy,
        #[trigger] frames[i],
    ) is Some by {
        assert(frames[i] == kept(seps[i], limit) + blocks[i]);
        assert(is_block(blocks[i]));
    }
    lemma_every_frame_requested(topic, path, policy, frames);
    assert forall|i: int| 0 <= i < blocks.len() implies {
        &&& (#[trigger] requests[i]).topic == topic
        &&& requests[i].payload == kept(seps[i], limit) + blocks[i]
        &&& trim(requests[i].payload) == blocks[i]
        &&& requests[i].key == extracted(requests[i].payload, path)
    } by {
        assert(frames[i] == kept(seps[i], limit) + blocks[i]);
        assert(is_block(blocks[i]));
        assert(request_for(topic, path, policy, frames[i]) == Some(requests[i]));
        assert(trim(frames[i]) == blocks[i]);
    }
}

/// Under the policy `Drop` a frame gets a request exactly when it has a key:
/// a frame in which the key path finds nothing is never published.
pub proof fn law_keyless_frames_are_dropped(
    topic: Seq<char>,
    path: Seq<Seq<char>>,
    frame: Seq<char>,
)
    ensures
        request_for(topic, path, MissPolicy::Drop, frame) is Some <==> extracted(frame, path)
            is Some,
{
}

} // verus!
