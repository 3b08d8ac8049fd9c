//! Retries of proxied requests.
//!
//! A request is retried when the proxy failed to connect to the upstream, which the
//! [`ProxyError`] attached to its answer tells. Because the request was never sent in that case,
//! replaying it is safe for any method. A 502 returned by the upstream itself (or any other
//! status) is never retried.
//!
//! To make replays possible, request bodies are buffered in memory up to a configurable cap
//! before the first attempt. Bodies that exceed the cap are streamed through unbuffered and are
//! forwarded exactly once, without retries.
use crate::balanced_proxy::micros_of;
use crate::message::{plain_answer, Answer, ProxyError, RequestHead};
use core::time::Duration;
use vstd::prelude::*;

verus! {

/// The duration of a number of milliseconds.
pub uninterp spec fn milliseconds(n: u64) -> Duration;

/// `Duration::from_millis`: the duration of `millis` milliseconds, of a thousand microseconds
/// each.
pub assume_specification[ Duration::from_millis ](millis: u64) -> (d: Duration)
    ensures
        d == milliseconds(millis),
        micros_of(d) == millis as nat * 1000,
;

/// How much of a request body is buffered by default.
pub const DEFAULT_MAX_BUFFER_BYTES: usize = 2097152;

/// What a [`RetryLayer`] is configured with.
pub struct RetryView {
    pub attempts: nat,
    pub delay: Duration,
    pub max_buffer_bytes: nat,
}

/// The number of attempts to make where `n` are asked for: at least one.
pub open spec fn at_least_one(n: nat) -> nat {
    if n == 0 {
        1
    } else {
        n
    }
}

/// Layer that retries requests the proxy failed to deliver to the upstream.
pub struct RetryLayer {
    attempts: usize,
    delay: Duration,
    max_buffer_bytes: usize,
}

impl View for RetryLayer {
    type V = RetryView;

    closed spec fn view(&self) -> RetryView {
        RetryView {
            attempts: self.attempts as nat,
            delay: self.delay,
            max_buffer_bytes: self.max_buffer_bytes as nat,
        }
    }
}

impl Clone for RetryLayer {
    fn clone(&self) -> (r: Self)
        ensures
            r@ == self@,
    {
        proof {
            use_type_invariant(self);
        }
        RetryLayer {
            attempts: self.attempts,
            delay: self.delay,
            max_buffer_bytes: self.max_buffer_bytes,
        }
    }
}

impl RetryLayer {
    #[verifier::type_invariant]
    spec fn inv(self) -> bool {
        self.attempts >= 1
    }

    /// Create a layer that makes up to `attempts` total attempts, waiting 500 ms between them.
    /// `attempts` is clamped to at least 1.
    pub fn new(attempts: usize) -> (r: Self)
        ensures
            r@ == (RetryView {
                attempts: at_least_one(attempts as nat),
                delay: milliseconds(500),
                max_buffer_bytes: DEFAULT_MAX_BUFFER_BYTES as nat,
            }),
    {
        Self::with_delay(attempts, Duration::from_millis(500))
    }

    /// Create a layer with an explicit delay between attempts.
    pub fn with_delay(attempts: usize, delay: Duration) -> (r: Self)
        ensures
            r@ == (RetryView {
                attempts: at_least_one(attempts as nat),
                delay,
                max_buffer_bytes: DEFAULT_MAX_BUFFER_BYTES as nat,
            }),
    {
        let attempts: usize = if attempts == 0 {
            1
        } else {
            attempts
        };
        RetryLayer { attempts, delay, max_buffer_bytes: DEFAULT_MAX_BUFFER_BYTES }
    }

    /// Set the maximum request body size that will be buffered for replay. Requests with larger
    /// bodies are forwarded once, without retries.
    #[must_use]
    pub fn with_max_buffer_bytes(self, max_buffer_bytes: usize) -> (r: Self)
        ensures
            r@ == (RetryView { max_buffer_bytes: max_buffer_bytes as nat, ..self@ }),
    {
        proof {
            use_type_invariant(&self);
        }
        RetryLayer { attempts: self.attempts, delay: self.delay, max_buffer_bytes }
    }

    /// Put the layer around a service.
    pub fn layer<S>(&self, inner: S) -> (r: Retry<S>)
        ensures
            r.service() == inner,
            r.configuration() == self@,
    {
        proof {
            use_type_invariant(self);
        }
        Retry { inner, config: self.clone() }
    }
}

/// A service whose requests are retried.
pub struct Retry<S> {
    inner: S,
    config: RetryLayer,
}

impl<S> Retry<S> {
    /// The service inside.
    pub closed spec fn service(&self) -> S {
        self.inner
    }

    /// What the layer was configured with.
    pub closed spec fn configuration(&self) -> RetryView {
        self.config@
    }

    /// The service inside.
    pub fn inner(&self) -> (r: &S)
        ensures
            *r == self.service(),
    {
        &self.inner
    }

    /// How to start on a request: with a buffer for its body, or none where only one attempt is
    /// allowed, and the request is handed on as it is.
    pub fn start(&self) -> (r: Option<BodyBuffer>)
        ensures
            r is Some <==> self.configuration().attempts > 1,
            r matches Some(b) ==> b@ == (BufferView {
                data: Seq::empty(),
                max: self.configuration().max_buffer_bytes,
            }),
    {
        if self.config.attempts == 1 {
            proof {
                use_type_invariant(&self.config);
            }
            None
        } else {
            proof {
                use_type_invariant(&self.config);
            }
            Some(BodyBuffer::new(self.config.max_buffer_bytes))
        }
    }

    /// The attempts to make once the body is buffered.
    pub fn attempts(&self) -> (r: Attempts)
        ensures
            r@ == (AttemptsView {
                made: 0,
                allowed: self.configuration().attempts,
                delay: self.configuration().delay,
            }),
    {
        proof {
            use_type_invariant(&self.config);
        }
        Attempts { made: 0, allowed: self.config.attempts, delay: self.config.delay }
    }

    /// The request to send, once its body is buffered, as often as attempts are allowed.
    pub fn replay<H: Clone>(&self, head: H, body: Vec<u8>) -> (r: Replay<H>)
        ensures
            r@ == (ReplayView {
                head,
                body: body@,
                attempts: AttemptsView {
                    made: 0,
                    allowed: self.configuration().attempts,
                    delay: self.configuration().delay,
                },
            }),
    {
        Replay { head, body, attempts: self.attempts() }
    }
}

/// What a [`BodyBuffer`] holds.
pub struct BufferView {
    pub data: Seq<u8>,
    pub max: nat,
}

/// The part of a request body that has been read.
pub struct BodyBuffer {
    data: Vec<u8>,
    max: usize,
}

impl View for BodyBuffer {
    type V = BufferView;

    closed spec fn view(&self) -> BufferView {
        BufferView { data: self.data@, max: self.max as nat }
    }
}

/// Whether a buffer takes one more piece.
pub open spec fn fits(b: BufferView, chunk: Seq<u8>) -> bool {
    b.data.len() + chunk.len() <= b.max
}

/// What a buffer holds once it was given one more piece: that piece behind the others, or
/// nothing where it does not fit.
pub open spec fn after_chunk(b: BufferView, chunk: Seq<u8>) -> BufferView {
    BufferView {
        data: if fits(b, chunk) {
            b.data + chunk
        } else {
            Seq::empty()
        },
        ..b
    }
}

/// What became of a piece of a request body.
pub enum Buffered {
    /// It is in the buffer; read on.
    Kept,
    /// It would exceed the cap: what was read before it, the piece itself and the rest of the
    /// stream are to be forwarded once, in this order.
    TooLarge { prefix: Vec<u8>, chunk: Vec<u8> },
}

impl BodyBuffer {
    #[verifier::type_invariant]
    spec fn inv(self) -> bool {
        self.data@.len() <= self.max
    }

    /// A buffer that takes up to `max` bytes.
    pub fn new(max: usize) -> (r: Self)
        ensures
            r@ == (BufferView { data: Seq::empty(), max: max as nat }),
    {
        BodyBuffer { data: Vec::new(), max }
    }

    /// Take one more piece of the body, or hand back all that was read where that is too much.
    pub fn add_chunk(&mut self, chunk: Vec<u8>) -> (r: Buffered)
        ensures
            final(self)@ == after_chunk(old(self)@, chunk@),
            r is Kept <==> fits(old(self)@, chunk@),
            r matches Buffered::TooLarge { prefix, chunk: last } ==> prefix@ == old(self)@.data
                && last@ == chunk@,
    {
        proof {
            use_type_invariant(&*self);
        }
        let mut data: Vec<u8> = Vec::new();
        core::mem::swap(&mut self.data, &mut data);
        if chunk.len() > self.max - data.len() {
            assert(self.data@ =~= Seq::empty());
            Buffered::TooLarge { prefix: data, chunk }
        } else {
            data.extend_from_slice(chunk.as_slice());
            assert(data@ =~= old(self)@.data + chunk@);
            self.data = data;
            Buffered::Kept
        }
    }

    /// The complete body.
    pub fn finish(self) -> (r: Vec<u8>)
        ensures
            r@ == self@.data,
            r@.len() <= self@.max,
    {
        proof {
            use_type_invariant(&self);
        }
        self.data
    }
}

/// The answer where the client's body cannot be read.
pub fn body_unreadable() -> (r: Answer)
    ensures
        r@ == plain_answer(400, "Failed to read request body"@),
{
    Answer::plain(400, "Failed to read request body")
}

/// Whether a response is a "could not reach upstream" failure that is safe to retry.
pub fn is_retryable(error: Option<&ProxyError>) -> (r: bool)
    ensures
        r == (error matches Some(e) && e@.is_connect),
{
    match error {
        Some(e) => e.is_connect(),
        None => false,
    }
}

/// How many attempts were made, how many may be, and how long to wait between them.
pub struct AttemptsView {
    pub made: nat,
    pub allowed: nat,
    pub delay: Duration,
}

/// Counts the attempts at one request.
pub struct Attempts {
    made: usize,
    allowed: usize,
    delay: Duration,
}

impl View for Attempts {
    type V = AttemptsView;

    closed spec fn view(&self) -> AttemptsView {
        AttemptsView { made: self.made as nat, allowed: self.allowed as nat, delay: self.delay }
    }
}

/// What to do once an attempt has been answered.
#[derive(Clone, Copy)]
pub enum RetryStep {
    /// Hand the answer back.
    Finish,
    /// Wait this long and send the request again, with the whole body.
    RetryAfter(Duration),
}

/// Whether a request is sent again after one more attempt.
pub open spec fn retries(a: AttemptsView, connect_failed: bool) -> bool {
    connect_failed && a.made + 1 < a.allowed
}

impl Attempts {
    #[verifier::type_invariant]
    spec fn inv(self) -> bool {
        self.made <= self.allowed
    }

    /// An attempt was answered: send again only where it failed to connect and attempts are
    /// left.
    pub fn on_answer(&mut self, connect_failed: bool) -> (r: RetryStep)
        requires
            old(self)@.made < old(self)@.allowed,
        ensures
            final(self)@ == (AttemptsView { made: old(self)@.made + 1, ..old(self)@ }),
            r == (if retries(old(self)@, connect_failed) {
                RetryStep::RetryAfter(old(self)@.delay)
            } else {
                RetryStep::Finish
            }),
    {
        self.made = self.made + 1;
        if connect_failed && self.made < self.allowed {
            RetryStep::RetryAfter(self.delay)
        } else {
            RetryStep::Finish
        }
    }
}

/// What a [`Replay`] sends, and how often it may.
pub struct ReplayView<H> {
    pub head: H,
    pub body: Seq<u8>,
    pub attempts: AttemptsView,
}

/// A buffered request that is sent until it is answered or no attempt is left.
pub struct Replay<H> {
    head: H,
    body: Vec<u8>,
    attempts: Attempts,
}

impl<H> View for Replay<H> {
    type V = ReplayView<H>;

    closed spec fn view(&self) -> ReplayView<H> {
        ReplayView { head: self.head, body: self.body@, attempts: self.attempts@ }
    }
}

/// Whether a request, its head and its body, is the one that is replayed.
pub open spec fn is_replayed<H: Clone>(sent: (H, Vec<u8>), replay: ReplayView<H>) -> bool {
    cloned(replay.head, sent.0) && sent.1@ == replay.body
}

/// What is replayed once one more attempt was answered: the same request.
pub open spec fn after_answer<H>(replay: ReplayView<H>) -> ReplayView<H> {
    ReplayView {
        attempts: AttemptsView { made: replay.attempts.made + 1, ..replay.attempts },
        ..replay
    }
}

impl<H: Clone> Replay<H> {
    /// The request of the next attempt: a copy of the head, and the whole body.
    pub fn request(&self) -> (r: (H, Vec<u8>))
        ensures
            is_replayed(r, self@),
    {
        (self.head.clone(), self.body.clone())
    }

    /// An attempt was answered: send again only where it failed to connect and attempts are
    /// left.
    pub fn on_answer(&mut self, connect_failed: bool) -> (r: RetryStep)
        requires
            old(self)@.attempts.made < old(self)@.attempts.allowed,
        ensures
            final(self)@ == after_answer(old(self)@),
            r == (if retries(old(self)@.attempts, connect_failed) {
                RetryStep::RetryAfter(old(self)@.attempts.delay)
            } else {
                RetryStep::Finish
            }),
    {
        self.attempts.on_answer(connect_failed)
    }
}

/// How often a request is sent, given for each attempt in turn whether it fails to connect.
pub open spec fn times_sent(a: AttemptsView, connect_failed: spec_fn(nat) -> bool) -> nat
    decreases a.allowed - a.made,
{
    if a.made >= a.allowed {
        0
    } else if retries(a, connect_failed(a.made)) {
        1 + times_sent(AttemptsView { made: a.made + 1, ..a }, connect_failed)
    } else {
        1
    }
}

/// A request is sent at least once and at most as often as allowed; every attempt but the last
/// failed to connect; and the last one either did not fail to connect or was the last allowed.
pub proof fn law_only_connect_failures_are_retried(
    a: AttemptsView,
    connect_failed: spec_fn(nat) -> bool,
)
    requires
        a.made == 0,
        a.allowed >= 1,
    ensures
        ({
            let n = times_sent(a, connect_failed);
            &&& 1 <= n <= a.allowed
            &&& forall|i: nat| i + 1 < n ==> #[trigger] connect_failed(i)
            &&& !connect_failed((n - 1) as nat) || n == a.allowed
        }),
{
    lemma_times_sent(a, connect_failed);
}

proof fn lemma_times_sent(a: AttemptsView, connect_failed: spec_fn(nat) -> bool)
    requires
        a.made < a.allowed,
    ensures
        ({
            let n = times_sent(a, connect_failed);
            &&& 1 <= n <= a.allowed - a.made
            &&& forall|i: nat| a.made <= i && i + 1 < a.made + n ==> #[trigger] connect_failed(i)
            &&& !connect_failed((a.made + n - 1) as nat) || n == a.allowed - a.made
        }),
    decreases a.allowed - a.made,
{
    if retries(a, connect_failed(a.made)) {
        lemma_times_sent(AttemptsView { made: a.made + 1, ..a }, connect_failed);
    }
}

/// The bytes of the pieces, one behind the other.
pub open spec fn concatenated(chunks: Seq<Seq<u8>>) -> Seq<u8>
    decreases chunks.len(),
{
    if chunks.len() == 0 {
        Seq::empty()
    } else {
        concatenated(chunks.drop_last()) + chunks.last()
    }
}

/// How many of the pieces of a body an empty buffer takes before it refuses one.
pub open spec fn chunks_kept(chunks: Seq<Seq<u8>>, max: nat) -> nat
    decreases chunks.len(),
{
    if chunks.len() == 0 {
        0
    } else {
        let before = chunks.drop_last();
        let n = chunks_kept(before, max);
        if n == before.len() && fits(
            BufferView { data: concatenated(before), max },
            chunks.last(),
        ) {
            n + 1
        } else {
            n
        }
    }
}

/// A buffer takes a body whole exactly where it fits under the cap, however it is cut into
/// pieces; so a replay carries the complete body, and every other body is forwarded once.
pub proof fn law_body_is_buffered_whole_or_not_at_all(chunks: Seq<Seq<u8>>, max: nat)
    ensures
        chunks_kept(chunks, max) <= chunks.len(),
        chunks_kept(chunks, max) == chunks.len() <==> concatenated(chunks).len() <= max,
    decreases chunks.len(),
{
    if chunks.len() > 0 {
        law_body_is_buffered_whole_or_not_at_all(chunks.drop_last(), max);
    }
}

/// Whether an empty buffer goes through these states as the pieces of a body come in.
pub open spec fn are_buffers(buffers: Seq<BufferView>, chunks: Seq<Seq<u8>>, max: nat) -> bool {
    &&& buffers.len() == chunks.len() + 1
    &&& buffers[0] == (BufferView { data: Seq::empty(), max })
    &&& forall|i: int|
        0 <= i < chunks.len() ==> buffers[i + 1] == after_chunk(buffers[i], #[trigger] chunks[i])
}

/// Whether a replay goes through these states, from attempt to attempt, and sends these requests.
pub open spec fn are_attempts<H: Clone>(
    replays: Seq<ReplayView<H>>,
    sent: Seq<(H, Vec<u8>)>,
) -> bool {
    &&& replays.len() == sent.len()
    &&& forall|i: int| 0 <= i < sent.len() ==> is_replayed(#[trigger] sent[i], replays[i])
    &&& forall|i: int|
        0 <= i < sent.len() - 1 ==> replays[i + 1] == after_answer(#[trigger] replays[i])
}

/// A body that fits under the cap is read whole, and every attempt, the first and each retry,
/// sends the method, URI, version and header fields of the request, and exactly the bytes of
/// that body.
pub proof fn law_every_attempt_sends_the_whole_request(
    chunks: Seq<Seq<u8>>,
    max: nat,
    buffers: Seq<BufferView>,
    head: RequestHead,
    replays: Seq<ReplayView<RequestHead>>,
    sent: Seq<(RequestHead, Vec<u8>)>,
)
    requires
        concatenated(chunks).len() <= max,
        are_buffers(buffers, chunks, max),
        are_attempts(replays, sent),
        sent.len() > 0 ==> replays[0].head == head && replays[0].body == buffers.last().data,
    ensures
        forall|i: int|
            0 <= i < chunks.len() ==> fits(#[trigger] buffers[i], chunks[i]),
        forall|i: int|
            0 <= i < sent.len() ==> (#[trigger] sent[i]).0@ == head@ && sent[i].1@ == concatenated(
                chunks,
            ),
{
    lemma_buffers(chunks, max, buffers, chunks.len() as int);
    assert(chunks.take(chunks.len() as int) =~= chunks);
    assert forall|i: int| 0 <= i < sent.len() implies (#[trigger] sent[i]).0@ == head@
        && sent[i].1@ == concatenated(chunks) by {
        lemma_same_replay(replays, sent, i);
    }
}

proof fn lemma_buffers(chunks: Seq<Seq<u8>>, max: nat, buffers: Seq<BufferView>, n: int)
    requires
        concatenated(chunks).len() <= max,
        are_buffers(buffers, chunks, max),
        0 <= n <= chunks.len(),
    ensures
        buffers[n] == (BufferView { data: concatenated(chunks.take(n)), max }),
        forall|i: int| 0 <= i < n ==> fits(#[trigger] buffers[i], chunks[i]),
    decreases n,
{
    if n > 0 {
        lemma_buffers(chunks, max, buffers, n - 1);
        lemma_prefix_is_no_longer(chunks, n);
        assert(chunks.take(n).drop_last() =~= chunks.take(n - 1));
        assert(buffers[n - 1 + 1] == after_chunk(buffers[n - 1], chunks[n - 1]));
    }
}

proof fn lemma_prefix_is_no_longer(chunks: Seq<Seq<u8>>, n: int)
    requires
        0 <= n <= chunks.len(),
    ensures
        concatenated(chunks.take(n)).len() <= concatenated(chunks).len(),
    decreases chunks.len(),
{
    if n < chunks.len() {
        lemma_prefix_is_no_longer(chunks.drop_last(), n);
        assert(chunks.drop_last().take(n) =~= chunks.take(n));
    } else {
        assert(chunks.take(n) =~= chunks);
    }
}

proof fn lemma_same_replay<H: Clone>(
    replays: Seq<ReplayView<H>>,
    sent: Seq<(H, Vec<u8>)>,
    n: int,
)
    requires
        are_attempts(replays, sent),
        0 <= n < sent.len(),
    ensures
        replays[n].head == replays[0].head,
        replays[n].body == replays[0].body,
    decreases n,
{
    if n > 0 {
        lemma_same_replay(replays, sent, n - 1);
        assert(replays[n - 1 + 1] == after_answer(replays[n - 1]));
    }
}

} // verus!
