//! The per-worker aggregator: owns the batch buffer of serialized events,
//! drains it into bounded, FIFO-ordered batches, frames each batch as a JSON
//! array of the already-serialized fragments, and prepares the headers of
//! every outbound delivery.

use vstd::prelude::*;
use vstd::string::*;
use vstd::seq_lib::lemma_flatten_concat;
use crate::config::Config;
use crate::http_callback::HttpCallbackManager;
use crate::text::{spec_dec_digits, usize_to_string};

verus! {

/// The event fragments joined by commas, in order.
pub open spec fn spec_joined(events: Seq<Seq<u8>>) -> Seq<u8>
    decreases events.len(),
{
    if events.len() == 0 {
        Seq::<u8>::empty()
    } else if events.len() == 1 {
        events[0]
    } else {
        spec_joined(events.drop_last()) + seq![44u8] + events.last()
    }
}

/// A batch body: the pre-serialized events wrapped as a JSON array by plain
/// concatenation, never re-serialized.
pub open spec fn spec_events_json(events: Seq<Seq<u8>>) -> Seq<u8> {
    seq![91u8] + spec_joined(events) + seq![93u8]
}

/// How a buffer is cut into batches: while at least `at_least` events remain,
/// cut the oldest `m` (or all that remain, if fewer) into the next batch.
pub open spec fn spec_batches(buf: Seq<Seq<u8>>, m: int, at_least: int) -> Seq<Seq<Seq<u8>>>
    decreases buf.len(),
{
    if m < 1 || at_least < 1 || buf.len() < at_least {
        Seq::<Seq<Seq<u8>>>::empty()
    } else {
        let k = if buf.len() < m {
            buf.len() as int
        } else {
            m
        };
        seq![buf.take(k)] + spec_batches(buf.skip(k), m, at_least)
    }
}

/// What stays in the buffer after draining: the tail of fewer than `at_least`
/// events that no batch was cut from.
pub open spec fn spec_drain_rest(buf: Seq<Seq<u8>>, m: int, at_least: int) -> Seq<Seq<u8>>
    decreases buf.len(),
{
    if m < 1 || at_least < 1 || buf.len() < at_least {
        buf
    } else {
        let k = if buf.len() < m {
            buf.len() as int
        } else {
            m
        };
        spec_drain_rest(buf.skip(k), m, at_least)
    }
}

/// Draining with a threshold of one empties the buffer into ceil(N/M)
/// batches, each of at most M events, whose concatenation is the buffer
/// itself: every event delivered exactly once, oldest first.
pub proof fn lemma_drain_all(buf: Seq<Seq<u8>>, m: int)
    requires
        m >= 1,
    ensures
        spec_batches(buf, m, 1).len() == (buf.len() + m - 1) / m,
        forall|i: int|
            0 <= i < spec_batches(buf, m, 1).len() ==> #[trigger] spec_batches(buf, m, 1)[i].len()
                <= m,
        spec_batches(buf, m, 1).flatten() == buf,
        spec_drain_rest(buf, m, 1) == Seq::<Seq<u8>>::empty(),
    decreases buf.len(),
{
    let bs = spec_batches(buf, m, 1);
    if buf.len() == 0 {
        assert(bs.len() == 0);
        assert((0 + m - 1) / m == 0) by (nonlinear_arith)
            requires
                m >= 1,
        ;
        assert(bs.flatten() =~= buf);
    } else {
        let k = if buf.len() < m {
            buf.len() as int
        } else {
            m
        };
        lemma_drain_all(buf.skip(k), m);
        let rest = spec_batches(buf.skip(k), m, 1);
        assert(bs == seq![buf.take(k)] + rest);
        // The count: one batch here plus those of the tail.
        assert(bs.len() == 1 + (buf.len() - k + m - 1) / m);
        if buf.len() < m {
            assert((buf.len() - k + m - 1) / m == 0) by (nonlinear_arith)
                requires
                    m >= 1,
                    k == buf.len(),
                    0 < buf.len() < m,
            ;
            assert((buf.len() + m - 1) / m == 1) by (nonlinear_arith)
                requires
                    m >= 1,
                    0 < buf.len() < m,
            ;
        } else {
            assert(1 + (buf.len() - m + m - 1) / m == (buf.len() + m - 1) / m) by (nonlinear_arith)
                requires
                    m >= 1,
                    buf.len() >= m,
            ;
        }
        // Each batch is bounded by m.
        assert(forall|i: int| 0 <= i < rest.len() ==> #[trigger] rest[i].len() <= m);
        assert(forall|i: int|
            1 <= i < bs.len() ==> #[trigger] bs[i] == rest[i - 1]);
        assert(bs[0] == buf.take(k));
        // The concatenation covers the buffer once, in order.
        lemma_flatten_concat(seq![buf.take(k)], rest);
        seq![buf.take(k)].lemma_flatten_one_element();
        assert(seq![buf.take(k)].flatten() == buf.take(k));
        assert(bs.flatten() == buf.take(k) + buf.skip(k));
        assert(buf.take(k) + buf.skip(k) =~= buf);
    }
}

/// Under either drain mode, no batch ever exceeds M events, and the batches
/// followed by what stays buffered are exactly the original buffer: every
/// event is delivered or kept exactly once, in FIFO order.
pub proof fn lemma_batches_partition_buffer(buf: Seq<Seq<u8>>, m: int, at_least: int)
    requires
        m >= 1,
        at_least >= 1,
    ensures
        forall|i: int|
            0 <= i < spec_batches(buf, m, at_least).len() ==> #[trigger] spec_batches(
                buf,
                m,
                at_least,
            )[i].len() <= m,
        spec_batches(buf, m, at_least).flatten() + spec_drain_rest(buf, m, at_least) == buf,
    decreases buf.len(),
{
    let bs = spec_batches(buf, m, at_least);
    if buf.len() < at_least {
        assert(bs.flatten() =~= Seq::<Seq<u8>>::empty());
        assert(bs.flatten() + buf =~= buf);
    } else {
        let k = if buf.len() < m {
            buf.len() as int
        } else {
            m
        };
        lemma_batches_partition_buffer(buf.skip(k), m, at_least);
        let rest = spec_batches(buf.skip(k), m, at_least);
        assert(bs == seq![buf.take(k)] + rest);
        assert(forall|i: int| 1 <= i < bs.len() ==> #[trigger] bs[i] == rest[i - 1]);
        assert(bs[0] == buf.take(k));
        lemma_flatten_concat(seq![buf.take(k)], rest);
        seq![buf.take(k)].lemma_flatten_one_element();
        assert(seq![buf.take(k)].flatten() == buf.take(k));
        assert(bs.flatten() + spec_drain_rest(buf, m, at_least) =~= buf.take(k) + (rest.flatten()
            + spec_drain_rest(buf.skip(k), m, at_least)));
        assert(buf.take(k) + buf.skip(k) =~= buf);
    }
}

/// The singleton per-worker aggregator.
pub struct EventRootContext {
    pub context_id: String,
    pub config: Config,
    pub is_start: bool,
    pub event_byte_buffer: Vec<Vec<u8>>,
    pub http_manager: HttpCallbackManager,
}

/// Relies on uuid::Uuid::new_v4 (then ToString): a fresh randomly generated
/// identifier; nothing is assumed of its value.
#[verifier::external_body]
fn new_context_id() -> String {
    uuid::Uuid::new_v4().to_string()
}

impl EventRootContext {
    /// A fresh aggregator for one worker, not yet started.
    pub fn new(config: Config) -> (r: EventRootContext)
        ensures
            r.config == config,
            r.is_start == false,
            r.event_byte_buffer@ == Seq::<Vec<u8>>::empty(),
            r.http_manager.handlers@ == Seq::<(u32, crate::http_callback::Handler)>::empty(),
            crate::http_callback::spec_unique_tokens(r.http_manager.handlers@),
    {
        EventRootContext {
            context_id: String::new(),
            config,
            is_start: false,
            event_byte_buffer: Vec::new(),
            http_manager: HttpCallbackManager::new(),
        }
    }

    /// Worker start-up: pick a fresh context id, mark the start phase, and ask
    /// for a very short first tick — outbound calls are forbidden during
    /// initialization, so the first real work happens on that tick.
    pub fn on_vm_start(&mut self) -> (tick_ms: u64)
        ensures
            final(self).is_start == true,
            tick_ms == 1,
            final(self).config == old(self).config,
            final(self).event_byte_buffer == old(self).event_byte_buffer,
            final(self).http_manager == old(self).http_manager,
    {
        self.context_id = new_context_id();
        self.is_start = true;
        1
    }

    /// The timer decision of one tick: on the first tick after start-up,
    /// leave the start phase and switch the timer to the configured
    /// steady-state interval; afterwards the caller polls the shared queue
    /// and drains with a threshold of one, enforcing the max-wait bound.
    pub fn on_tick(&mut self) -> (new_tick_ms: Option<u64>)
        ensures
            final(self).is_start == false,
            old(self).is_start ==> new_tick_ms == Some(
                old(self).config.env.batch_max_wait as u64,
            ),
            !old(self).is_start ==> new_tick_ms is None,
            final(self).config == old(self).config,
            final(self).context_id == old(self).context_id,
            final(self).event_byte_buffer == old(self).event_byte_buffer,
            final(self).http_manager == old(self).http_manager,
    {
        if self.is_start {
            self.is_start = false;
            Some(self.config.env.batch_max_wait as u64)
        } else {
            None
        }
    }

    /// Append one dequeued event blob to the batch buffer.
    pub fn add_event(&mut self, event_bytes: Vec<u8>)
        ensures
            final(self).event_byte_buffer@ == old(self).event_byte_buffer@.push(event_bytes),
            final(self).config == old(self).config,
            final(self).is_start == old(self).is_start,
            final(self).context_id == old(self).context_id,
            final(self).http_manager == old(self).http_manager,
    {
        self.event_byte_buffer.push(event_bytes);
    }

    /// Frame already-serialized events as one JSON array body by
    /// concatenation: bracket, the fragments joined by commas, bracket.
    pub fn write_events_json(&self, events: Vec<Vec<u8>>) -> (r: Vec<u8>)
        requires
            events@.len() >= 1,
        ensures
            r@ == spec_events_json(events.deep_view()),
    {
        let ghost dv = events.deep_view();
        let n = events.len();
        let mut out: Vec<u8> = Vec::new();
        out.push(91u8);
        let mut i: usize = 0;
        proof {
            assert(out@ =~= seq![91u8] + spec_joined(dv.take(0)));
        }
        while i < n
            invariant
                i <= n,
                n == events@.len(),
                n >= 1,
                dv == events.deep_view(),
                out@ == seq![91u8] + spec_joined(dv.take(i as int)),
            decreases n - i,
        {
            proof {
                assert(dv[i as int] == events@[i as int]@);
                assert(dv.take(i + 1).drop_last() =~= dv.take(i as int));
                assert(dv.take(i + 1).last() == dv[i as int]);
            }
            let ghost out0 = out@;
            if i > 0 {
                out.push(44u8);
            }
            let mut fragment = events[i].clone();
            proof {
                assert(fragment@ == events@[i as int]@);
            }
            out.append(&mut fragment);
            proof {
                if i == 0 {
                    assert(dv.take(1) =~= seq![dv[0]]);
                    assert(spec_joined(dv.take(1)) == dv[0]);
                    assert(out@ =~= seq![91u8] + spec_joined(dv.take(1)));
                } else {
                    assert(spec_joined(dv.take(i + 1)) == spec_joined(dv.take(i as int)) + seq![44u8] + dv[i as int]);
                    assert(out@ =~= seq![91u8] + spec_joined(dv.take(i + 1)));
                }
            }
            i = i + 1;
        }
        out.push(93u8);
        proof {
            assert(dv.take(n as int) =~= dv);
            assert(out@ =~= seq![91u8] + spec_joined(dv) + seq![93u8]);
        }
        out
    }

    /// Cut and frame deliveries: while the buffer holds at least
    /// `drain_at_least` events, cut the oldest `batch_max_size` (or all that
    /// remain) into one batch and frame it as a JSON array body. The returned
    /// bodies are dispatched by the caller in order; the buffer keeps only the
    /// tail below the threshold.
    pub fn drain_and_send(&mut self, drain_at_least: usize) -> (bodies: Vec<Vec<u8>>)
        requires
            drain_at_least >= 1,
            old(self).config.env.batch_max_size >= 1,
        ensures
            bodies.deep_view() == spec_batches(
                old(self).event_byte_buffer.deep_view(),
                old(self).config.env.batch_max_size as int,
                drain_at_least as int,
            ).map_values(|b: Seq<Seq<u8>>| spec_events_json(b)),
            final(self).event_byte_buffer.deep_view() == spec_drain_rest(
                old(self).event_byte_buffer.deep_view(),
                old(self).config.env.batch_max_size as int,
                drain_at_least as int,
            ),
            final(self).config == old(self).config,
            final(self).is_start == old(self).is_start,
            final(self).context_id == old(self).context_id,
            final(self).http_manager == old(self).http_manager,
    {
        let ghost buf0 = self.event_byte_buffer.deep_view();
        let ghost m = self.config.env.batch_max_size as int;
        let ghost al = drain_at_least as int;
        let mut bodies: Vec<Vec<u8>> = Vec::new();
        proof {
            assert(bodies.deep_view() =~= Seq::<Seq<u8>>::empty());
            assert(spec_batches(buf0, m, al).map_values(|b: Seq<Seq<u8>>| spec_events_json(b)).take(
                0,
            ) =~= Seq::<Seq<u8>>::empty());
        }
        while self.event_byte_buffer.len() >= drain_at_least
            invariant
                drain_at_least >= 1,
                self.config.env.batch_max_size >= 1,
                m == self.config.env.batch_max_size as int,
                al == drain_at_least as int,
                self.config == old(self).config,
                self.is_start == old(self).is_start,
                self.context_id == old(self).context_id,
                self.http_manager == old(self).http_manager,
                // the batches of the original buffer are those already framed
                // plus the batches of what remains
                spec_batches(buf0, m, al).map_values(|b: Seq<Seq<u8>>| spec_events_json(b))
                    == bodies.deep_view() + spec_batches(
                    self.event_byte_buffer.deep_view(),
                    m,
                    al,
                ).map_values(|b: Seq<Seq<u8>>| spec_events_json(b)),
                spec_drain_rest(buf0, m, al) == spec_drain_rest(
                    self.event_byte_buffer.deep_view(),
                    m,
                    al,
                ),
            decreases self.event_byte_buffer.len(),
    {
            let ghost cur = self.event_byte_buffer.deep_view();
            let len = self.event_byte_buffer.len();
            let end = if len < self.config.env.batch_max_size {
                len
            } else {
                self.config.env.batch_max_size
            };
            let ghost k = end as int;
            let rest = self.event_byte_buffer.split_off(end);
            let batch = self.event_byte_buffer.split_off(0);
            self.event_byte_buffer = rest;
            proof {
                assert(batch.deep_view() =~= cur.take(k));
                assert(self.event_byte_buffer.deep_view() =~= cur.skip(k));
            }
            let body = self.write_events_json(batch);
            let ghost bodies0 = bodies.deep_view();
            bodies.push(body);
            proof {
                assert(bodies.deep_view() =~~= bodies0.push(spec_events_json(cur.take(k))));
                let bs = spec_batches(cur, m, al);
                assert(bs == seq![cur.take(k)] + spec_batches(cur.skip(k), m, al));
                assert(bs.map_values(|b: Seq<Seq<u8>>| spec_events_json(b)) =~= seq![
                    spec_events_json(cur.take(k)),
                ] + spec_batches(cur.skip(k), m, al).map_values(
                    |b: Seq<Seq<u8>>| spec_events_json(b),
                ));
                assert(bodies0 + (seq![spec_events_json(cur.take(k))] + spec_batches(
                    cur.skip(k),
                    m,
                    al,
                ).map_values(|b: Seq<Seq<u8>>| spec_events_json(b))) =~= bodies.deep_view()
                    + spec_batches(cur.skip(k), m, al).map_values(
                    |b: Seq<Seq<u8>>| spec_events_json(b),
                ));
            }
        }
        proof {
            assert(spec_batches(self.event_byte_buffer.deep_view(), m, al) =~= Seq::<
                Seq<Seq<u8>>,
            >::empty());
            assert(spec_batches(self.event_byte_buffer.deep_view(), m, al).map_values(
                |b: Seq<Seq<u8>>| spec_events_json(b),
            ) =~= Seq::<Seq<u8>>::empty());
            assert(bodies.deep_view() + Seq::<Seq<u8>>::empty() =~= bodies.deep_view());
        }
        bodies
    }

    /// The queue-ready decision: drain with the full-batch threshold, so a
    /// burst of enqueues flushes complete batches without waiting for the
    /// timer.
    pub fn on_queue_ready(&mut self) -> (bodies: Vec<Vec<u8>>)
        requires
            old(self).config.env.batch_max_size >= 1,
        ensures
            bodies.deep_view() == spec_batches(
                old(self).event_byte_buffer.deep_view(),
                old(self).config.env.batch_max_size as int,
                old(self).config.env.batch_max_size as int,
            ).map_values(|b: Seq<Seq<u8>>| spec_events_json(b)),
            final(self).event_byte_buffer.deep_view() == spec_drain_rest(
                old(self).event_byte_buffer.deep_view(),
                old(self).config.env.batch_max_size as int,
                old(self).config.env.batch_max_size as int,
            ),
            final(self).config == old(self).config,
            final(self).is_start == old(self).is_start,
    {
        let at_least = self.config.env.batch_max_size;
        self.drain_and_send(at_least)
    }

    /// The headers of one outbound call to the collector, in order: method,
    /// path, authority, accept, content type, the body length in decimal, and
    /// the application id.
    pub fn build_dispatch_headers(&self, method: &str, path: &str, body_len: usize) -> (r: Vec<
        (String, String),
    >)
        ensures
            r.deep_view() =~= seq![
                (":method"@, method@),
                (":path"@, path@),
                (":authority"@, self.config.env.base_uri@),
                ("accept"@, "*/*"@),
                ("content-type"@, "application/json"@),
                ("content-length"@, spec_dec_digits(body_len as int)),
                ("x-moesif-application-id"@, self.config.env.moesif_application_id@),
            ],
    {
        let content_length = usize_to_string(body_len);
        let mut r: Vec<(String, String)> = Vec::new();
        r.push((":method".to_owned(), method.to_owned()));
        r.push((":path".to_owned(), path.to_owned()));
        r.push((":authority".to_owned(), self.config.env.base_uri.clone()));
        r.push(("accept".to_owned(), "*/*".to_owned()));
        r.push(("content-type".to_owned(), "application/json".to_owned()));
        r.push(("content-length".to_owned(), content_length));
        r.push(("x-moesif-application-id".to_owned(), self.config.env.moesif_application_id.clone()));
        r
    }
}

} // verus!
