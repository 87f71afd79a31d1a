//! Server events, their fan-out to subscribers, and the metrics the dashboard
//! derives from them.
use std::collections::VecDeque;
use std::sync::mpsc::{Receiver, Sender};
use std::time::{Duration, Instant};
use vstd::prelude::*;
use vstd::std_specs::iter::IteratorSpec;

verus! {

/// Something that happened in the server.
#[derive(Debug)]
pub enum ServerEvent {
    ClientConnected { peer: String },
    RequestCompleted {
        method: String,
        path: String,
        status: u16,
        bytes_in: u64,
        bytes_out: u64,
        duration: Duration,
    },
    ServerStopped,
}

impl Clone for ServerEvent {
    fn clone(&self) -> (e: Self)
        ensures
            e == *self,
    {
        match self {
            ServerEvent::ClientConnected { peer } => ServerEvent::ClientConnected {
                peer: peer.clone(),
            },
            ServerEvent::RequestCompleted { method, path, status, bytes_in, bytes_out, duration } =>
            ServerEvent::RequestCompleted {
                method: method.clone(),
                path: path.clone(),
                status: *status,
                bytes_in: *bytes_in,
                bytes_out: *bytes_out,
                duration: duration.clone(),
            },
            ServerEvent::ServerStopped => ServerEvent::ServerStopped,
        }
    }
}

/// `n` copies of `event`, one for each subscriber.
pub fn event_copies(event: &ServerEvent, n: usize) -> (copies: Vec<ServerEvent>)
    ensures
        copies@.len() == n,
        forall|i: int| 0 <= i < n ==> #[trigger] copies@[i] == *event,
{
    let mut copies: Vec<ServerEvent> = Vec::new();
    let mut i: usize = 0;
    while i < n
        invariant
            i <= n,
            copies@.len() == i,
            forall|j: int| 0 <= j < i ==> #[trigger] copies@[j] == *event,
        decreases n - i,
    {
        copies.push(event.clone());
        i += 1;
    }
    copies
}

/// `Duration` is `Copy`: its `clone` returns the same duration.
pub assume_specification[ <Duration as Clone>::clone ](d: &Duration) -> (r: Duration)
    ensures
        r == *d,
;

// ---------------------------------------------------------------------------
// Channels
// ---------------------------------------------------------------------------

/// `std::sync::mpsc::Sender`, carried as an opaque value.
#[verifier::external_type_specification]
#[verifier::external_body]
#[verifier::reject_recursive_types(T)]
pub struct ExSender<T>(Sender<T>);

/// `std::sync::mpsc::Receiver`, carried as an opaque value.
#[verifier::external_type_specification]
#[verifier::external_body]
#[verifier::reject_recursive_types(T)]
pub struct ExReceiver<T>(Receiver<T>);

/// `std::sync::mpsc::channel`: a new channel's two ends.
#[verifier::external_body]
fn open_channel() -> (Sender<ServerEvent>, Receiver<ServerEvent>) {
    std::sync::mpsc::channel()
}

/// `Sender::send`; whether the receiving end still listened. That depends on
/// the receiver, so nothing is promised of it.
#[verifier::external_body]
fn send_event(sender: &Sender<ServerEvent>, event: ServerEvent) -> bool {
    sender.send(event).is_ok()
}

/// The elements of `v` whose flag in `flags` is set, in their order.
pub open spec fn kept_by<T>(v: Seq<T>, flags: Seq<bool>) -> Seq<T>
    decreases v.len(),
{
    if v.len() == 0 {
        Seq::empty()
    } else {
        kept_by(v.drop_last(), flags.drop_last()) + if flags.last() {
            seq![v.last()]
        } else {
            Seq::empty()
        }
    }
}

/// The senders whose event was delivered, in their order: `delivered[i]` tells
/// whether `senders[i]` still had a listener.
pub fn keep_delivered(senders: Vec<Sender<ServerEvent>>, delivered: &Vec<bool>) -> (kept: Vec<
    Sender<ServerEvent>,
>)
    requires
        delivered@.len() == senders@.len(),
    ensures
        kept@ == kept_by(senders@, delivered@),
{
    let ghost all = senders@;
    let mut rest = senders;
    let mut kept: Vec<Sender<ServerEvent>> = Vec::new();
    let total = rest.len();
    let mut i: usize = 0;
    assert(all.skip(0) =~= all);
    while rest.len() > 0
        invariant
            delivered@.len() == all.len(),
            all.len() == total,
            i <= all.len(),
            rest@ == all.skip(i as int),
            kept@ == kept_by(all.take(i as int), delivered@.take(i as int)),
        decreases rest.len(),
    {
        let s = rest.remove(0);
        proof {
            assert(all.take(i + 1).drop_last() =~= all.take(i as int));
            assert(delivered@.take(i + 1).drop_last() =~= delivered@.take(i as int));
            assert(rest@ =~= all.skip(i + 1));
        }
        if delivered[i] {
            kept.push(s);
        }
        i += 1;
    }
    assert(all.take(i as int) =~= all);
    assert(delivered@.take(i as int) =~= delivered@);
    kept
}

/// Hands every event to each subscriber that still listens.
#[derive(Debug)]
pub struct EventBus {
    senders: Vec<Sender<ServerEvent>>,
}

impl EventBus {
    /// The subscribers' sending ends, oldest first.
    pub closed spec fn subscribers(&self) -> Seq<Sender<ServerEvent>> {
        self.senders@
    }

    /// A bus without subscribers.
    pub fn new() -> (b: Self)
        ensures
            b.subscribers().len() == 0,
    {
        EventBus { senders: Vec::new() }
    }

    /// Adds a subscriber and returns the end it receives events on.
    pub fn subscribe(&mut self) -> (r: Receiver<ServerEvent>)
        ensures
            final(self).subscribers().len() == old(self).subscribers().len() + 1,
            final(self).subscribers().drop_last() == old(self).subscribers(),
    {
        let (sender, receiver) = open_channel();
        self.senders.push(sender);
        assert(self.senders@.drop_last() =~= old(self).senders@);
        receiver
    }

    /// Sends a copy of `event` (equal to it) to every subscriber, in order, and
    /// forgets those that stopped listening: exactly the subscribers whose send
    /// went through stay, in their order.
    pub fn emit(&mut self, event: ServerEvent)
        ensures
            exists|delivered: Seq<bool>|
                delivered.len() == old(self).subscribers().len() && final(self).subscribers()
                    == kept_by(old(self).subscribers(), delivered),
    {
        let mut pending: Vec<Sender<ServerEvent>> = Vec::new();
        std::mem::swap(&mut pending, &mut self.senders);
        let mut copies = event_copies(&event, pending.len());
        let mut delivered: Vec<bool> = Vec::new();
        let mut i: usize = 0;
        while i < pending.len()
            invariant
                pending@ == old(self).senders@,
                i <= pending.len(),
                delivered@.len() == i,
                copies@.len() == pending@.len() - i,
                forall|j: int| 0 <= j < copies@.len() ==> #[trigger] copies@[j] == event,
            decreases pending.len() - i,
        {
            let copy = copies.remove(0);
            assert(copy == event);
            let ok = send_event(&pending[i], copy);
            delivered.push(ok);
            i += 1;
        }
        let ghost flags = delivered@;
        self.senders = keep_delivered(pending, &delivered);
        assert(flags.len() == old(self).subscribers().len() && self.subscribers() == kept_by(
            old(self).subscribers(),
            flags,
        ));
    }

}

impl Default for EventBus {
    fn default() -> (b: Self)
        ensures
            b.subscribers().len() == 0,
    {
        EventBus::new()
    }
}

// ---------------------------------------------------------------------------
// Metrics
// ---------------------------------------------------------------------------

/// One finished request, as the activity list shows it.
#[derive(Debug)]
pub struct ActivityEntry {
    pub method: String,
    pub path: String,
    pub status: u16,
    pub bytes_in: u64,
    pub bytes_out: u64,
    pub duration: Duration,
}

impl Clone for ActivityEntry {
    fn clone(&self) -> (e: Self)
        ensures
            e == *self,
    {
        ActivityEntry {
            method: self.method.clone(),
            path: self.path.clone(),
            status: self.status,
            bytes_in: self.bytes_in,
            bytes_out: self.bytes_out,
            duration: self.duration.clone(),
        }
    }
}

/// Bytes moved by one request, and when it finished (nanoseconds after the
/// metrics started).
#[derive(Debug, Clone, Copy)]
struct Sample {
    at: u128,
    bytes_in: u64,
    bytes_out: u64,
}

/// `std::time::Instant`, carried as an opaque value.
#[verifier::external_type_specification]
#[verifier::external_body]
pub struct ExInstant(Instant);

/// `Instant` is `Copy`: its `clone` returns the same instant.
pub assume_specification[ <Instant as Clone>::clone ](t: &Instant) -> (r: Instant)
    ensures
        r == *t,
;

/// `Instant::now`.
#[verifier::external_body]
fn instant_now() -> Instant {
    Instant::now()
}

/// `Instant::elapsed`: the time since `at`; it depends on the clock, so
/// nothing is promised of it.
#[verifier::external_body]
fn instant_elapsed(at: &Instant) -> Duration {
    at.elapsed()
}

/// The whole nanoseconds a duration spans, as `Duration::as_nanos` gives them.
pub uninterp spec fn duration_nanos_of(d: Duration) -> u128;

/// `Duration::as_nanos`: the whole nanoseconds of `d`, a function of `d` alone.
#[verifier::external_body]
pub(crate) fn duration_nanos(d: &Duration) -> (n: u128)
    ensures
        n == duration_nanos_of(*d),
{
    d.as_nanos()
}

/// How long a sample counts toward the transfer rates: five seconds.
pub open spec fn sample_window_nanos() -> u128 {
    5_000_000_000
}

/// A sample taken at `at` is stale at time `now`.
pub open spec fn is_stale(at: u128, now: u128) -> bool {
    now > at && now - at > sample_window_nanos()
}

/// Samples with the stale ones at the front dropped.
pub open spec fn prune(s: Seq<(u128, u64, u64)>, now: u128) -> Seq<(u128, u64, u64)>
    decreases s.len(),
{
    if s.len() > 0 && is_stale(s[0].0, now) {
        prune(s.drop_first(), now)
    } else {
        s
    }
}

/// How many requests the activity list keeps.
pub open spec fn recent_capacity() -> nat {
    8
}

/// Counters and recent activity, built from server events.
#[derive(Debug)]
pub struct Metrics {
    started_at: Instant,
    active_requests: u64,
    total_connections: u64,
    total_requests: u64,
    total_bytes_in: u64,
    total_bytes_out: u64,
    recent: VecDeque<ActivityEntry>,
    samples: VecDeque<Sample>,
}

/// The counters of a `Metrics`.
pub struct Counters {
    pub active_requests: u64,
    pub total_connections: u64,
    pub total_requests: u64,
    pub total_bytes_in: u64,
    pub total_bytes_out: u64,
}

/// What an event does to the counters.
pub open spec fn count_event(c: Counters, e: ServerEvent) -> Counters {
    match e {
        ServerEvent::ClientConnected { .. } => Counters {
            active_requests: (c.active_requests + 1) as u64,
            total_connections: (c.total_connections + 1) as u64,
            ..c
        },
        ServerEvent::RequestCompleted { bytes_in, bytes_out, .. } => Counters {
            active_requests: if c.active_requests == 0 {
                0
            } else {
                (c.active_requests - 1) as u64
            },
            total_requests: (c.total_requests + 1) as u64,
            total_bytes_in: (c.total_bytes_in + bytes_in) as u64,
            total_bytes_out: (c.total_bytes_out + bytes_out) as u64,
            ..c
        },
        ServerEvent::ServerStopped => Counters { active_requests: 0, ..c },
    }
}

/// The counters can take the event without overflowing.
pub open spec fn event_fits(c: Counters, e: ServerEvent) -> bool {
    match e {
        ServerEvent::ClientConnected { .. } => c.active_requests < u64::MAX
            && c.total_connections < u64::MAX,
        ServerEvent::RequestCompleted { bytes_in, bytes_out, .. } => c.total_requests < u64::MAX
            && c.total_bytes_in + bytes_in <= u64::MAX && c.total_bytes_out + bytes_out
            <= u64::MAX,
        ServerEvent::ServerStopped => true,
    }
}

/// The activity entry a completed request makes.
pub open spec fn entry_of(e: ServerEvent) -> Option<ActivityEntry> {
    match e {
        ServerEvent::RequestCompleted { method, path, status, bytes_in, bytes_out, duration } => Some(
            ActivityEntry { method, path, status, bytes_in, bytes_out, duration },
        ),
        _ => None,
    }
}

/// The activity list after an event: the newest request first, at most eight.
pub open spec fn record_event(recent: Seq<ActivityEntry>, e: ServerEvent) -> Seq<ActivityEntry> {
    match entry_of(e) {
        Some(a) => {
            let r = seq![a] + recent;
            if r.len() > recent_capacity() {
                r.subrange(0, recent_capacity() as int)
            } else {
                r
            }
        },
        None => recent,
    }
}

/// The samples after an event at time `now`.
pub open spec fn sample_event(s: Seq<(u128, u64, u64)>, e: ServerEvent, now: u128) -> Seq<
    (u128, u64, u64),
> {
    match e {
        ServerEvent::RequestCompleted { bytes_in, bytes_out, .. } => prune(
            s.push((now, bytes_in, bytes_out)),
            now,
        ),
        _ => prune(s, now),
    }
}

spec fn sample_view(s: Seq<Sample>) -> Seq<(u128, u64, u64)> {
    s.map_values(|x: Sample| (x.at, x.bytes_in, x.bytes_out))
}

pub open spec fn sum_in(s: Seq<(u128, u64, u64)>) -> nat
    decreases s.len(),
{
    if s.len() == 0 {
        0
    } else {
        sum_in(s.drop_last()) + s.last().1 as nat
    }
}

pub open spec fn sum_out(s: Seq<(u128, u64, u64)>) -> nat
    decreases s.len(),
{
    if s.len() == 0 {
        0
    } else {
        sum_out(s.drop_last()) + s.last().2 as nat
    }
}

impl Metrics {
    pub closed spec fn counters(&self) -> Counters {
        Counters {
            active_requests: self.active_requests,
            total_connections: self.total_connections,
            total_requests: self.total_requests,
            total_bytes_in: self.total_bytes_in,
            total_bytes_out: self.total_bytes_out,
        }
    }

    /// Recent requests, newest first.
    pub closed spec fn recent_view(&self) -> Seq<ActivityEntry> {
        self.recent@
    }

    /// The samples within the rate window: when each request finished, and its bytes.
    pub closed spec fn samples_view(&self) -> Seq<(u128, u64, u64)> {
        sample_view(self.samples@)
    }

    /// The activity list is never longer than its capacity.
    #[verifier::type_invariant]
    spec fn recent_fits(&self) -> bool {
        self.recent@.len() <= recent_capacity()
    }

    /// Empty metrics, started now.
    pub fn new() -> (m: Self)
        ensures
            m.counters() == (Counters {
                active_requests: 0,
                total_connections: 0,
                total_requests: 0,
                total_bytes_in: 0,
                total_bytes_out: 0,
            }),
            m.recent_view().len() == 0,
            m.samples_view().len() == 0,
    {
        let m = Metrics {
            started_at: instant_now(),
            active_requests: 0,
            total_connections: 0,
            total_requests: 0,
            total_bytes_in: 0,
            total_bytes_out: 0,
            recent: VecDeque::new(),
            samples: VecDeque::new(),
        };
        assert(sample_view(m.samples@) =~= Seq::<(u128, u64, u64)>::empty());
        m
    }

    /// Applies an event, stamped with the current time.
    pub fn apply(&mut self, event: ServerEvent)
        requires
            event_fits(old(self).counters(), event),
        ensures
            final(self).counters() == count_event(old(self).counters(), event),
            final(self).recent_view() == record_event(old(self).recent_view(), event),
            exists|now: u128|
                final(self).samples_view() == sample_event(old(self).samples_view(), event, now),
    {
        let now = duration_nanos(&instant_elapsed(&self.started_at));
        self.apply_at(event, now);
    }

    /// Applies an event that happened `now` nanoseconds after the metrics started.
    pub fn apply_at(&mut self, event: ServerEvent, now: u128)
        requires
            event_fits(old(self).counters(), event),
        ensures
            final(self).counters() == count_event(old(self).counters(), event),
            final(self).recent_view() == record_event(old(self).recent_view(), event),
            final(self).samples_view() == sample_event(old(self).samples_view(), event, now),
    {
        proof {
            use_type_invariant(&*self);
        }
        let ghost e = event;
        match event {
            ServerEvent::ClientConnected { .. } => {
                self.active_requests = self.active_requests + 1;
                self.total_connections = self.total_connections + 1;
            },
            ServerEvent::RequestCompleted { method, path, status, bytes_in, bytes_out, duration } => {
                self.active_requests = self.active_requests.saturating_sub(1);
                self.total_requests = self.total_requests + 1;
                self.total_bytes_in = self.total_bytes_in + bytes_in;
                self.total_bytes_out = self.total_bytes_out + bytes_out;
                let mut samples: VecDeque<Sample> = VecDeque::new();
                std::mem::swap(&mut samples, &mut self.samples);
                let ghost before = samples@;
                samples.push_back(Sample { at: now, bytes_in, bytes_out });
                assert(sample_view(samples@) =~= sample_view(before).push(
                    (now, bytes_in, bytes_out),
                ));
                self.samples = samples;
                let mut recent: VecDeque<ActivityEntry> = VecDeque::new();
                std::mem::swap(&mut recent, &mut self.recent);
                let ghost old_recent = recent@;
                recent.push_front(ActivityEntry { method, path, status, bytes_in, bytes_out, duration });
                if recent.len() > 8 {
                    recent.pop_back();
                    assert(recent@ =~= (seq![entry_of(e)->0] + old_recent).subrange(0, 8));
                }
                self.recent = recent;
            },
            ServerEvent::ServerStopped => {
                self.active_requests = 0;
            },
        }
        self.prune_samples(now);
    }

    /// Drops the samples at the front that have left the rate window.
    fn prune_samples(&mut self, now: u128)
        ensures
            final(self).samples_view() == prune(old(self).samples_view(), now),
            final(self).counters() == old(self).counters(),
            final(self).recent_view() == old(self).recent_view(),
            final(self).started_at == old(self).started_at,
    {
        proof {
            use_type_invariant(&*self);
        }
        let mut samples: VecDeque<Sample> = VecDeque::new();
        std::mem::swap(&mut samples, &mut self.samples);
        let ghost initial = samples@;
        loop
            invariant
                initial == old(self).samples@,
                prune(sample_view(samples@), now) == prune(sample_view(initial), now),
            ensures
                sample_view(samples@) == prune(sample_view(initial), now),
            decreases samples@.len(),
        {
            if samples.len() == 0 {
                break;
            }
            let at = samples[0].at;
            if !(now > at && now - at > 5_000_000_000) {
                break;
            }
            let ghost before = samples@;
            samples.pop_front();
            assert(sample_view(samples@) =~= sample_view(before).drop_first());
        }
        self.samples = samples;
    }

    /// How long the metrics have been running.
    pub fn uptime(&self) -> Duration {
        instant_elapsed(&self.started_at)
    }

    /// Connections whose request has not completed yet.
    pub fn active_requests(&self) -> (n: u64)
        ensures
            n == self.counters().active_requests,
    {
        self.active_requests
    }

    /// Connections accepted since start.
    pub fn total_connections(&self) -> (n: u64)
        ensures
            n == self.counters().total_connections,
    {
        self.total_connections
    }

    /// Requests completed since start.
    pub fn total_requests(&self) -> (n: u64)
        ensures
            n == self.counters().total_requests,
    {
        self.total_requests
    }

    /// Request body bytes received since start.
    pub fn total_bytes_in(&self) -> (n: u64)
        ensures
            n == self.counters().total_bytes_in,
    {
        self.total_bytes_in
    }

    /// Response body bytes sent since start.
    pub fn total_bytes_out(&self) -> (n: u64)
        ensures
            n == self.counters().total_bytes_out,
    {
        self.total_bytes_out
    }

    /// Recent requests, newest first.
    pub fn recent(&self) -> (it: std::collections::vec_deque::Iter<'_, ActivityEntry>)
        ensures
            it.remaining() == self.recent_view().map_values(|e: ActivityEntry| &e),
    {
        self.recent.iter()
    }

    /// How many recent requests the activity list holds.
    pub fn recent_len(&self) -> (n: usize)
        ensures
            n == self.recent_view().len(),
    {
        self.recent.len()
    }

    /// The `i`-th most recent request.
    pub fn recent_at(&self, i: usize) -> (e: &ActivityEntry)
        requires
            i < self.recent_view().len(),
        ensures
            *e == self.recent_view()[i as int],
    {
        &self.recent[i]
    }

    /// The bytes in and out of the requests within the rate window.
    pub fn window_totals(&self) -> (t: (u128, u128))
        ensures
            t.0 == sum_in(self.samples_view()),
            t.1 == sum_out(self.samples_view()),
    {
        let mut a: u128 = 0;
        let mut b: u128 = 0;
        let mut i: usize = 0;
        let ghost s = sample_view(self.samples@);
        while i < self.samples.len()
            invariant
                s == sample_view(self.samples@),
                0 <= i <= s.len(),
                a == sum_in(s.subrange(0, i as int)),
                b == sum_out(s.subrange(0, i as int)),
                a <= i * u64::MAX,
                b <= i * u64::MAX,
            decreases s.len() - i,
        {
            let x = self.samples[i];
            proof {
                assert(s.subrange(0, i + 1).drop_last() =~= s.subrange(0, i as int));
                assert(i < usize::MAX);
                assert((i + 1) * u64::MAX == i * u64::MAX + u64::MAX) by (nonlinear_arith);
                assert((i + 1) * u64::MAX <= u128::MAX) by (nonlinear_arith)
                    requires
                        i < usize::MAX,
                        usize::MAX <= u64::MAX,
                ;
            }
            a = a + x.bytes_in as u128;
            b = b + x.bytes_out as u128;
            i += 1;
        }
        assert(s.subrange(0, s.len() as int) =~= s);
        (a, b)
    }
}

impl Clone for Metrics {
    fn clone(&self) -> (m: Self)
        ensures
            m.counters() == self.counters(),
            m.recent_view() == self.recent_view(),
            m.samples_view() == self.samples_view(),
    {
        proof {
            use_type_invariant(self);
        }
        let recent = self.recent.clone();
        let samples = self.samples.clone();
        assert(recent@ =~= self.recent@);
        assert(samples@ =~= self.samples@);
        Metrics {
            started_at: self.started_at.clone(),
            active_requests: self.active_requests,
            total_connections: self.total_connections,
            total_requests: self.total_requests,
            total_bytes_in: self.total_bytes_in,
            total_bytes_out: self.total_bytes_out,
            recent,
            samples,
        }
    }
}

impl Default for Metrics {
    fn default() -> (m: Self)
        ensures
            m.recent_view().len() == 0,
    {
        Metrics::new()
    }
}

/// The activity list after a run of events, starting from `recent`.
pub open spec fn record_events(recent: Seq<ActivityEntry>, events: Seq<ServerEvent>) -> Seq<
    ActivityEntry,
>
    decreases events.len(),
{
    if events.len() == 0 {
        recent
    } else {
        record_event(record_events(recent, events.drop_last()), events.last())
    }
}

/// The requests that a run of events completes, in the order they finished.
pub open spec fn completed_requests(events: Seq<ServerEvent>) -> Seq<ActivityEntry>
    decreases events.len(),
{
    if events.len() == 0 {
        Seq::empty()
    } else {
        completed_requests(events.drop_last()) + match entry_of(events.last()) {
            Some(a) => seq![a],
            None => Seq::empty(),
        }
    }
}

/// At most the first `n` items of `s`.
pub open spec fn first_at_most(s: Seq<ActivityEntry>, n: nat) -> Seq<ActivityEntry> {
    if s.len() <= n {
        s
    } else {
        s.take(n as int)
    }
}

/// Starting empty, the activity list always holds the latest completed
/// requests, newest first, and no more than eight of them.
pub proof fn lemma_recent_holds_latest_requests(events: Seq<ServerEvent>)
    ensures
        record_events(Seq::empty(), events) == first_at_most(
            completed_requests(events).reverse(),
            recent_capacity(),
        ),
    decreases events.len(),
{
    if events.len() > 0 {
        let prev = events.drop_last();
        lemma_recent_holds_latest_requests(prev);
        let x = completed_requests(prev).reverse();
        match entry_of(events.last()) {
            Some(a) => {
                assert(completed_requests(events) == completed_requests(prev) + seq![a]);
                assert((completed_requests(prev) + seq![a]).reverse() =~= seq![a] + x);
                let kept = first_at_most(x, recent_capacity());
                let r = seq![a] + kept;
                if x.len() <= 8 {
                    assert(first_at_most(seq![a] + x, 8) =~= (if r.len() > 8 {
                        r.subrange(0, 8)
                    } else {
                        r
                    }));
                } else {
                    assert(r.subrange(0, 8) =~= (seq![a] + x).take(8));
                }
            },
            None => {
                assert(completed_requests(events) =~= completed_requests(prev));
            },
        }
    } else {
        assert(completed_requests(events).reverse() =~= Seq::<ActivityEntry>::empty());
    }
}

/// The counters after a run of events, starting from `c`.
pub open spec fn count_events(c: Counters, events: Seq<ServerEvent>) -> Counters
    decreases events.len(),
{
    if events.len() == 0 {
        c
    } else {
        count_event(count_events(c, events.drop_last()), events.last())
    }
}

/// How many clients connected during a run of events.
pub open spec fn connections_in(events: Seq<ServerEvent>) -> nat
    decreases events.len(),
{
    if events.len() == 0 {
        0
    } else {
        connections_in(events.drop_last()) + if events.last() is ClientConnected {
            1nat
        } else {
            0nat
        }
    }
}

/// How many requests completed during a run of events.
pub open spec fn requests_in(events: Seq<ServerEvent>) -> nat
    decreases events.len(),
{
    if events.len() == 0 {
        0
    } else {
        requests_in(events.drop_last()) + if events.last() is RequestCompleted {
            1nat
        } else {
            0nat
        }
    }
}

/// The request bytes and response bytes of the completed requests of a run of events.
pub open spec fn bytes_in_out(events: Seq<ServerEvent>) -> (nat, nat)
    decreases events.len(),
{
    if events.len() == 0 {
        (0, 0)
    } else {
        let prev = bytes_in_out(events.drop_last());
        match events.last() {
            ServerEvent::RequestCompleted { bytes_in, bytes_out, .. } => (
                prev.0 + bytes_in as nat,
                prev.1 + bytes_out as nat,
            ),
            _ => prev,
        }
    }
}

/// The counters all start at zero.
pub open spec fn zero_counters() -> Counters {
    Counters {
        active_requests: 0,
        total_connections: 0,
        total_requests: 0,
        total_bytes_in: 0,
        total_bytes_out: 0,
    }
}

/// Starting from zero, the totals are the number of clients that connected,
/// the number of requests that completed, and the bytes those requests moved,
/// as long as they fit their counters.
pub proof fn lemma_totals_count_events(events: Seq<ServerEvent>)
    requires
        connections_in(events) <= u64::MAX,
        requests_in(events) <= u64::MAX,
        bytes_in_out(events).0 <= u64::MAX,
        bytes_in_out(events).1 <= u64::MAX,
    ensures
        count_events(zero_counters(), events).total_connections == connections_in(events),
        count_events(zero_counters(), events).total_requests == requests_in(events),
        count_events(zero_counters(), events).total_bytes_in == bytes_in_out(events).0,
        count_events(zero_counters(), events).total_bytes_out == bytes_in_out(events).1,
    decreases events.len(),
{
    if events.len() > 0 {
        lemma_totals_count_events(events.drop_last());
    }
}

/// A completed request goes to the front of the activity list, followed by at
/// most seven of the entries before it, in their order; other events leave
/// the list as it was. The list never grows past eight.
pub proof fn lemma_record_event_shape(recent: Seq<ActivityEntry>, e: ServerEvent)
    requires
        recent.len() <= recent_capacity(),
    ensures
        e is RequestCompleted ==> record_event(recent, e) == seq![entry_of(e)->0] + recent.take(
            if recent.len() < 7 {
                recent.len() as int
            } else {
                7
            },
        ),
        !(e is RequestCompleted) ==> record_event(recent, e) == recent,
        record_event(recent, e).len() <= recent_capacity(),
{
    if e is RequestCompleted {
        let r = seq![entry_of(e)->0] + recent;
        if recent.len() < 8 {
            assert(recent.take(recent.len() as int) =~= recent);
        } else {
            assert(r.subrange(0, 8) =~= seq![entry_of(e)->0] + recent.take(7));
        }
    }
}

} // verus!
