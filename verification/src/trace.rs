//! The trace log: fixed-width records of the stack-decisive events, held
//! in an ordered queue of age-bounded fragments, and the replay that
//! rebuilds a policy stack from them at a policy switch.
//!
//! A record is seventeen bytes: a one-byte tag (`0` get, `1` set, `2`
//! delete, `3` resize) followed by the eight-byte little-endian hashed
//! key (get, delete), the key and the eight-byte little-endian size
//! (set), or the eight-byte little-endian size (resize), padded with zero
//! bytes to the record width.  The fixed width permits random-access
//! checks without re-framing.
use vstd::prelude::*;

use vstd::bytes::{
    lemma_auto_spec_u64_to_from_le_bytes, spec_u64_from_le_bytes, spec_u64_to_le_bytes,
    u64_from_le_bytes, u64_to_le_bytes,
};
use vstd::slice::slice_subrange;

use crate::CacheSize;
use crate::events::{StackEvent, TraceEvent};
use crate::policy::PaperPolicy;
use crate::stack::{PolicyStack, init_policy_stack};

verus! {

/// The byte width of one trace record.
pub const TRACE_RECORD_WIDTH: usize = 17;

/// How long a fragment accepts new records, in milliseconds: one hour.
pub const TRACE_REFRESH_AGE_MS: u64 = 3_600_000;

/// How long a fragment is retained, in milliseconds: seven days.
pub const TRACE_MAX_AGE_MS: u64 = 604_800_000;

/// Eight zero padding bytes.
pub open spec fn spec_zero8() -> Seq<u8> {
    Seq::new(8, |i: int| 0u8)
}

/// The seventeen-byte record of one trace event.
pub open spec fn spec_encode_event(event: TraceEvent) -> Seq<u8> {
    match event {
        TraceEvent::Get(key) => seq![0u8] + spec_u64_to_le_bytes(key) + spec_zero8(),
        TraceEvent::Put(key, size) => seq![1u8] + spec_u64_to_le_bytes(key) + spec_u64_to_le_bytes(
            size as u64,
        ),
        TraceEvent::Del(key) => seq![2u8] + spec_u64_to_le_bytes(key) + spec_zero8(),
        TraceEvent::Resize(size) => seq![3u8] + spec_u64_to_le_bytes(size) + spec_zero8(),
    }
}

/// The event a seventeen-byte record holds, or `None` for an unknown tag
/// or a set size beyond its width.
pub open spec fn spec_decode_record(s: Seq<u8>) -> Option<TraceEvent> {
    if s.len() != TRACE_RECORD_WIDTH {
        None
    } else {
        let key = spec_u64_from_le_bytes(s.subrange(1, 9));
        let wide = spec_u64_from_le_bytes(s.subrange(9, 17));
        if s[0] == 0 {
            Some(TraceEvent::Get(key))
        } else if s[0] == 1 {
            if wide <= u32::MAX {
                Some(TraceEvent::Put(key, wide as u32))
            } else {
                None
            }
        } else if s[0] == 2 {
            Some(TraceEvent::Del(key))
        } else if s[0] == 3 {
            Some(TraceEvent::Resize(key))
        } else {
            None
        }
    }
}

/// Decoding a record gives back the event it encodes.
pub proof fn lemma_trace_round_trip(event: TraceEvent)
    ensures
        spec_encode_event(event).len() == TRACE_RECORD_WIDTH,
        spec_decode_record(spec_encode_event(event)) == Some(event),
{
    lemma_auto_spec_u64_to_from_le_bytes();
    let s = spec_encode_event(event);
    match event {
        TraceEvent::Get(key) => {
            assert(s.subrange(1, 9) =~= spec_u64_to_le_bytes(key));
        },
        TraceEvent::Put(key, size) => {
            assert(s.subrange(1, 9) =~= spec_u64_to_le_bytes(key));
            assert(s.subrange(9, 17) =~= spec_u64_to_le_bytes(size as u64));
        },
        TraceEvent::Del(key) => {
            assert(s.subrange(1, 9) =~= spec_u64_to_le_bytes(key));
        },
        TraceEvent::Resize(size) => {
            assert(s.subrange(1, 9) =~= spec_u64_to_le_bytes(size));
        },
    }
}

/// The records of a whole event sequence, one after another.
pub open spec fn spec_encode_all(events: Seq<TraceEvent>) -> Seq<u8>
    decreases events.len(),
{
    if events.len() == 0 {
        Seq::<u8>::empty()
    } else {
        spec_encode_all(events.drop_last()) + spec_encode_event(events.last())
    }
}

/// The encoded log is one record per event.
pub proof fn lemma_encode_all_len(events: Seq<TraceEvent>)
    ensures
        spec_encode_all(events).len() == events.len() * TRACE_RECORD_WIDTH,
    decreases events.len(),
{
    if events.len() > 0 {
        lemma_encode_all_len(events.drop_last());
        lemma_trace_round_trip(events.last());
    }
}

/// Each record of the encoded log stands at its event's offset.
pub proof fn lemma_encode_all_index(events: Seq<TraceEvent>, i: int)
    requires
        0 <= i < events.len(),
    ensures
        spec_encode_all(events).subrange(
            i * TRACE_RECORD_WIDTH,
            i * TRACE_RECORD_WIDTH + TRACE_RECORD_WIDTH,
        ) == spec_encode_event(events[i]),
    decreases events.len(),
{
    lemma_encode_all_len(events);
    lemma_trace_round_trip(events.last());
    if i == events.len() - 1 {
        lemma_encode_all_len(events.drop_last());
        assert(spec_encode_all(events).subrange(
            i * TRACE_RECORD_WIDTH,
            i * TRACE_RECORD_WIDTH + TRACE_RECORD_WIDTH,
        ) =~= spec_encode_event(events.last()));
    } else {
        lemma_encode_all_index(events.drop_last(), i);
        lemma_encode_all_len(events.drop_last());
        assert(spec_encode_all(events).subrange(
            i * TRACE_RECORD_WIDTH,
            i * TRACE_RECORD_WIDTH + TRACE_RECORD_WIDTH,
        ) =~= spec_encode_all(events.drop_last()).subrange(
            i * TRACE_RECORD_WIDTH,
            i * TRACE_RECORD_WIDTH + TRACE_RECORD_WIDTH,
        ));
    }
}

/// Appends the record of `event` to `data`.
pub fn encode_event(event: &TraceEvent, data: &mut Vec<u8>)
    ensures
        final(data)@ == old(data)@ + spec_encode_event(*event),
{
    let (tag, first, second): (u8, u64, Option<u64>) = match event {
        TraceEvent::Get(key) => (0, *key, None),
        TraceEvent::Put(key, size) => (1, *key, Some(*size as u64)),
        TraceEvent::Del(key) => (2, *key, None),
        TraceEvent::Resize(size) => (3, *size, None),
    };
    data.push(tag);
    let first_bytes = u64_to_le_bytes(first);
    let mut i: usize = 0;
    while i < 8
        invariant
            0 <= i <= 8,
            first_bytes@ == spec_u64_to_le_bytes(first),
            first_bytes@.len() == 8,
            data@ == old(data)@ + seq![tag] + first_bytes@.subrange(0, i as int),
        decreases 8 - i,
    {
        data.push(first_bytes[i]);
        proof {
            assert(data@ =~= old(data)@ + seq![tag] + first_bytes@.subrange(0, i + 1));
        }
        i = i + 1;
    }
    proof {
        assert(first_bytes@.subrange(0, 8) =~= first_bytes@);
    }
    match second {
        Some(wide) => {
            let second_bytes = u64_to_le_bytes(wide);
            let mut j: usize = 0;
            while j < 8
                invariant
                    0 <= j <= 8,
                    second_bytes@ == spec_u64_to_le_bytes(wide),
                    second_bytes@.len() == 8,
                    data@ == old(data)@ + seq![tag] + spec_u64_to_le_bytes(first)
                        + second_bytes@.subrange(0, j as int),
                decreases 8 - j,
            {
                data.push(second_bytes[j]);
                proof {
                    assert(data@ =~= old(data)@ + seq![tag] + spec_u64_to_le_bytes(first)
                        + second_bytes@.subrange(0, j + 1));
                }
                j = j + 1;
            }
            proof {
                assert(second_bytes@.subrange(0, 8) =~= second_bytes@);
                assert(data@ =~= old(data)@ + spec_encode_event(*event));
            }
        },
        None => {
            let mut j: usize = 0;
            while j < 8
                invariant
                    0 <= j <= 8,
                    data@ == old(data)@ + seq![tag] + spec_u64_to_le_bytes(first)
                        + spec_zero8().subrange(0, j as int),
                decreases 8 - j,
            {
                data.push(0);
                proof {
                    assert(data@ =~= old(data)@ + seq![tag] + spec_u64_to_le_bytes(first)
                        + spec_zero8().subrange(0, j + 1));
                }
                j = j + 1;
            }
            proof {
                assert(spec_zero8().subrange(0, 8) =~= spec_zero8());
                assert(data@ =~= old(data)@ + spec_encode_event(*event));
            }
        },
    }
}

/// Reads the record at byte offset `at` of `data`.
pub fn decode_record(data: &Vec<u8>, at: usize) -> (r: Option<TraceEvent>)
    requires
        at + TRACE_RECORD_WIDTH <= data@.len(),
    ensures
        r == spec_decode_record(data@.subrange(at as int, at + TRACE_RECORD_WIDTH)),
{
    let total = data.len();
    proof {
        assert(at + 17 <= total);
    }
    let ghost record = data@.subrange(at as int, at + TRACE_RECORD_WIDTH);
    let tag = data[at];
    let key_slice = slice_subrange(data.as_slice(), at + 1, at + 9);
    let wide_slice = slice_subrange(data.as_slice(), at + 9, at + 17);
    let key = u64_from_le_bytes(key_slice);
    let wide = u64_from_le_bytes(wide_slice);
    proof {
        assert(key_slice@ =~= record.subrange(1, 9));
        assert(wide_slice@ =~= record.subrange(9, 17));
        assert(record[0] == data@[at as int]);
    }
    if tag == 0 {
        Some(TraceEvent::Get(key))
    } else if tag == 1 {
        if wide <= u32::MAX as u64 {
            Some(TraceEvent::Put(key, wide as u32))
        } else {
            None
        }
    } else if tag == 2 {
        Some(TraceEvent::Del(key))
    } else if tag == 3 {
        Some(TraceEvent::Resize(key))
    } else {
        None
    }
}

/// One fragment of the trace log: its creation instant and its records.
/// The ghost event sequence names what the bytes encode.
pub struct TraceFragment {
    pub created: u64,
    pub data: Vec<u8>,
    pub events: Ghost<Seq<TraceEvent>>,
}

/// Whether a fragment is past its retention age at `now`.
pub open spec fn spec_frag_expired(fragment: TraceFragment, now: u64) -> bool {
    now < fragment.created || now - fragment.created > TRACE_MAX_AGE_MS
}

/// Whether a fragment still accepts records at `now`.
pub open spec fn spec_frag_valid(fragment: TraceFragment, now: u64) -> bool {
    fragment.created <= now && now - fragment.created <= TRACE_REFRESH_AGE_MS
}

impl TraceFragment {
    /// The events the fragment records, oldest first.
    pub open spec fn view(self) -> Seq<TraceEvent> {
        self.events@
    }

    /// The fragment's bytes are exactly the records of its events.
    pub open spec fn wf(self) -> bool {
        self.data@ == spec_encode_all(self.events@)
    }

    /// Opens a fresh fragment at instant `now`.
    pub fn new(now: u64) -> (r: TraceFragment)
        ensures
            r.wf(),
            r.view() == Seq::<TraceEvent>::empty(),
            r.created == now,
    {
        TraceFragment { created: now, data: Vec::new(), events: Ghost(Seq::empty()) }
    }

    /// Whether the fragment is past its retention age at `now`.
    pub fn is_expired(&self, now: u64) -> (r: bool)
        ensures
            r == spec_frag_expired(*self, now),
    {
        if now < self.created {
            return true;
        }
        now - self.created > TRACE_MAX_AGE_MS
    }

    /// Whether the fragment still accepts records at `now`.
    pub fn is_valid(&self, now: u64) -> (r: bool)
        ensures
            r == spec_frag_valid(*self, now),
    {
        self.created <= now && now - self.created <= TRACE_REFRESH_AGE_MS
    }

    /// Appends the record of `event`.
    pub fn append(&mut self, event: &TraceEvent)
        requires
            old(self).wf(),
        ensures
            final(self).wf(),
            final(self).view() == old(self).view().push(*event),
            final(self).created == old(self).created,
    {
        encode_event(event, &mut self.data);
        proof {
            self.events@ = self.events@.push(*event);
            assert(self.events@.drop_last() =~= old(self).events@);
            assert(self.data@ =~= spec_encode_all(self.events@));
        }
    }

    /// The number of records held.
    pub fn record_count(&self) -> (r: usize)
        requires
            self.wf(),
        ensures
            r == self.view().len(),
    {
        proof {
            lemma_encode_all_len(self.events@);
        }
        self.data.len() / TRACE_RECORD_WIDTH
    }

    /// Reads the record at position `i`.
    pub fn read_record(&self, i: usize) -> (r: TraceEvent)
        requires
            self.wf(),
            i < self.view().len(),
        ensures
            r == self.view()[i as int],
    {
        let data_len = self.data.len();
        proof {
            lemma_encode_all_len(self.events@);
            lemma_encode_all_index(self.events@, i as int);
            lemma_trace_round_trip(self.events@[i as int]);
            assert((i as int) * (TRACE_RECORD_WIDTH as int) + TRACE_RECORD_WIDTH <= data_len)
                by (nonlinear_arith)
                requires
                    data_len == self.view().len() * TRACE_RECORD_WIDTH,
                    0 <= i < self.view().len(),
                    TRACE_RECORD_WIDTH == 17,
            ;
        }
        let at = i * TRACE_RECORD_WIDTH;
        match decode_record(&self.data, at) {
            Some(event) => event,
            None => {
                proof {
                    assert(false);
                }
                TraceEvent::Get(0)
            },
        }
    }
}

/// The trace log: an ordered queue of fragments, oldest first.
pub struct TraceLog {
    pub fragments: Vec<TraceFragment>,
}

/// How a refresh steps the fragment queue at `now`: a run of expired
/// fragments leaves the front, the survivors stand untouched, and a
/// fresh fragment opens at the back where the newest no longer accepts
/// records or none is left.
pub open spec fn refresh_rel(pre: Seq<TraceFragment>, post: Seq<TraceFragment>, now: u64) -> bool {
    exists|k: int|
        #![trigger pre.skip(k)]
        {
            &&& 0 <= k <= pre.len()
            &&& (forall|i: int| 0 <= i < k ==> spec_frag_expired(#[trigger] pre[i], now))
            &&& (k < pre.len() ==> !spec_frag_expired(pre[k], now))
            &&& {
                let kept = pre.skip(k);
                if kept.len() > 0 && spec_frag_valid(kept.last(), now) {
                    post == kept
                } else {
                    &&& post.len() == kept.len() + 1
                    &&& (forall|i: int| 0 <= i < kept.len() ==> post[i] == kept[i])
                    &&& post.last().view() == Seq::<TraceEvent>::empty()
                    &&& post.last().created == now
                }
            }
        }
}

/// How one stack event steps the fragment queue at `now`: a wipe leaves
/// one fresh fragment; anything else refreshes the queue and appends the
/// event's trace form, if it has one, to the newest fragment.
pub open spec fn log_handle_rel(
    pre: Seq<TraceFragment>,
    post: Seq<TraceFragment>,
    event: StackEvent,
    now: u64,
) -> bool {
    if event is Wipe {
        &&& post.len() == 1
        &&& post[0].view() == Seq::<TraceEvent>::empty()
        &&& post[0].created == now
    } else {
        exists|mid: Seq<TraceFragment>|
            {
                &&& #[trigger] refresh_rel(pre, mid, now)
                &&& mid.len() > 0
                &&& match TraceEvent::spec_from_stack_event(event) {
                    Some(trace_event) => {
                        &&& post.len() == mid.len()
                        &&& (forall|i: int| 0 <= i < mid.len() - 1 ==> post[i] == mid[i])
                        &&& post.last().view() == mid.last().view().push(trace_event)
                        &&& post.last().created == mid.last().created
                    },
                    None => post == mid,
                }
            }
    }
}

impl TraceLog {
    pub open spec fn wf(self) -> bool {
        forall|i: int| 0 <= i < self.fragments@.len() ==> (#[trigger] self.fragments@[i]).wf()
    }

    /// Builds an empty log.
    pub fn new() -> (r: TraceLog)
        ensures
            r.wf(),
            r.fragments@.len() == 0,
    {
        TraceLog { fragments: Vec::new() }
    }

    /// Drops expired fragments from the front and, where the newest
    /// fragment no longer accepts records, opens a fresh one.
    pub fn refresh(&mut self, now: u64)
        requires
            old(self).wf(),
        ensures
            final(self).wf(),
            final(self).fragments@.len() > 0,
            refresh_rel(old(self).fragments@, final(self).fragments@, now),
    {
        let ghost pre = self.fragments@;
        let ghost mut popped: int = 0;
        loop
            invariant
                self.wf(),
                0 <= popped <= pre.len(),
                self.fragments@ == pre.skip(popped),
                forall|i: int| 0 <= i < popped ==> spec_frag_expired(#[trigger] pre[i], now),
            ensures
                self.wf(),
                0 <= popped <= pre.len(),
                self.fragments@ == pre.skip(popped),
                forall|i: int| 0 <= i < popped ==> spec_frag_expired(#[trigger] pre[i], now),
                popped < pre.len() ==> !spec_frag_expired(pre[popped], now),
            decreases self.fragments@.len(),
        {
            if self.fragments.len() == 0 {
                break;
            }
            if !self.fragments[0].is_expired(now) {
                proof {
                    assert(self.fragments@[0] == pre[popped]);
                }
                break;
            }
            proof {
                assert(self.fragments@[0] == pre[popped]);
            }
            let _ = self.fragments.remove(0);
            proof {
                popped = popped + 1;
                assert(self.fragments@ =~= pre.skip(popped));
                assert forall|i: int|
                    0 <= i < self.fragments@.len() implies (
                #[trigger] self.fragments@[i]).wf() by {}
            }
        }
        let ghost kept = self.fragments@;
        let needs_fresh = if self.fragments.len() == 0 {
            true
        } else {
            !self.fragments[self.fragments.len() - 1].is_valid(now)
        };
        if needs_fresh {
            self.fragments.push(TraceFragment::new(now));
        }
        proof {
            assert(kept =~= pre.skip(popped));
            if needs_fresh {
                assert(self.fragments@.last().view() =~= Seq::<TraceEvent>::empty());
            }
            assert(refresh_rel(pre, self.fragments@, now)) by {
                assert(pre.skip(popped) == kept);
            }
        }
    }

    /// Forgets every fragment and opens a fresh one at `now`.
    pub fn wipe(&mut self, now: u64)
        ensures
            final(self).wf(),
            final(self).fragments@.len() == 1,
            final(self).fragments@[0].view() == Seq::<TraceEvent>::empty(),
            final(self).fragments@[0].created == now,
    {
        self.fragments.clear();
        self.fragments.push(TraceFragment::new(now));
    }

    /// Records the trace form of `event`, if it has one, in the newest
    /// fragment; a wipe clears the log instead.
    pub fn handle_event(&mut self, event: &StackEvent, now: u64)
        requires
            old(self).wf(),
        ensures
            final(self).wf(),
            final(self).fragments@.len() > 0,
            log_handle_rel(old(self).fragments@, final(self).fragments@, *event, now),
    {
        if matches!(event, StackEvent::Wipe) {
            self.wipe(now);
            return;
        }
        self.refresh(now);
        let ghost mid = self.fragments@;
        match TraceEvent::maybe_from_stack_event(event) {
            Some(trace_event) => {
                let last = self.fragments.len() - 1;
                let mut fragment = self.fragments.remove(last);
                fragment.append(&trace_event);
                self.fragments.push(fragment);
                proof {
                    assert forall|i: int|
                        0 <= i < self.fragments@.len() implies (
                    #[trigger] self.fragments@[i]).wf() by {}
                    assert forall|i: int|
                        0 <= i < mid.len() - 1 implies self.fragments@[i] == mid[i] by {}
                    assert(self.fragments@.last().view() == mid.last().view().push(trace_event));
                    assert(log_handle_rel(old(self).fragments@, self.fragments@, *event, now));
                }
            },
            None => {
                proof {
                    assert(log_handle_rel(old(self).fragments@, self.fragments@, *event, now));
                }
            },
        }
    }
}

/// One replay step: how a trace record steps a policy stack.
pub open spec fn trace_step_rel(pre: PolicyStack, post: PolicyStack, event: TraceEvent) -> bool {
    match event {
        TraceEvent::Get(key) => PolicyStack::update_rel(pre, post, key),
        TraceEvent::Put(key, size) => PolicyStack::insert_rel(pre, post, key, size),
        TraceEvent::Del(key) => PolicyStack::remove_rel(pre, post, key),
        TraceEvent::Resize(size) => PolicyStack::resize_rel(pre, post, size),
    }
}

/// Whether `post` is reachable from `pre` by replaying `events` in order.
pub open spec fn trace_replay_rel(events: Seq<TraceEvent>, pre: PolicyStack, post: PolicyStack) -> bool
    decreases events.len(),
{
    if events.len() == 0 {
        post == pre
    } else {
        exists|mid: PolicyStack|
            #[trigger] trace_step_rel(pre, mid, events[0]) && trace_replay_rel(
                events.drop_first(),
                mid,
                post,
            )
    }
}

/// Extending a replay by one step extends the replayed sequence.
pub proof fn lemma_trace_replay_snoc(
    events: Seq<TraceEvent>,
    pre: PolicyStack,
    mid: PolicyStack,
    post: PolicyStack,
    event: TraceEvent,
)
    requires
        trace_replay_rel(events, pre, mid),
        trace_step_rel(mid, post, event),
    ensures
        trace_replay_rel(events.push(event), pre, post),
    decreases events.len(),
{
    if events.len() == 0 {
        assert(events.push(event)[0] == event);
        assert(events.push(event).drop_first() =~= Seq::<TraceEvent>::empty());
        assert(trace_step_rel(pre, post, events.push(event)[0]));
        assert(trace_replay_rel(events.push(event).drop_first(), post, post));
    } else {
        let step_mid = choose|m: PolicyStack|
            #[trigger] trace_step_rel(pre, m, events[0]) && trace_replay_rel(
                events.drop_first(),
                m,
                mid,
            );
        lemma_trace_replay_snoc(events.drop_first(), step_mid, mid, post, event);
        assert(events.push(event).drop_first() =~= events.drop_first().push(event));
        assert(events.push(event)[0] == events[0]);
        assert(trace_step_rel(pre, step_mid, events.push(event)[0]));
        assert(trace_replay_rel(events.push(event).drop_first(), step_mid, post));
    }
}

/// The events of all fragments of the log up to fragment `n`, oldest
/// first.
pub open spec fn log_events_upto(log: Seq<TraceFragment>, n: int) -> Seq<TraceEvent>
    decreases n,
{
    if n <= 0 {
        Seq::<TraceEvent>::empty()
    } else {
        log_events_upto(log, n - 1) + log[n - 1].view()
    }
}

/// Rebuilds a fresh policy stack of `policy` by replaying every retained
/// fragment, oldest first.
pub fn reconstruct_policy_stack(policy: &PaperPolicy, max_size: CacheSize, log: &TraceLog) -> (r:
    PolicyStack)
    requires
        policy.params_valid(),
        log.wf(),
    ensures
        r.wf(),
        exists|empty: PolicyStack|
            {
                &&& #[trigger] empty.wf()
                &&& empty.spec_is_empty()
                &&& (!(*policy is Auto) ==> empty.spec_policy_of() == *policy)
                &&& trace_replay_rel(
                    log_events_upto(log.fragments@, log.fragments@.len() as int),
                    empty,
                    r,
                )
            },
{
    let mut stack = init_policy_stack(policy, max_size);
    let ghost empty_stack = stack;
    let fragment_count = log.fragments.len();
    let mut f: usize = 0;
    while f < fragment_count
        invariant
            stack.wf(),
            log.wf(),
            fragment_count == log.fragments@.len(),
            0 <= f <= fragment_count,
            empty_stack.wf(),
            empty_stack.spec_is_empty(),
            !(*policy is Auto) ==> empty_stack.spec_policy_of() == *policy,
            trace_replay_rel(log_events_upto(log.fragments@, f as int), empty_stack, stack),
        decreases fragment_count - f,
    {
        let fragment = &log.fragments[f];
        let record_count = fragment.record_count();
        let mut i: usize = 0;
        while i < record_count
            invariant
                stack.wf(),
                log.wf(),
                fragment_count == log.fragments@.len(),
                0 <= f < fragment_count,
                fragment == &log.fragments@[f as int],
                fragment.wf(),
                record_count == fragment.view().len(),
                0 <= i <= record_count,
                empty_stack.wf(),
                trace_replay_rel(
                    log_events_upto(log.fragments@, f as int) + fragment.view().subrange(
                        0,
                        i as int,
                    ),
                    empty_stack,
                    stack,
                ),
            decreases record_count - i,
        {
            let ghost pre = stack;
            let event = fragment.read_record(i);
            match event {
                TraceEvent::Get(key) => stack.update(key),
                TraceEvent::Put(key, size) => stack.insert(key, size),
                TraceEvent::Del(key) => stack.remove(key),
                TraceEvent::Resize(size) => stack.resize(size),
            }
            proof {
                lemma_trace_replay_snoc(
                    log_events_upto(log.fragments@, f as int) + fragment.view().subrange(
                        0,
                        i as int,
                    ),
                    empty_stack,
                    pre,
                    stack,
                    event,
                );
                assert((log_events_upto(log.fragments@, f as int) + fragment.view().subrange(
                    0,
                    i as int,
                )).push(event) =~= log_events_upto(log.fragments@, f as int)
                    + fragment.view().subrange(0, i + 1));
            }
            i = i + 1;
        }
        proof {
            assert(fragment.view().subrange(0, record_count as int) =~= fragment.view());
            assert(log_events_upto(log.fragments@, f as int) + fragment.view() =~= log_events_upto(
                log.fragments@,
                f + 1,
            ));
        }
        f = f + 1;
    }
    stack
}

} // verus!
