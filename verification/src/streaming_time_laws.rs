//! What streaming notes and answers, entry by entry and shred by shred.
use crate::streaming_deserializer::{
    EntryReadView, EntryTimestamp, Gathered, Progress, ShredData, ShredSpan,
    StreamingDeserializeError, StreamingEntryDeserializer,
};
use vstd::prelude::*;

verus! {

/// Parsing goes from the front: what is read at `offset` comes first, then what is read behind it;
/// it ends where the bytes end, where an entry is incomplete or no entry, or where as many were read
/// as there are. Only bytes that are no entry are a failure.
pub proof fn law_entries_come_in_the_order_of_their_bytes(buffer: Seq<u8>, offset: int, left: int)
    requires
        0 <= offset,
    ensures
        ({
            let run = crate::streaming_deserializer::parse_run(buffer, offset, left);
            let nothing = Seq::<crate::entry::EntryView>::empty();
            &&& left <= 0 || offset >= buffer.len() ==> run.entries == nothing && run.offset
                == offset && run.failure is None
            &&& left > 0 && offset < buffer.len() ==> match crate::streaming_deserializer::entry_read(
                buffer.subrange(offset, buffer.len() as int),
            ) {
                EntryReadView::Complete(entry, used) => {
                    let later = crate::streaming_deserializer::parse_run(
                        buffer,
                        offset + used,
                        left - 1,
                    );
                    &&& run.entries.len() == 1 + later.entries.len()
                    &&& run.entries[0] == entry
                    &&& forall|i: int|
                        0 <= i < later.entries.len() ==> run.entries[i + 1]
                            == #[trigger] later.entries[i]
                    &&& run.offset == later.offset
                    &&& run.failure == later.failure
                },
                EntryReadView::Incomplete => run.entries == nothing && run.offset == offset
                    && run.failure is None,
                EntryReadView::Malformed(reason) => run.entries == nothing && run.offset == offset
                    && run.failure == Some(reason),
            }
        }),
{
}

/// The number of entries is the little-endian number in the first 8 bytes, read once they are there;
/// the entries start behind it, and no more of them are parsed than that.
pub proof fn law_count_comes_first(progress: Progress, buffer: Seq<u8>)
    ensures
        progress.count is None && buffer.len() < 8 ==> progress.after(buffer).count is None
            && progress.after(buffer).parsed == progress.parsed,
        progress.count is None && buffer.len() >= 8 ==> {
            let n = vstd::bytes::spec_u64_from_le_bytes(buffer.subrange(0, 8));
            &&& progress.after(buffer).count == Some(n)
            &&& progress.run(buffer) == crate::streaming_deserializer::parse_run(
                buffer,
                8,
                n - progress.parsed,
            )
        },
        progress.count matches Some(n) ==> {
            &&& progress.after(buffer).count == Some(n)
            &&& progress.run(buffer) == crate::streaming_deserializer::parse_run(
                buffer,
                progress.offset,
                n - progress.parsed,
            )
        },
{
}

/// Shreds that are not joined at once: one that has no data when it is awaited, and one for which no
/// room is left, change nothing and are refused, with the reason; one that came before is ignored; a
/// later one waits.
pub proof fn law_shreds_that_are_not_joined(
    state: Gathered,
    max_pending: usize,
    index: u32,
    data: ShredData,
    other: u32,
)
    ensures
        ({
            let answer = crate::streaming_deserializer::shred_answer(
                state,
                max_pending,
                index,
                data,
            );
            let after = crate::streaming_deserializer::state_after(state, max_pending, index, data);
            &&& index < state.awaited ==> answer == Ok::<bool, StreamingDeserializeError>(false)
                && after == state
            &&& index == state.awaited ==> (data matches Err(reason) ==> answer == Err::<
                bool,
                StreamingDeserializeError,
            >(StreamingDeserializeError::ShredError(reason)) && after == state)
            &&& index > state.awaited && state.pending.dom().len() >= max_pending ==> answer == Err::<
                bool,
                StreamingDeserializeError,
            >(StreamingDeserializeError::TooManyPendingShreds) && after == state
            &&& index > state.awaited && state.pending.dom().len() < max_pending ==> {
                &&& answer == Ok::<bool, StreamingDeserializeError>(false)
                &&& after.buffer == state.buffer
                &&& after.spans == state.spans
                &&& after.awaited == state.awaited
                &&& after.pending.contains_key(index) && after.pending[index] == data
                &&& other != index ==> (after.pending.contains_key(other)
                    <==> state.pending.contains_key(other)) && after.pending[other]
                    == state.pending[other]
            }
        }),
{
}

/// The awaited shred is joined with its data, and so are the waiting shreds that follow it with
/// data; the first one behind them that waits without data is dropped, is awaited again, and gives
/// the answer its reason.
pub proof fn law_awaited_shred_is_joined(
    state: Gathered,
    max_pending: usize,
    bytes: Vec<u8>,
    k: u32,
)
    requires
        state.awaited < u32::MAX,
        !state.pending.contains_key(u32::MAX),
    ensures
        ({
            let data: ShredData = Ok(bytes);
            let answer = crate::streaming_deserializer::shred_answer(
                state,
                max_pending,
                state.awaited,
                data,
            );
            let after = crate::streaming_deserializer::state_after(
                state,
                max_pending,
                state.awaited,
                data,
            );
            let stop = after.awaited;
            &&& state.awaited < stop
            &&& state.buffer.len() + bytes@.len() <= after.buffer.len()
            &&& after.buffer.subrange(0, state.buffer.len() as int) == state.buffer
            &&& after.buffer.subrange(
                state.buffer.len() as int,
                (state.buffer.len() + bytes@.len()) as int,
            ) == bytes@
            &&& state.awaited < k < stop ==> state.pending.contains_key(k) && state.pending[k] is Ok
                && !after.pending.contains_key(k)
            &&& k > stop ==> (after.pending.contains_key(k) <==> state.pending.contains_key(k))
            &&& k > stop && state.pending.contains_key(k) ==> after.pending[k] == state.pending[k]
            &&& !after.pending.contains_key(stop)
            &&& !state.pending.contains_key(stop) ==> answer == Ok::<
                bool,
                StreamingDeserializeError,
            >(true)
            &&& state.pending.contains_key(stop) ==> (state.pending[stop] matches Err(reason)
                && answer == Err::<bool, StreamingDeserializeError>(
                StreamingDeserializeError::ShredError(reason),
            ))
        }),
{
    let next = (state.awaited + 1) as u32;
    let stop = crate::streaming_deserializer::flush_stop(state.pending, next);
    lemma_flush_runs(state.pending, next, k);
    let after = crate::streaming_deserializer::with_shred(state, state.awaited, Ok(bytes));
    let flushed = crate::streaming_deserializer::flushed_data(
        state.pending,
        next as int,
        stop as int,
    );
    assert(after.buffer == state.buffer + bytes@ + flushed);
    let data: ShredData = Ok(bytes);
    assert(crate::streaming_deserializer::state_after(state, max_pending, state.awaited, data)
        == after);
    assert(after.awaited == stop);
    assert(after.buffer.subrange(0, state.buffer.len() as int) =~= state.buffer);
    assert(after.buffer.subrange(
        state.buffer.len() as int,
        (state.buffer.len() + bytes@.len()) as int,
    ) =~= bytes@);
}

proof fn lemma_flush_runs(pending: Map<u32, ShredData>, next: u32, k: u32)
    requires
        !pending.contains_key(u32::MAX),
    ensures
        ({
            let stop = crate::streaming_deserializer::flush_stop(pending, next);
            &&& next <= stop
            &&& next <= k < stop ==> pending.contains_key(k) && pending[k] is Ok
            &&& pending.contains_key(stop) ==> pending[stop] is Err
        }),
    decreases u32::MAX - next,
{
    if next < u32::MAX && pending.contains_key(next) && pending[next] is Ok {
        lemma_flush_runs(pending, (next + 1) as u32, k);
    }
}

/// The arrival that counts for some bytes: no shred that holds one of them arrived earlier, and one
/// of those shreds arrived then; there is none where no such shred is known.
pub proof fn law_earliest_arrival_counts(
    times: Map<u32, u64>,
    spans: Seq<ShredSpan>,
    from: int,
    to: int,
    n: int,
)
    requires
        0 <= from < to,
        0 <= n <= spans.len(),
    ensures
        ({
            let found = crate::streaming_deserializer::earliest_arrival(times, spans, from, to, n);
            &&& forall|i: int|
                0 <= i < n && shares_a_byte(#[trigger] spans[i], from, to) && times.contains_key(
                    spans[i].index,
                ) ==> (found matches Some(time) && time <= times[spans[i].index])
            &&& found matches Some(time) ==> exists|i: int|
                0 <= i < n && shares_a_byte(#[trigger] spans[i], from, to) && times.contains_key(
                    spans[i].index,
                ) && times[spans[i].index] == time
        }),
    decreases n,
{
    if n > 0 {
        law_earliest_arrival_counts(times, spans, from, to, n - 1);
        let span = spans[n - 1];
        let low = if span.begin > from {
            span.begin as int
        } else {
            from
        };
        if crate::streaming_deserializer::holds_bytes(span, from, to) {
            assert(is_byte_of(span, low) && from <= low < to);
        }
        assert(shares_a_byte(span, from, to) <==> crate::streaming_deserializer::holds_bytes(
            span,
            from,
            to,
        ));
        let found = crate::streaming_deserializer::earliest_arrival(times, spans, from, to, n);
        let before = crate::streaming_deserializer::earliest_arrival(
            times,
            spans,
            from,
            to,
            n - 1,
        );
        if let Some(time) = found {
            if found != before {
                assert(shares_a_byte(spans[n - 1], from, to) && times[spans[n - 1].index] == time);
            } else {
                let i = choose|i: int|
                    0 <= i < n - 1 && shares_a_byte(#[trigger] spans[i], from, to)
                        && times.contains_key(spans[i].index) && times[spans[i].index] == time;
                assert(0 <= i < n && shares_a_byte(spans[i], from, to));
            }
        }
    }
}

/// Some byte of `from..to` is among those of a shred.
pub open spec fn shares_a_byte(span: ShredSpan, from: int, to: int) -> bool {
    exists|b: int| #![trigger is_byte_of(span, b)] is_byte_of(span, b) && from <= b < to
}

/// The byte at `b` belongs to a shred.
pub open spec fn is_byte_of(span: ShredSpan, b: int) -> bool {
    span.begin <= b < span.end
}

/// An entry's times: parsed now, not executed, and arrived when the first of the shreds with its
/// bytes did; without such a shred, when the slot's first shred did.
pub proof fn law_entry_times(
    deser: StreamingEntryDeserializer,
    from: int,
    to: int,
    now: u64,
)
    ensures
        ({
            let times = deser.entry_times(from, to, now);
            let found = crate::streaming_deserializer::earliest_arrival(
                deser.shred_arrival_times@,
                deser.shred_spans@,
                from,
                to,
                deser.shred_spans@.len() as int,
            );
            &&& times.parsed == now
            &&& times.executed is None
            &&& found matches Some(time) ==> times.shred_arrival == time
            &&& found is None ==> (deser.first_shred_arrival matches Some(first)
                ==> times.shred_arrival == first)
            &&& found is None && deser.first_shred_arrival is None ==> times.shred_arrival == now
        }),
{
}

/// The times of a run go with its entries, one for one and in order.
pub proof fn law_times_go_with_entries(
    deser: StreamingEntryDeserializer,
    offset: int,
    left: int,
    now: u64,
)
    ensures
        deser.run_times(offset, left, now).len() == crate::streaming_deserializer::parse_run(
            deser.buffer@,
            offset,
            left,
        ).entries.len(),
        left > 0 && offset < deser.buffer@.len() ==> (crate::streaming_deserializer::entry_read(
            deser.buffer@.subrange(offset, deser.buffer@.len() as int),
        ) matches EntryReadView::Complete(_, used) ==> deser.run_times(offset, left, now)
            == seq![deser.entry_times(offset, offset + used, now)] + deser.run_times(
            offset + used,
            left - 1,
            now,
        )),
    decreases left,
{
    if left > 0 && offset < deser.buffer@.len() {
        if let EntryReadView::Complete(_, used) = crate::streaming_deserializer::entry_read(
            deser.buffer@.subrange(offset, deser.buffer@.len() as int),
        ) {
            law_times_go_with_entries(deser, offset + used, left - 1, now);
        }
    }
}

/// The sums of a slot's figures: each entry adds the whole microseconds from its arrival until it
/// was parsed, and those from when it was parsed until the data was complete, none where the later
/// time is not later.
pub proof fn law_figures_add_up(times: Seq<EntryTimestamp>, one: EntryTimestamp, complete: u64)
    ensures
        crate::streaming_deserializer::latency_sum(Seq::<EntryTimestamp>::empty()) == 0,
        crate::streaming_deserializer::gain_sum(Seq::<EntryTimestamp>::empty(), complete) == 0,
        crate::streaming_deserializer::latency_sum(times.push(one))
            - crate::streaming_deserializer::latency_sum(times) == if one.parsed
            >= one.shred_arrival {
            (one.parsed - one.shred_arrival) / 1000
        } else {
            0
        },
        crate::streaming_deserializer::gain_sum(times.push(one), complete)
            - crate::streaming_deserializer::gain_sum(times, complete) == if complete
            >= one.parsed {
            (complete - one.parsed) / 1000
        } else {
            0
        },
{
    assert(times.push(one).drop_last() =~= times);
}

/// Time between two readings in whole microseconds, 0 where the second is not later.
pub proof fn law_micros_between(from: u64, to: u64)
    ensures
        to >= from ==> {
            let micros = crate::streaming_deserializer::micros_between(from, to);
            1_000 * micros <= to - from && to - from < 1_000 * micros + 1_000
        },
        to < from ==> crate::streaming_deserializer::micros_between(from, to) == 0,
{
}

/// What the errors of streaming are called.
pub proof fn law_streaming_errors_name_their_cause(error: StreamingDeserializeError)
    ensures
        crate::streaming_deserializer::error_text(error) == match error {
            StreamingDeserializeError::NeedMoreData => "Need more data to continue parsing"@,
            StreamingDeserializeError::InvalidFormat(cause) => "Invalid format: "@ + cause@,
            StreamingDeserializeError::ShredError(cause) => "Shred error: "@ + cause@,
            StreamingDeserializeError::DeserializeError(cause) => "Deserialize error: "@ + cause@,
            StreamingDeserializeError::TooManyPendingShreds => "Too many pending shreds"@,
        },
{
}

proof fn lemma_sums_are_bounded(times: Seq<EntryTimestamp>, complete: u64)
    ensures
        0 <= crate::streaming_deserializer::latency_sum(times) <= times.len() * u64::MAX,
        0 <= crate::streaming_deserializer::gain_sum(times, complete) <= times.len() * u64::MAX,
    decreases times.len(),
{
    if times.len() > 0 {
        lemma_sums_are_bounded(times.drop_last(), complete);
        assert((times.len() - 1) * u64::MAX + u64::MAX == times.len() * u64::MAX)
            by (nonlinear_arith);
    }
}

proof fn lemma_average(sum: int, n: int)
    requires
        0 < n,
        0 <= sum <= n * u64::MAX,
    ensures
        ({
            let average = crate::streaming_deserializer::averaged(sum, n);
            average * n <= sum && sum < average * n + n
        }),
{
    assert(0 <= sum / n <= u64::MAX) by (nonlinear_arith)
        requires
            0 < n,
            0 <= sum <= n * u64::MAX,
    ;
    vstd::arithmetic::div_mod::lemma_fundamental_div_mod(sum, n);
    vstd::arithmetic::div_mod::lemma_mod_bound(sum, n);
    vstd::arithmetic::mul::lemma_mul_is_commutative(n, sum / n);
}

/// The figures of a slot: the number of entries it has and of those parsed; the average time from an
/// entry's arrival until it was parsed, and that from then until the data was complete, rounded down,
/// 0 without entries; and the whole microseconds from the first shred until the data was complete, 0
/// where one of them is missing.
pub proof fn law_summary_is_of_the_slot(deser: StreamingEntryDeserializer)
    ensures
        ({
            let summary = deser.summary();
            let times = deser.entry_timestamps@;
            let n = times.len() as int;
            &&& summary.slot == deser.slot
            &&& deser.expected_count matches Some(count) ==> summary.total_entries == count
            &&& deser.expected_count is None ==> summary.total_entries == 0
            &&& summary.entries_streamed == deser.entries_parsed
            &&& n == 0 ==> summary.avg_parse_latency_us == 0 && summary.avg_streaming_gain_us == 0
            &&& n > 0 ==> {
                let sum = crate::streaming_deserializer::latency_sum(times);
                let average = summary.avg_parse_latency_us;
                average * n <= sum && sum < average * n + n
            }
            &&& deser.data_complete_arrival is None ==> summary.avg_streaming_gain_us == 0
                && summary.data_complete_latency_us == 0
            &&& deser.first_shred_arrival is None ==> summary.data_complete_latency_us == 0
            &&& deser.data_complete_arrival matches Some(complete) ==> {
                &&& n > 0 ==> {
                    let sum = crate::streaming_deserializer::gain_sum(times, complete);
                    let average = summary.avg_streaming_gain_us;
                    average * n <= sum && sum < average * n + n
                }
                &&& deser.first_shred_arrival matches Some(first) ==> {
                    let micros = summary.data_complete_latency_us;
                    &&& complete >= first ==> 1_000 * micros <= complete - first && complete - first
                        < 1_000 * micros + 1_000
                    &&& complete < first ==> micros == 0
                }
            }
        }),
{
    let times = deser.entry_timestamps@;
    let n = times.len() as int;
    if n > 0 {
        lemma_sums_are_bounded(times, 0);
        lemma_average(crate::streaming_deserializer::latency_sum(times), n);
        if let Some(complete) = deser.data_complete_arrival {
            lemma_sums_are_bounded(times, complete);
            lemma_average(crate::streaming_deserializer::gain_sum(times, complete), n);
        }
    }
}

/// The arrivals of shreds at a new deserializer, one after the other: their indexes, whether they end
/// a run of entries, and their times.
pub open spec fn arrivals_noted(
    states: Seq<StreamingEntryDeserializer>,
    arrivals: Seq<(u32, bool, u64)>,
) -> bool {
    &&& states.len() == arrivals.len() + 1
    &&& states[0].is_fresh(states[0].slot)
    &&& forall|i: int|
        #![trigger arrivals[i]]
        0 <= i < arrivals.len() ==> crate::streaming_deserializer::arrival_noted(
            states[i],
            states[i + 1],
            arrivals[i].0,
            arrivals[i].1,
            arrivals[i].2,
        )
}

/// The slot's first arrival is the time of its first shred; a shred's arrival is the time at which it
/// came first, whatever repetitions follow; the data was complete when the last shred came that ends
/// a run of entries.
pub proof fn law_first_arrivals_are_noted(
    states: Seq<StreamingEntryDeserializer>,
    arrivals: Seq<(u32, bool, u64)>,
    n: int,
    i: int,
)
    requires
        arrivals_noted(states, arrivals),
        0 <= n <= arrivals.len(),
        0 <= i < n,
    ensures
        states[n].first_shred_arrival == Some(arrivals[0].2),
        (forall|j: int| 0 <= j < i ==> (#[trigger] arrivals[j]).0 != arrivals[i].0) ==> {
            &&& states[n].shred_arrival_times@.contains_key(arrivals[i].0)
            &&& states[n].shred_arrival_times@[arrivals[i].0] == arrivals[i].2
        },
        arrivals[i].1 ==> states[n].data_complete_seen,
        arrivals[i].1 && (forall|j: int| i < j < n ==> !(#[trigger] arrivals[j]).1)
            ==> states[n].data_complete_arrival == Some(arrivals[i].2),
        (forall|j: int| 0 <= j < n ==> !(#[trigger] arrivals[j]).1) ==> {
            &&& !states[n].data_complete_seen
            &&& states[n].data_complete_arrival is None
        },
    decreases n,
{
    let last = arrivals[n - 1];
    lemma_known_arrivals(states, arrivals, n - 1, arrivals[i].0);
    if n == 1 {
        assert(arrivals[0] == last);
    } else {
        if i < n - 1 {
            law_first_arrivals_are_noted(states, arrivals, n - 1, i);
        } else {
            law_first_arrivals_are_noted(states, arrivals, n - 1, 0);
        }
    }
}

proof fn lemma_known_arrivals(
    states: Seq<StreamingEntryDeserializer>,
    arrivals: Seq<(u32, bool, u64)>,
    n: int,
    index: u32,
)
    requires
        arrivals_noted(states, arrivals),
        0 <= n <= arrivals.len(),
    ensures
        states[n].shred_arrival_times@.contains_key(index) ==> exists|j: int|
            0 <= j < n && (#[trigger] arrivals[j]).0 == index,
    decreases n,
{
    if n > 0 {
        lemma_known_arrivals(states, arrivals, n - 1, index);
        if states[n].shred_arrival_times@.contains_key(index) {
            if states[n - 1].shred_arrival_times@.contains_key(index) {
                let j = choose|j: int| 0 <= j < n - 1 && (#[trigger] arrivals[j]).0 == index;
                assert(arrivals[j].0 == index);
            } else {
                assert(arrivals[n - 1].0 == index);
            }
        }
    }
}

} // verus!
