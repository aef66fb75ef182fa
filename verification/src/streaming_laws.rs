//! What streaming promises: neither the order nor the grouping of the shreds matters.
use crate::entry::{Entry, EntryView};
use crate::streaming_deserializer::{
    Gathered, ParseRun, Progress, ShredData, ShredSpan, StreamingDeserializeError,
    StreamingEntryDeserializer,
};
use vstd::prelude::*;

verus! {

/// The data of the shreds `0..n` among those that arrived.
pub open spec fn data_before(arrived: Map<u32, Seq<u8>>, n: int) -> Seq<u8>
    decreases n,
{
    if n <= 0 {
        seq![]
    } else {
        data_before(arrived, n - 1) + arrived[(n - 1) as u32]
    }
}

/// Where the data of shred `i` lies among that of the shreds that arrived.
pub open spec fn span_of(arrived: Map<u32, Seq<u8>>, i: int) -> ShredSpan {
    ShredSpan {
        index: i as u32,
        begin: data_before(arrived, i).len() as usize,
        end: data_before(arrived, i + 1).len() as usize,
    }
}

/// The state is what the shreds that arrived amount to, in whatever order they came: the data up
/// to the first missing shred is joined, the later shreds wait.
pub open spec fn amounts_to(arrived: Map<u32, Seq<u8>>, state: Gathered) -> bool {
    &&& forall|i: u32| i < state.awaited ==> #[trigger] arrived.contains_key(i)
    &&& !arrived.contains_key(state.awaited)
    &&& state.buffer == data_before(arrived, state.awaited as int)
    &&& state.spans.len() == state.awaited
    &&& forall|i: int|
        0 <= i < state.spans.len() ==> #[trigger] state.spans[i] == span_of(arrived, i)
    &&& forall|k: u32| #[trigger]
        state.pending.contains_key(k) <==> arrived.contains_key(k) && k > state.awaited
    &&& forall|k: u32| #[trigger]
        state.pending.contains_key(k) ==> (state.pending[k] matches Ok(bytes) && bytes@
            == arrived[k])
}

proof fn lemma_data_extends(
    before: Map<u32, Seq<u8>>,
    after: Map<u32, Seq<u8>>,
    n: int,
)
    requires
        0 <= n <= u32::MAX,
        forall|i: u32| i < n ==> #[trigger] after[i] == before[i],
    ensures
        data_before(after, n) == data_before(before, n),
    decreases n,
{
    if n > 0 {
        lemma_data_extends(before, after, n - 1);
        assert(after[(n - 1) as u32] == before[(n - 1) as u32]);
    }
}

/// Flushing from `from` joins the waiting data up to the first missing shred.
proof fn lemma_flush_joins(
    arrived: Map<u32, Seq<u8>>,
    pending: Map<u32, ShredData>,
    from: u32,
    at: u32,
)
    requires
        from <= at,
        !arrived.contains_key(u32::MAX),
        forall|k: u32|
            k >= from ==> (#[trigger] pending.contains_key(k) <==> arrived.contains_key(k)),
        forall|k: u32| #[trigger]
            pending.contains_key(k) ==> (pending[k] matches Ok(bytes) && bytes@ == arrived[k]),
        forall|i: u32| i < at ==> #[trigger] arrived.contains_key(i),
    ensures
        ({
            let stop = crate::streaming_deserializer::flush_stop(pending, at);
            &&& at <= stop
            &&& !arrived.contains_key(stop)
            &&& forall|i: u32| i < stop ==> #[trigger] arrived.contains_key(i)
            &&& data_before(arrived, stop as int) == data_before(arrived, at as int)
                + crate::streaming_deserializer::flushed_data(pending, at as int, stop as int)
        }),
    decreases u32::MAX - at,
{
    let stop = crate::streaming_deserializer::flush_stop(pending, at);
    assert(pending.contains_key(at) <==> arrived.contains_key(at));
    if at < u32::MAX && pending.contains_key(at) && pending[at] is Ok {
        let next = (at + 1) as u32;
        assert forall|i: u32| i < next implies #[trigger] arrived.contains_key(i) by {
            if i == at {
                assert(pending.contains_key(at));
            }
        }
        lemma_flush_joins(arrived, pending, from, next);
        lemma_flushed_front(pending, at as int, stop as int);
        assert(data_before(arrived, next as int) == data_before(arrived, at as int) + arrived[at]);
        assert((data_before(arrived, at as int) + arrived[at])
            + crate::streaming_deserializer::flushed_data(pending, next as int, stop as int)
            =~= data_before(arrived, at as int) + (arrived[at]
            + crate::streaming_deserializer::flushed_data(pending, next as int, stop as int)));
    } else {
        assert(data_before(arrived, at as int) + crate::streaming_deserializer::flushed_data(
            pending,
            at as int,
            at as int,
        ) =~= data_before(arrived, at as int));
    }
}

/// The flushed data starts with that of its first shred.
proof fn lemma_flushed_front(pending: Map<u32, ShredData>, from: int, to: int)
    requires
        0 <= from < to <= u32::MAX,
    ensures
        crate::streaming_deserializer::flushed_data(pending, from, to)
            == pending[from as u32]->Ok_0@ + crate::streaming_deserializer::flushed_data(
            pending,
            from + 1,
            to,
        ),
    decreases to - from,
{
    reveal_with_fuel(crate::streaming_deserializer::flushed_data, 2);
    if to > from + 1 {
        lemma_flushed_front(pending, from, to - 1);
        assert(crate::streaming_deserializer::flushed_data(pending, from, to)
            =~= pending[from as u32]->Ok_0@ + crate::streaming_deserializer::flushed_data(
            pending,
            from + 1,
            to,
        ));
    } else {
        assert(crate::streaming_deserializer::flushed_data(pending, from, to)
            =~= pending[from as u32]->Ok_0@ + crate::streaming_deserializer::flushed_data(
            pending,
            from + 1,
            to,
        ));
    }
}

/// The flushed shreds lie where the joined data up to each of them ends.
proof fn lemma_flushed_spans(
    arrived: Map<u32, Seq<u8>>,
    pending: Map<u32, ShredData>,
    from: int,
    to: int,
)
    requires
        0 <= from <= to <= u32::MAX,
        forall|k: u32|
            from <= k < to ==> (#[trigger] pending[k] matches Ok(bytes) && bytes@ == arrived[k]),
    ensures
        ({
            let base = data_before(arrived, from).len() as int;
            let spans = crate::streaming_deserializer::flushed_spans(pending, base, from, to);
            &&& spans.len() == to - from
            &&& forall|i: int|
                0 <= i < spans.len() ==> #[trigger] spans[i] == span_of(arrived, from + i)
            &&& base + crate::streaming_deserializer::flushed_data(pending, from, to).len()
                == data_before(arrived, to).len()
        }),
    decreases to - from,
{
    if from < to {
        lemma_flushed_spans(arrived, pending, from, to - 1);
        let last = (to - 1) as u32;
        assert(pending[last] matches Ok(bytes) && bytes@ == arrived[last]);
    }
}

/// Adding a shred, a new one or one that arrived before, keeps the state what the arrived shreds
/// amount to. The data joined so far, the awaited shred and the waiting ones are therefore the same
/// for every order of arrival.
pub proof fn law_order_of_arrival_is_irrelevant(
    arrived: Map<u32, Seq<u8>>,
    state: Gathered,
    index: u32,
    bytes: Vec<u8>,
)
    requires
        amounts_to(arrived, state),
        !arrived.contains_key(u32::MAX),
        index < u32::MAX,
        arrived.contains_key(index) ==> arrived[index] == bytes@,
    ensures
        amounts_to(
            arrived.insert(index, bytes@),
            crate::streaming_deserializer::with_shred(state, index, Ok(bytes)),
        ),
{
    let data: ShredData = Ok(bytes);
    let after = arrived.insert(index, bytes@);
    let next_state = crate::streaming_deserializer::with_shred(state, index, data);
    if index == state.awaited {
        let next = (index + 1) as u32;
        let stop = crate::streaming_deserializer::flush_stop(state.pending, next);
        lemma_data_extends(arrived, after, index as int);
        assert(data_before(after, next as int) == data_before(after, index as int) + bytes@);
        assert forall|i: u32| i < next implies #[trigger] after.contains_key(i) by {
            if i != index {
                assert(arrived.contains_key(i));
            }
        }
        lemma_flush_joins(after, state.pending, next, next);
        assert forall|k: u32| next <= k < stop implies (#[trigger] state.pending[k] matches Ok(b)
            && b@ == after[k]) by {
            assert(after.contains_key(k));
            assert(state.pending.contains_key(k));
        }
        lemma_flushed_spans(after, state.pending, next as int, stop as int);
        assert forall|i: int| 0 <= i < next_state.spans.len() implies #[trigger] next_state.spans[i]
            == span_of(after, i) by {
            if i < index {
                lemma_data_extends(arrived, after, i);
                lemma_data_extends(arrived, after, i + 1);
                assert(next_state.spans[i] == state.spans[i]);
            } else if i > index {
                let flushed = crate::streaming_deserializer::flushed_spans(
                    state.pending,
                    data_before(after, next as int).len() as int,
                    next as int,
                    stop as int,
                );
                assert(next_state.spans[i] == flushed[i - next]);
            }
        }
        assert forall|k: u32| #[trigger]
            next_state.pending.contains_key(k) <==> after.contains_key(k) && k > stop by {
            assert(state.pending.contains_key(k) <==> arrived.contains_key(k) && k > index);
        }
    } else if index > state.awaited {
        lemma_data_extends(arrived, after, state.awaited as int);
        assert forall|i: int| 0 <= i < next_state.spans.len() implies #[trigger] next_state.spans[i]
            == span_of(after, i) by {
            lemma_data_extends(arrived, after, i);
            lemma_data_extends(arrived, after, i + 1);
            assert(next_state.spans[i] == state.spans[i]);
        }
        assert forall|i: u32| i < state.awaited implies #[trigger] after.contains_key(i) by {
            assert(arrived.contains_key(i));
        }
    } else {
        assert(arrived.contains_key(index));
        assert(after =~= arrived);
    }
}

/// A fresh state is what no shreds amount to.
pub proof fn law_fresh_state_amounts_to_nothing()
    ensures
        amounts_to(
            Map::empty(),
            (Gathered { buffer: seq![], spans: seq![], awaited: 0, pending: Map::empty() }),
        ),
{
}

/// The state of a new deserializer after some shreds were added in turn.
pub open spec fn state_after_all(max_pending: usize, arrivals: Seq<(u32, Vec<u8>)>) -> Gathered
    decreases arrivals.len(),
{
    if arrivals.len() == 0 {
        Gathered { buffer: seq![], spans: seq![], awaited: 0, pending: Map::empty() }
    } else {
        let (index, bytes) = arrivals.last();
        crate::streaming_deserializer::state_after(
            state_after_all(max_pending, arrivals.drop_last()),
            max_pending,
            index,
            Ok(bytes),
        )
    }
}

/// The arrivals are shreds of a slot with the given data, each any number of times.
pub open spec fn are_shreds_of(data: Seq<Seq<u8>>, arrivals: Seq<(u32, Vec<u8>)>) -> bool {
    &&& data.len() <= u32::MAX
    &&& forall|i: int|
        #![trigger arrivals[i]]
        0 <= i < arrivals.len() ==> arrivals[i].0 < data.len() && arrivals[i].1@
            == data[arrivals[i].0 as int]
}

/// Whether a shred is among the arrivals.
pub open spec fn has_arrived(arrivals: Seq<(u32, Vec<u8>)>, k: u32) -> bool {
    exists|i: int| 0 <= i < arrivals.len() && (#[trigger] arrivals[i]).0 == k
}

/// The shreds that arrived, with their data.
pub open spec fn arrived_shreds(arrivals: Seq<(u32, Vec<u8>)>) -> Map<u32, Seq<u8>>
    decreases arrivals.len(),
{
    if arrivals.len() == 0 {
        Map::empty()
    } else {
        arrived_shreds(arrivals.drop_last()).insert(arrivals.last().0, arrivals.last().1@)
    }
}

/// All data in a row.
pub open spec fn joined(data: Seq<Seq<u8>>) -> Seq<u8>
    decreases data.len(),
{
    if data.len() == 0 {
        seq![]
    } else {
        joined(data.drop_last()) + data.last()
    }
}

proof fn lemma_arrived(data: Seq<Seq<u8>>, arrivals: Seq<(u32, Vec<u8>)>)
    requires
        are_shreds_of(data, arrivals),
    ensures
        forall|k: u32| #[trigger]
            arrived_shreds(arrivals).contains_key(k) ==> k < data.len() && arrived_shreds(arrivals)[k]
                == data[k as int],
        forall|k: u32| #[trigger]
            arrived_shreds(arrivals).contains_key(k) <==> has_arrived(arrivals, k),
    decreases arrivals.len(),
{
    if arrivals.len() > 0 {
        let shorter = arrivals.drop_last();
        assert forall|i: int|
            #![trigger shorter[i]]
            0 <= i < shorter.len() implies shorter[i].0 < data.len() && shorter[i].1@
            == data[shorter[i].0 as int] by {
            assert(shorter[i] == arrivals[i]);
        }
        lemma_arrived(data, shorter);
        let last = arrivals.len() - 1;
        assert(arrivals[last] == arrivals.last());
        assert forall|k: u32| #[trigger] arrived_shreds(arrivals).contains_key(k) implies k
            < data.len() && arrived_shreds(arrivals)[k] == data[k as int] by {
            if k != arrivals.last().0 {
                assert(arrived_shreds(shorter).contains_key(k));
            }
        }
        assert forall|k: u32| #[trigger]
            arrived_shreds(arrivals).contains_key(k) <==> has_arrived(arrivals, k) by {
            if arrived_shreds(shorter).contains_key(k) {
                let i = choose|i: int| 0 <= i < shorter.len() && (#[trigger] shorter[i]).0 == k;
                assert(arrivals[i] == shorter[i]);
            }
            if has_arrived(arrivals, k) {
                let i = choose|i: int| 0 <= i < arrivals.len() && (#[trigger] arrivals[i]).0 == k;
                if i < last {
                    assert(shorter[i] == arrivals[i]);
                }
            }
        }
    }
}

proof fn lemma_few_below(s: Set<u32>, n: int)
    requires
        0 <= n <= u32::MAX,
        forall|k: u32| #[trigger] s.contains(k) ==> k < n,
    ensures
        s.finite(),
        s.len() <= n,
    decreases n,
{
    if n == 0 {
        assert(s =~= Set::empty());
    } else {
        let top = (n - 1) as u32;
        let rest = s.remove(top);
        assert forall|k: u32| #[trigger] rest.contains(k) implies k < n - 1 by {
            assert(s.contains(k));
        }
        lemma_few_below(rest, n - 1);
        if s.contains(top) {
            assert(s =~= rest.insert(top));
        } else {
            assert(s =~= rest);
        }
    }
}

proof fn lemma_joined(data: Seq<Seq<u8>>, arrived: Map<u32, Seq<u8>>, n: int)
    requires
        0 <= n <= data.len() <= u32::MAX,
        forall|k: u32| k < n ==> #[trigger] arrived[k] == data[k as int],
    ensures
        data_before(arrived, n) == joined(data.take(n)),
    decreases n,
{
    if n > 0 {
        lemma_joined(data, arrived, n - 1);
        assert(data.take(n).drop_last() =~= data.take(n - 1));
        assert(arrived[(n - 1) as u32] == data[n - 1]);
    } else {
        assert(data.take(0) =~= seq![]);
    }
}

/// The shreds of a slot may come in any order and any number of times: where as many as there are
/// may wait, each addition succeeds, with `true` exactly for the awaited shred; the state is always
/// what the shreds so far amount to, so the data up to the first missing one is joined.
pub proof fn law_any_arrivals_are_gathered(
    data: Seq<Seq<u8>>,
    max_pending: usize,
    arrivals: Seq<(u32, Vec<u8>)>,
)
    requires
        are_shreds_of(data, arrivals),
        data.len() <= max_pending,
    ensures
        ({
            let state = state_after_all(max_pending, arrivals);
            &&& amounts_to(arrived_shreds(arrivals), state)
            &&& state.awaited <= data.len()
            &&& state.buffer == joined(data.take(state.awaited as int))
        }),
        arrivals.len() > 0 ==> {
            let before = state_after_all(max_pending, arrivals.drop_last());
            crate::streaming_deserializer::shred_answer(
                before,
                max_pending,
                arrivals.last().0,
                Ok(arrivals.last().1),
            ) == Ok::<bool, StreamingDeserializeError>(arrivals.last().0 == before.awaited)
        },
    decreases arrivals.len(),
{
    let n = data.len() as int;
    let state = state_after_all(max_pending, arrivals);
    let arrived = arrived_shreds(arrivals);
    lemma_arrived(data, arrivals);
    if arrivals.len() > 0 {
        let shorter = arrivals.drop_last();
        let (index, bytes) = arrivals.last();
        let earlier = arrived_shreds(shorter);
        let before = state_after_all(max_pending, shorter);
        assert forall|i: int|
            #![trigger shorter[i]]
            0 <= i < shorter.len() implies shorter[i].0 < data.len() && shorter[i].1@
            == data[shorter[i].0 as int] by {
            assert(shorter[i] == arrivals[i]);
        }
        assert(arrivals[arrivals.len() - 1] == arrivals.last());
        law_any_arrivals_are_gathered(data, max_pending, shorter);
        lemma_arrived(data, shorter);
        assert(!earlier.contains_key(u32::MAX));
        if index > before.awaited {
            let waiting = before.pending.dom();
            let more = waiting.insert(before.awaited);
            assert forall|k: u32| #[trigger] waiting.contains(k) implies k < n by {
                assert(before.pending.contains_key(k));
                assert(earlier.contains_key(k));
            }
            lemma_few_below(waiting, n);
            assert forall|k: u32| #[trigger] more.contains(k) implies k < n by {
                if k != before.awaited {
                    assert(waiting.contains(k));
                }
            }
            lemma_few_below(more, n);
            assert(!before.pending.contains_key(before.awaited));
        } else if index == before.awaited {
            let next = (index + 1) as u32;
            let stop = crate::streaming_deserializer::flush_stop(before.pending, next);
            lemma_flush_ends_at_gap(before.pending, next);
            if before.pending.contains_key(stop) {
                assert(earlier.contains_key(stop));
            }
        }
        law_order_of_arrival_is_irrelevant(earlier, before, index, bytes);
        assert(amounts_to(arrived, state));
    } else {
        law_fresh_state_amounts_to_nothing();
    }
    if state.awaited > n {
        assert(arrived.contains_key(n as u32));
    }
    assert forall|k: u32| k < state.awaited implies #[trigger] arrived[k] == data[k as int] by {
        assert(arrived.contains_key(k));
    }
    lemma_joined(data, arrived, state.awaited as int);
}

proof fn lemma_flush_ends_at_gap(pending: Map<u32, ShredData>, next: u32)
    requires
        !pending.contains_key(u32::MAX),
    ensures
        ({
            let stop = crate::streaming_deserializer::flush_stop(pending, next);
            pending.contains_key(stop) ==> pending[stop] is Err
        }),
    decreases u32::MAX - next,
{
    if next < u32::MAX && pending.contains_key(next) && pending[next] is Ok {
        lemma_flush_ends_at_gap(pending, (next + 1) as u32);
    }
}

/// Once every shred of a slot has arrived, in whatever order and however often, all its data is
/// joined in the order of the shreds, and none waits.
pub proof fn law_all_arrivals_complete_the_data(
    data: Seq<Seq<u8>>,
    max_pending: usize,
    arrivals: Seq<(u32, Vec<u8>)>,
)
    requires
        are_shreds_of(data, arrivals),
        data.len() <= max_pending,
        forall|k: u32| k < data.len() ==> #[trigger] has_arrived(arrivals, k),
    ensures
        ({
            let state = state_after_all(max_pending, arrivals);
            &&& state.awaited == data.len()
            &&& state.buffer == joined(data)
            &&& state.pending == Map::<u32, ShredData>::empty()
        }),
{
    let state = state_after_all(max_pending, arrivals);
    let arrived = arrived_shreds(arrivals);
    law_any_arrivals_are_gathered(data, max_pending, arrivals);
    lemma_arrived(data, arrivals);
    assert(!arrived.contains_key(state.awaited));
    assert(!has_arrived(arrivals, state.awaited));
    assert(data.take(data.len() as int) =~= data);
    assert forall|k: u32| !state.pending.contains_key(k) by {
        if state.pending.contains_key(k) {
            assert(arrived.contains_key(k));
        }
    }
    assert(state.pending =~= Map::<u32, ShredData>::empty());
}

/// A new deserializer gets shreds in turn by calls of `add_shred`.
pub open spec fn shreds_added_in_turn(
    states: Seq<StreamingEntryDeserializer>,
    arrivals: Seq<(u32, Vec<u8>)>,
    answers: Seq<Result<bool, StreamingDeserializeError>>,
) -> bool {
    &&& states.len() == arrivals.len() + 1
    &&& answers.len() == arrivals.len()
    &&& states[0].is_fresh(states[0].slot)
    &&& forall|i: int|
        #![trigger arrivals[i]]
        0 <= i < arrivals.len() ==> crate::streaming_deserializer::shred_added(
            states[i],
            states[i + 1],
            arrivals[i].0,
            Ok(arrivals[i].1),
            answers[i],
        )
}

proof fn lemma_states_in_turn(
    states: Seq<StreamingEntryDeserializer>,
    arrivals: Seq<(u32, Vec<u8>)>,
    answers: Seq<Result<bool, StreamingDeserializeError>>,
    i: int,
)
    requires
        shreds_added_in_turn(states, arrivals, answers),
        0 <= i <= arrivals.len(),
    ensures
        states[i].gathered() == state_after_all(states[0].max_pending_shreds, arrivals.take(i)),
        states[i].max_pending_shreds == states[0].max_pending_shreds,
    decreases i,
{
    if i == 0 {
        assert(arrivals.take(0) =~= seq![]);
    } else {
        lemma_states_in_turn(states, arrivals, answers, i - 1);
        assert(arrivals.take(i).drop_last() =~= arrivals.take(i - 1));
        assert(arrivals.take(i).last() == arrivals[i - 1]);
    }
}

/// Calls of `add_shred` with the shreds of a slot, in any order and with any repetitions, all
/// succeed where as many shreds may wait as the slot has. At any time the buffer holds the data up
/// to the first missing shred, each shred once; once all arrived, it holds all the data, and none
/// waits.
pub proof fn law_shreds_come_in_any_order(
    data: Seq<Seq<u8>>,
    states: Seq<StreamingEntryDeserializer>,
    arrivals: Seq<(u32, Vec<u8>)>,
    answers: Seq<Result<bool, StreamingDeserializeError>>,
)
    requires
        shreds_added_in_turn(states, arrivals, answers),
        are_shreds_of(data, arrivals),
        data.len() <= states[0].max_pending_shreds,
        states.last().valid(),
    ensures
        forall|i: int|
            #![trigger answers[i]]
            0 <= i < arrivals.len() ==> answers[i] == Ok::<bool, StreamingDeserializeError>(
                arrivals[i].0 == states[i].awaited(),
            ),
        states.last().buffer@ == joined(data.take(states.last().awaited() as int)),
        !has_arrived(arrivals, states.last().awaited()),
        forall|k: u32| k < states.last().awaited() ==> #[trigger] has_arrived(arrivals, k),
        data.len() > 0 && (forall|k: u32| k < data.len() ==> #[trigger] has_arrived(arrivals, k))
            ==> {
            &&& states.last().contiguous_through == Some((data.len() - 1) as u32)
            &&& states.last().pending_shreds@ == Map::<u32, ShredData>::empty()
            &&& states.last().buffer@ == joined(data)
        },
{
    let max_pending = states[0].max_pending_shreds;
    let n = arrivals.len() as int;
    assert forall|i: int|
        #![trigger answers[i]]
        0 <= i < arrivals.len() implies answers[i] == Ok::<bool, StreamingDeserializeError>(
        arrivals[i].0 == states[i].awaited(),
    ) by {
        let part = arrivals.take(i + 1);
        lemma_states_in_turn(states, arrivals, answers, i);
        assert(part.drop_last() =~= arrivals.take(i));
        assert(part.last() == arrivals[i]);
        assert(are_shreds_of(data, part)) by {
            assert forall|j: int|
                #![trigger part[j]]
                0 <= j < part.len() implies part[j].0 < data.len() && part[j].1@
                == data[part[j].0 as int] by {
                assert(part[j] == arrivals[j]);
            }
        }
        law_any_arrivals_are_gathered(data, max_pending, part);
        assert(crate::streaming_deserializer::shred_added(
            states[i],
            states[i + 1],
            arrivals[i].0,
            Ok(arrivals[i].1),
            answers[i],
        ));
    }
    lemma_states_in_turn(states, arrivals, answers, n);
    assert(arrivals.take(n) =~= arrivals);
    law_any_arrivals_are_gathered(data, max_pending, arrivals);
    lemma_arrived(data, arrivals);
    let arrived = arrived_shreds(arrivals);
    let state = state_after_all(max_pending, arrivals);
    assert(states.last().gathered() == state);
    assert(!arrived.contains_key(state.awaited));
    assert forall|k: u32| k < states.last().awaited() implies #[trigger] has_arrived(
        arrivals,
        k,
    ) by {
        assert(arrived.contains_key(k));
    }
    if data.len() > 0 && (forall|k: u32|
        k < data.len() ==> #[trigger] has_arrived(arrivals, k)) {
        law_all_arrivals_complete_the_data(data, max_pending, arrivals);
    }
}

/// From `offset` on, the bytes hold `left` entries, each decided by its own bytes.
pub open spec fn holds_entries(bytes: Seq<u8>, offset: int, left: int) -> bool {
    &&& 0 <= left
    &&& crate::streaming_deserializer::settled(bytes, offset, left)
    &&& crate::streaming_deserializer::parse_run(bytes, offset, left).entries.len() == left
}

/// Parsing the first `k` bytes gives the first of the entries that all the bytes hold, and no
/// failure; going on from there once all bytes have arrived gives the rest. With all bytes there,
/// nothing is left.
pub proof fn law_parsing_in_steps(whole: Seq<u8>, k: int, offset: int, left: int)
    requires
        0 <= offset,
        0 <= k <= whole.len(),
    ensures
        holds_entries(whole, offset, left) ==> ({
            let all = crate::streaming_deserializer::parse_run(whole, offset, left);
            let first = crate::streaming_deserializer::parse_run(
                whole.subrange(0, k),
                offset,
                left,
            );
            let still = left - first.entries.len();
            let rest = crate::streaming_deserializer::parse_run(whole, first.offset, still);
            &&& all.failure is None
            &&& first.failure is None
            &&& offset <= first.offset
            &&& holds_entries(whole, first.offset, still)
            &&& all == (ParseRun {
                entries: first.entries + rest.entries,
                offset: rest.offset,
                failure: rest.failure,
            })
            &&& k == whole.len() ==> still == 0
        }),
    decreases left,
{
    if holds_entries(whole, offset, left) {
        let part = whole.subrange(0, k);
        let all = crate::streaming_deserializer::parse_run(whole, offset, left);
        let first = crate::streaming_deserializer::parse_run(part, offset, left);
        let still = left - first.entries.len();
        let rest = crate::streaming_deserializer::parse_run(whole, first.offset, still);
        if left == 0 {
            assert(first.entries + rest.entries =~= all.entries);
        } else {
            let tail = whole.subrange(offset, whole.len() as int);
            let read = crate::streaming_deserializer::entry_read(tail);
            assert(read is Complete);
            let used = read->Complete_1;
            let entry = read->Complete_0;
            let front = whole.subrange(offset, offset + used);
            let later_all = crate::streaming_deserializer::parse_run(
                whole,
                offset + used,
                left - 1,
            );
            assert(all.entries =~= seq![entry] + later_all.entries);
            assert(holds_entries(whole, offset + used, left - 1));
            law_parsing_in_steps(whole, k, offset + used, left - 1);
            if offset >= k {
                assert(first.entries =~= seq![]);
                assert(first.entries + rest.entries =~= all.entries);
            } else if k - offset >= used {
                let part_tail = part.subrange(offset, k);
                assert(part_tail =~= front + whole.subrange(offset + used, k));
                assert(crate::streaming_deserializer::entry_read(part_tail) == read);
                let later = crate::streaming_deserializer::parse_run(
                    part,
                    offset + used,
                    left - 1,
                );
                assert(first.entries =~= seq![entry] + later.entries);
                assert(seq![entry] + (later.entries + rest.entries) =~= first.entries
                    + rest.entries);
            } else {
                let part_tail = part.subrange(offset, k);
                assert(part_tail =~= front.subrange(0, k - offset));
                assert(crate::streaming_deserializer::entry_read(part_tail) is Incomplete);
                assert(first.entries =~= seq![]);
                assert(first.entries + rest.entries =~= all.entries);
            }
        }
    }
}

/// What a new deserializer comes to whose buffer grows to each of the given lengths of `whole` in
/// turn and is parsed after each: the progress, the entries of all calls joined, and whether every
/// call succeeded.
pub open spec fn parsed_in_cuts(whole: Seq<u8>, cuts: Seq<int>) -> (Progress, Seq<EntryView>, bool)
    decreases cuts.len(),
{
    if cuts.len() == 0 {
        (Progress { count: None, offset: 0, parsed: 0 }, seq![], true)
    } else {
        let (before, entries, fine) = parsed_in_cuts(whole, cuts.drop_last());
        let part = whole.subrange(0, cuts.last());
        let run = before.run(part);
        (before.after(part), entries + run.entries, fine && run.failure is None)
    }
}

/// Cuts never go back and stay within the bytes.
pub open spec fn are_cuts(whole: Seq<u8>, cuts: Seq<int>) -> bool {
    &&& forall|i: int| 0 <= i < cuts.len() ==> 0 <= #[trigger] cuts[i] <= whole.len()
    &&& forall|i: int, j: int| 0 <= i < j < cuts.len() ==> cuts[i] <= cuts[j]
}

/// How the bytes of a count and its entries are cut makes no difference: every call succeeds, the
/// entries of the calls joined are the first of the entries, each once and in order, and once all
/// bytes have arrived they are all of them and parsing is complete.
pub proof fn law_cuts_make_no_difference(whole: Seq<u8>, cuts: Seq<int>)
    requires
        are_cuts(whole, cuts),
    ensures
        ({
            let n = crate::bytes::word64(whole, 0);
            let all = crate::streaming_deserializer::parse_run(whole, 8, n as int);
            let (end, entries, fine) = parsed_in_cuts(whole, cuts);
            whole.len() >= 8 && holds_entries(whole, 8, n as int) ==> {
                &&& fine
                &&& entries.len() == end.parsed <= n
                &&& entries == all.entries.subrange(0, end.parsed)
                &&& cuts.len() > 0 && cuts.last() >= 8 ==> end.count == Some(n)
                &&& cuts.len() > 0 && cuts.last() == whole.len() ==> {
                    &&& entries == all.entries
                    &&& end.parsed == n
                }
            }
        }),
{
    let n = crate::bytes::word64(whole, 0);
    if whole.len() >= 8 && holds_entries(whole, 8, n as int) {
        lemma_cuts(whole, cuts, n);
        let all = crate::streaming_deserializer::parse_run(whole, 8, n as int);
        let (end, entries, fine) = parsed_in_cuts(whole, cuts);
        if end.count is Some {
            let left = n - end.parsed;
            let rest = crate::streaming_deserializer::parse_run(whole, end.offset, left);
            assert((entries + rest.entries).subrange(0, end.parsed) =~= entries);
            if left == 0 {
                assert(entries + rest.entries =~= entries);
            }
        } else {
            assert(all.entries.subrange(0, 0) =~= entries);
        }
    }
}

/// The bytes of a slot's entries reach a new deserializer in cuts, with a call of `parse_available`
/// after each: `grown[i]` is the deserializer before the call at cut `i`, `parsed[i]` the one after
/// it, `outcomes[i]` what the call returned. Only parsing changes how far parsing has come.
pub open spec fn parsed_in_turn(
    whole: Seq<u8>,
    cuts: Seq<int>,
    grown: Seq<StreamingEntryDeserializer>,
    parsed: Seq<StreamingEntryDeserializer>,
    outcomes: Seq<Result<Vec<Entry>, StreamingDeserializeError>>,
) -> bool {
    &&& are_cuts(whole, cuts)
    &&& grown.len() == cuts.len()
    &&& parsed.len() == cuts.len()
    &&& outcomes.len() == cuts.len()
    &&& forall|i: int|
        #![trigger cuts[i]]
        0 <= i < cuts.len() ==> {
            &&& grown[i].buffer@ == whole.subrange(0, cuts[i])
            &&& grown[i].progress() == if i == 0 {
                (Progress { count: None, offset: 0, parsed: 0 })
            } else {
                parsed[i - 1].progress()
            }
            &&& crate::streaming_deserializer::available_parsed(
                grown[i].progress(),
                parsed[i].progress(),
                grown[i].buffer@,
                outcomes[i],
            )
        }
}

/// The entries of several calls, joined in the order of the calls.
pub open spec fn entries_of(
    outcomes: Seq<Result<Vec<Entry>, StreamingDeserializeError>>,
) -> Seq<EntryView>
    decreases outcomes.len(),
{
    if outcomes.len() == 0 {
        seq![]
    } else {
        entries_of(outcomes.drop_last()) + match outcomes.last() {
            Ok(entries) => crate::entry::entry_views(entries@),
            Err(_) => seq![],
        }
    }
}

proof fn lemma_calls_follow_cuts(
    whole: Seq<u8>,
    cuts: Seq<int>,
    grown: Seq<StreamingEntryDeserializer>,
    parsed: Seq<StreamingEntryDeserializer>,
    outcomes: Seq<Result<Vec<Entry>, StreamingDeserializeError>>,
    i: int,
)
    requires
        parsed_in_turn(whole, cuts, grown, parsed, outcomes),
        0 <= i <= cuts.len(),
    ensures
        ({
            let (end, entries, fine) = parsed_in_cuts(whole, cuts.take(i));
            &&& i > 0 ==> end == parsed[i - 1].progress()
            &&& i == 0 ==> end == (Progress { count: None, offset: 0, parsed: 0 })
            &&& fine ==> entries == entries_of(outcomes.take(i))
            &&& fine ==> forall|j: int| 0 <= j < i ==> #[trigger] outcomes[j] is Ok
        }),
    decreases i,
{
    if i == 0 {
        assert(cuts.take(0) =~= seq![]);
        assert(outcomes.take(0) =~= seq![]);
    } else {
        lemma_calls_follow_cuts(whole, cuts, grown, parsed, outcomes, i - 1);
        assert(cuts.take(i).drop_last() =~= cuts.take(i - 1));
        assert(cuts.take(i).last() == cuts[i - 1]);
        assert(outcomes.take(i).drop_last() =~= outcomes.take(i - 1));
        assert(outcomes.take(i).last() == outcomes[i - 1]);
    }
}

/// However the bytes of a count and its entries are cut, every call of `parse_available` succeeds,
/// and once all bytes have arrived the results of the calls joined are the entries, each once and in
/// order, and the deserializer is complete.
pub proof fn law_calls_parse_every_entry(
    whole: Seq<u8>,
    cuts: Seq<int>,
    grown: Seq<StreamingEntryDeserializer>,
    parsed: Seq<StreamingEntryDeserializer>,
    outcomes: Seq<Result<Vec<Entry>, StreamingDeserializeError>>,
)
    ensures
        ({
            let n = crate::bytes::word64(whole, 0);
            parsed_in_turn(whole, cuts, grown, parsed, outcomes) && cuts.len() > 0 && cuts.last()
                == whole.len() && whole.len() >= 8 && holds_entries(whole, 8, n as int) ==> {
                &&& forall|i: int| 0 <= i < outcomes.len() ==> #[trigger] outcomes[i] is Ok
                &&& entries_of(outcomes) == crate::streaming_deserializer::parse_run(
                    whole,
                    8,
                    n as int,
                ).entries
                &&& parsed.last().expected_count == Some(n)
                &&& parsed.last().entries_parsed == n
            }
        }),
{
    let n = crate::bytes::word64(whole, 0);
    if parsed_in_turn(whole, cuts, grown, parsed, outcomes) && cuts.len() > 0 && cuts.last()
        == whole.len() && whole.len() >= 8 && holds_entries(whole, 8, n as int) {
        lemma_calls_follow_cuts(whole, cuts, grown, parsed, outcomes, cuts.len() as int);
        assert(cuts.take(cuts.len() as int) =~= cuts);
        assert(outcomes.take(cuts.len() as int) =~= outcomes);
        law_cuts_make_no_difference(whole, cuts);
    }
}

proof fn lemma_cuts(whole: Seq<u8>, cuts: Seq<int>, n: u64)
    requires
        are_cuts(whole, cuts),
        whole.len() >= 8,
        n == crate::bytes::word64(whole, 0),
        holds_entries(whole, 8, n as int),
    ensures
        ({
            let all = crate::streaming_deserializer::parse_run(whole, 8, n as int);
            let (end, entries, fine) = parsed_in_cuts(whole, cuts);
            &&& fine
            &&& entries.len() == end.parsed
            &&& cuts.len() > 0 && cuts.last() >= 8 ==> end.count is Some
            &&& match end.count {
                None => end.parsed == 0,
                Some(count) => {
                    let left = n - end.parsed;
                    &&& count == n
                    &&& 8 <= end.offset
                    &&& holds_entries(whole, end.offset, left)
                    &&& all.entries == entries + crate::streaming_deserializer::parse_run(
                        whole,
                        end.offset,
                        left,
                    ).entries
                    &&& cuts.len() > 0 && cuts.last() == whole.len() ==> left == 0
                },
            }
        }),
    decreases cuts.len(),
{
    if cuts.len() > 0 {
        let shorter = cuts.drop_last();
        let k = cuts.last();
        assert forall|i: int| 0 <= i < shorter.len() implies 0 <= #[trigger] shorter[i]
            <= whole.len() by {
            assert(shorter[i] == cuts[i]);
        }
        lemma_cuts(whole, shorter, n);
        let (before, entries, fine) = parsed_in_cuts(whole, shorter);
        let part = whole.subrange(0, k);
        let all = crate::streaming_deserializer::parse_run(whole, 8, n as int);
        if k >= 8 {
            assert(part.subrange(0, 8) =~= whole.subrange(0, 8));
        }
        let start = before.start();
        let left = n - before.parsed;
        if before.known(part) is Some {
            if before.count is None {
                assert(entries =~= seq![]);
                assert(entries + all.entries =~= all.entries);
            }
            law_parsing_in_steps(whole, k, start, left);
            let run = before.run(part);
            let rest = crate::streaming_deserializer::parse_run(
                whole,
                run.offset,
                left - run.entries.len(),
            );
            assert(entries + (run.entries + rest.entries) =~= (entries + run.entries)
                + rest.entries);
        } else {
            assert(before.run(part).entries =~= seq![]);
            assert(entries + before.run(part).entries =~= entries);
        }
    }
}

} // verus!
