//! What the files of records are called, when they are written, and what their rows are made from.
use crate::dataset_tracking::{DatasetExecutionRow, ExecutionTrackingMessage};
use crate::parquet_writer::{
    PendingFile, RotatingParquetWriter, WriterAction, WriterEvent, FLUSH_INTERVAL_SECS,
    FLUSH_RECORD_THRESHOLD,
};
use crate::shm::ShmError;
use crate::table::IntoRecordBatch;
use crate::trace::{SLOW_DELIVERY_US, TRACE_CAPACITY};
use vstd::prelude::*;

verus! {

/// A file is called by its prefix, an underscore, its number with at least six digits, and the
/// ending ".parquet".
pub proof fn law_file_names(prefix: Seq<char>, sequence: u64)
    ensures
        ({
            let name = crate::parquet_writer::file_name(prefix, sequence as int);
            let n = prefix.len() as int;
            let end = name.len() - 8;
            &&& n + 7 <= end
            &&& name.subrange(0, n) == prefix
            &&& name[n] == '_'
            &&& crate::text::parsed_u64(name.subrange(n + 1, end)) == Some(sequence)
            &&& name.subrange(end, name.len() as int) == seq![
                '.',
                'p',
                'a',
                'r',
                'q',
                'u',
                'e',
                't',
            ]
            &&& forall|i: int|
                n < i < end ==> 0x30 <= #[trigger] name[i] as u32 && name[i] as u32 <= 0x39
            &&& sequence < 1_000_000 ==> end == n + 7
        }),
{
    reveal_strlit("_");
    reveal_strlit(".parquet");
    let name = crate::parquet_writer::file_name(prefix, sequence as int);
    let padded = crate::text::decimal_padded(sequence as int, 6);
    let n = prefix.len() as int;
    let end = name.len() - 8;
    crate::text_laws::law_decimal_reads_back(sequence, 6);
    lemma_six_digits(sequence as int);
    lemma_all_digits_padded(sequence as int, 6);
    assert(name.subrange(0, n) =~= prefix);
    assert(name.subrange(n + 1, end) =~= padded);
    assert(name.subrange(end, name.len() as int) =~= seq!['.', 'p', 'a', 'r', 'q', 'u', 'e', 't']);
    assert forall|i: int| n < i < end implies 0x30 <= #[trigger] name[i] as u32 && name[i] as u32
        <= 0x39 by {
        assert(crate::text::digit_value(padded[i - n - 1]) is Some);
    }
}

proof fn lemma_six_digits(n: int)
    requires
        0 <= n,
    ensures
        n < 1_000_000 ==> crate::text::decimal(n).len() <= 6,
{
    reveal_with_fuel(crate::text::decimal, 7);
}

proof fn lemma_all_digits_padded(n: int, width: int)
    requires
        0 <= n,
        0 <= width,
    ensures
        crate::text::all_digits(crate::text::decimal_padded(n, width)),
{
    let digits = crate::text::decimal(n);
    crate::parquet_writer::lemma_decimal_reads_back(n);
    let k = if digits.len() >= width {
        0nat
    } else {
        (width - digits.len()) as nat
    };
    crate::parquet_writer::lemma_leading_zeros(k, digits);
    assert(crate::text::decimal_padded(n, width) =~= Seq::new(k, |i: int| '0') + digits);
}

/// A name has a number exactly where it consists of the prefix, an underscore, a number and the
/// ending.
pub proof fn law_only_own_files_are_numbered(name: Seq<char>, prefix: Seq<char>, middle: Seq<char>)
    ensures
        crate::parquet_writer::sequence_in(
            prefix + seq!['_'] + middle + seq!['.', 'p', 'a', 'r', 'q', 'u', 'e', 't'],
            prefix,
        ) == crate::text::parsed_u64(middle),
        crate::parquet_writer::sequence_in(name, prefix) is Some ==> exists|m: Seq<char>|
            #![trigger crate::text::parsed_u64(m)]
            name == prefix + seq!['_'] + m + seq!['.', 'p', 'a', 'r', 'q', 'u', 'e', 't']
                && crate::text::parsed_u64(m) == crate::parquet_writer::sequence_in(name, prefix),
{
    reveal_strlit("_");
    reveal_strlit(".parquet");
    let ending = seq!['.', 'p', 'a', 'r', 'q', 'u', 'e', 't'];
    assert(".parquet"@ =~= ending);
    assert("_"@ =~= seq!['_']);
    let whole = prefix + seq!['_'] + middle + ending;
    let head = prefix.len() as int + 1;
    assert(whole.subrange(0, head) =~= prefix + seq!['_']);
    assert(whole.subrange(whole.len() - 8, whole.len() as int) =~= ending);
    assert(whole.subrange(head, whole.len() - 8) =~= middle);
    if crate::parquet_writer::sequence_in(name, prefix) is Some {
        let m = name.subrange(head, name.len() - 8);
        assert(name =~= name.subrange(0, head) + m + name.subrange(
            name.len() - 8,
            name.len() as int,
        ));
        assert(crate::text::parsed_u64(m) == crate::parquet_writer::sequence_in(name, prefix));
    }
}

/// The limits: a table is complete with 100,000 records and old after 60 seconds; 128 steps are kept,
/// and a delivery is slow after one millisecond.
pub proof fn law_limits()
    ensures
        FLUSH_RECORD_THRESHOLD == 100_000,
        FLUSH_INTERVAL_SECS == 60,
        TRACE_CAPACITY == 128,
        SLOW_DELIVERY_US == 1_000,
{
}

/// The row of an executed dataset is made from its message: the dataset is named by its slot and its
/// bounds, the duration is the time from start to end, and each other figure is the message's own.
/// A message about a slot has no row.
pub proof fn law_execution_row_is_the_message(
    row: Option<DatasetExecutionRow>,
    message: ExecutionTrackingMessage,
)
    requires
        crate::dataset_tracking::is_execution_row(row, message),
    ensures
        row is Some <==> message is DatasetComplete,
        row matches Some(r) ==> {
            let start = message->execution_start_us;
            let end = message->execution_end_us;
            &&& r.dataset_id@ == crate::text::decimal(message->DatasetComplete_slot as int) + seq!['_']
                + crate::text::decimal(message->shred_start as int) + seq!['_']
                + crate::text::decimal(message->shred_end as int)
            &&& r.slot == message->DatasetComplete_slot
            &&& r.execution_start_us == start
            &&& r.execution_end_us == end
            &&& end >= start ==> r.duration_us == end - start
            &&& end < start ==> r.duration_us == 0
            &&& r.num_entries == message->num_entries
            &&& r.num_transactions == message->num_transactions
        },
{
}

/// Slots are listed in decimal with one semicolon between two of them, in order.
pub proof fn law_slot_lists_join(a: Seq<u64>, b: Seq<u64>, slot: u64)
    ensures
        crate::window_service_tracer::slot_list(seq![slot]) == crate::text::decimal(slot as int),
        a.len() > 0 && b.len() > 0 ==> crate::window_service_tracer::slot_list(a + b)
            == crate::window_service_tracer::slot_list(a) + seq![';']
            + crate::window_service_tracer::slot_list(b),
    decreases b.len(),
{
    if a.len() > 0 && b.len() > 0 {
        let whole = a + b;
        assert(whole.last() == b.last());
        if b.len() == 1 {
            assert(whole.drop_last() =~= a);
        } else {
            let shorter = b.drop_last();
            law_slot_lists_join(a, shorter, slot);
            assert(whole.drop_last() =~= a + shorter);
            let tail = crate::text::decimal(b.last() as int);
            let front = crate::window_service_tracer::slot_list(a);
            let middle = crate::window_service_tracer::slot_list(shorter);
            assert((front + seq![';'] + middle) + seq![';'] + tail =~= front + seq![';'] + (middle
                + seq![';'] + tail));
        }
    }
}

/// Slots keep the order of their first occurrence: a slot that occurs before any occurrence of
/// another one is listed before it.
pub proof fn law_distinct_slots_keep_order(slots: Seq<u64>, more: u64)
    ensures
        slots.contains(more) ==> crate::window_service_tracer::distinct(slots.push(more))
            == crate::window_service_tracer::distinct(slots),
        !slots.contains(more) ==> crate::window_service_tracer::distinct(slots.push(more))
            == crate::window_service_tracer::distinct(slots).push(more),
        crate::window_service_tracer::distinct(Seq::<u64>::empty()) == Seq::<u64>::empty(),
{
    assert(slots.push(more).drop_last() =~= slots);
    crate::window_service_tracer::law_slots_are_listed_once(slots);
    assert(crate::window_service_tracer::distinct(slots).contains(more) <==> slots.contains(more));
}

/// What the errors of a segment are called.
pub proof fn law_segment_errors_name_their_cause(error: ShmError)
    ensures
        crate::plugin::shm_error_text(error) == match error {
            ShmError::Io(cause) => "shared memory io: "@ + cause.message@,
            ShmError::Nix(cause) => "nix: "@ + cause@,
            ShmError::InvalidHeader => "invalid header"@,
            ShmError::NoSpace => "insufficient space"@,
            ShmError::InvalidShmName(name) => "invalid shm name: "@ + name@,
        },
{
}

/// A table is written as soon as it holds 100,000 records, or once 60 seconds have passed and it
/// holds any; what is collected at the end is written before the writer stops. Without records
/// nothing is written.
pub proof fn law_tables_are_written_in_time<T>(collected: Seq<T>, event: WriterEvent<T>, elapsed_secs: u64)
    ensures
        ({
            let action = crate::parquet_writer::action_after(
                collected.len() as int,
                event,
                elapsed_secs,
            );
            let held = crate::parquet_writer::collected_after(collected, event).len();
            let written = action == WriterAction::Flush || action == WriterAction::FlushAndStop;
            let stops = action == WriterAction::Stop || action == WriterAction::FlushAndStop;
            &&& written ==> held > 0
            &&& stops <==> event is Disconnected
            &&& event is Disconnected ==> (written <==> held > 0)
            &&& event is Record ==> (written <==> held >= 100_000 || elapsed_secs >= 60)
            &&& event is Timeout ==> (written <==> held > 0 && elapsed_secs >= 60)
        }),
{
}

/// What a writer does in turn: it takes a record, or writes what it has collected.
pub ghost enum WriterStep<T> {
    Take(T),
    Write(Option<PendingFile>),
}

/// A series of steps of one writer.
pub open spec fn writes_in_turn<T: IntoRecordBatch>(
    states: Seq<RotatingParquetWriter<T>>,
    steps: Seq<WriterStep<T>>,
) -> bool {
    &&& states.len() == steps.len() + 1
    &&& forall|i: int|
        #![trigger steps[i]]
        0 <= i < steps.len() ==> match steps[i] {
            WriterStep::Take(record) => {
                &&& states[i + 1].prefix == states[i].prefix
                &&& states[i + 1].sequence == states[i].sequence
                &&& states[i + 1].buffer@ == crate::parquet_writer::collected_after(
                    states[i].buffer@,
                    WriterEvent::Record(record),
                )
            },
            WriterStep::Write(file) => crate::parquet_writer::flushed(
                states[i],
                states[i + 1],
                file,
            ),
        }
}

/// The records that were taken, in order.
pub open spec fn records_taken<T>(steps: Seq<WriterStep<T>>) -> Seq<T>
    decreases steps.len(),
{
    if steps.len() == 0 {
        seq![]
    } else {
        match steps.last() {
            WriterStep::Take(record) => records_taken(steps.drop_last()).push(record),
            WriterStep::Write(_) => records_taken(steps.drop_last()),
        }
    }
}

/// How many files were written.
pub open spec fn files_written<T>(steps: Seq<WriterStep<T>>) -> int
    decreases steps.len(),
{
    if steps.len() == 0 {
        0
    } else {
        files_written(steps.drop_last()) + match steps.last() {
            WriterStep::Write(Some(_)) => 1int,
            _ => 0,
        }
    }
}

/// How many records stand in written files.
pub open spec fn records_written<T>(steps: Seq<WriterStep<T>>) -> int
    decreases steps.len(),
{
    if steps.len() == 0 {
        0
    } else {
        match steps.last() {
            WriterStep::Take(_) => records_written(steps.drop_last()),
            WriterStep::Write(_) => records_taken(steps).len() as int,
        }
    }
}

proof fn lemma_writer_state<T: IntoRecordBatch>(
    states: Seq<RotatingParquetWriter<T>>,
    steps: Seq<WriterStep<T>>,
    i: int,
)
    requires
        writes_in_turn(states, steps),
        states[0].buffer@ == Seq::<T>::empty(),
        0 <= i <= steps.len(),
    ensures
        ({
            let done = steps.take(i);
            let taken = records_taken(done);
            let written = records_written(done);
            &&& states[i].prefix == states[0].prefix
            &&& states[i].sequence == states[0].sequence + files_written(done)
            &&& 0 <= written <= taken.len()
            &&& states[i].buffer@ == taken.subrange(written, taken.len() as int)
        }),
    decreases i,
{
    if i == 0 {
        assert(steps.take(0) =~= seq![]);
        assert(states[0].buffer@ =~= records_taken(steps.take(0)).subrange(0, 0));
    } else {
        lemma_writer_state(states, steps, i - 1);
        let done = steps.take(i);
        let before = steps.take(i - 1);
        assert(done.drop_last() =~= before);
        assert(done.last() == steps[i - 1]);
        let taken = records_taken(before);
        let written = records_written(before);
        match steps[i - 1] {
            WriterStep::Take(record) => {
                assert(taken.push(record).subrange(written, 1 + taken.len() as int) =~= taken.subrange(
                    written,
                    taken.len() as int,
                ).push(record));
            },
            WriterStep::Write(file) => {
                let all = records_taken(done);
                assert(all.subrange(all.len() as int, all.len() as int) =~= Seq::<T>::empty());
            },
        }
    }
}

/// Every record is written once and in order: the file that is written at step `i` holds exactly the
/// records that were taken since the last one, and its number is one more than that of the file
/// before it. Nothing is written where none were taken.
pub proof fn law_every_record_is_written_once<T: IntoRecordBatch>(
    states: Seq<RotatingParquetWriter<T>>,
    steps: Seq<WriterStep<T>>,
    i: int,
)
    requires
        writes_in_turn(states, steps),
        states[0].buffer@ == Seq::<T>::empty(),
        0 <= i < steps.len(),
    ensures
        ({
            let done = steps.take(i);
            let taken = records_taken(done);
            let fresh = taken.subrange(records_written(done), taken.len() as int);
            &&& 0 <= records_written(done) <= taken.len()
            &&& steps[i] matches WriterStep::Write(file) ==> {
                &&& file is Some <==> fresh.len() > 0
                &&& file matches Some(f) ==> {
                    &&& f.name@ == crate::parquet_writer::file_name(
                        states[0].prefix@,
                        states[0].sequence + files_written(done),
                    )
                    &&& crate::table::table_fields(f.table) == T::field_list()
                    &&& crate::table::is_table_of(crate::table::table_columns(f.table), fresh)
                }
            }
        }),
{
    lemma_writer_state(states, steps, i);
}

} // verus!
