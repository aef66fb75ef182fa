//! Collects records into tables and decides when a table is written to a new, numbered file.
use crate::table::{IntoRecordBatch, Table};
use crate::text::{chars_of, owned, parse_u64, push_decimal_padded, text_of};
use arrow::datatypes::Schema;
use std::sync::Arc;
use vstd::prelude::*;
use vstd::string::StringExecFns;

verus! {

/// Number of records that makes a table complete.
pub const FLUSH_RECORD_THRESHOLD: usize = 100_000;

/// Seconds after which a table is written though it is not complete.
pub const FLUSH_INTERVAL_SECS: u64 = 60;

/// The name of the file with number `sequence`.
pub open spec fn file_name(prefix: Seq<char>, sequence: int) -> Seq<char> {
    prefix + "_"@ + crate::text::decimal_padded(sequence, 6) + ".parquet"@
}

/// The number in the name of a file with the given prefix.
pub open spec fn sequence_in(name: Seq<char>, prefix: Seq<char>) -> Option<u64> {
    let head = prefix.len() as int + 1;
    let tail = name.len() as int - 8;
    if head <= tail && name.subrange(0, head) == prefix + "_"@ && name.subrange(
        tail,
        name.len() as int,
    ) == ".parquet"@ {
        crate::text::parsed_u64(name.subrange(head, tail))
    } else {
        None
    }
}

/// The name of the file with number `sequence`.
pub fn parquet_file_name(prefix: &str, sequence: u64) -> (name: String)
    ensures
        name@ == file_name(prefix@, sequence as int),
{
    let mut name = owned(prefix);
    name.append("_");
    push_decimal_padded(&mut name, sequence, 6);
    name.append(".parquet");
    name
}

/// Whether `part` stands in `whole` from place `at` on.
fn stands_at(whole: &Vec<char>, at: usize, part: &Vec<char>) -> (stands: bool)
    requires
        at + part@.len() <= whole@.len(),
    ensures
        stands == (whole@.subrange(at as int, at + part@.len()) == part@),
{
    let total: usize = whole.len();
    let n: usize = part.len();
    let mut i: usize = 0;
    while i < n
        invariant
            i <= n,
            n == part@.len(),
            total == whole@.len(),
            at + n <= total,
            forall|j: int| 0 <= j < i ==> whole@[at + j] == #[trigger] part@[j],
        decreases n - i,
    {
        if whole[at + i] != part[i] {
            proof {
                assert(whole@.subrange(at as int, at + n)[i as int] == whole@[at + i]);
            }
            return false;
        }
        i += 1;
    }
    assert(whole@.subrange(at as int, at + n) =~= part@);
    true
}

/// The number in the name of a file with the given prefix; `None` for the name of another file.
pub fn file_sequence(name: &str, prefix: &str) -> (sequence: Option<u64>)
    ensures
        sequence == sequence_in(name@, prefix@),
{
    let whole = chars_of(name);
    let mut head: Vec<char> = chars_of(prefix);
    head.push('_');
    let tail = chars_of(".parquet");
    proof {
        reveal_strlit("_");
        reveal_strlit(".parquet");
        assert(head@ =~= prefix@ + "_"@);
    }
    let n: usize = whole.len();
    if n < tail.len() || n - tail.len() < head.len() {
        return None;
    }
    let cut: usize = n - tail.len();
    if !stands_at(&whole, 0, &head) || !stands_at(&whole, cut, &tail) {
        return None;
    }
    let number = text_of(whole.as_slice(), head.len(), cut);
    parse_u64(number.as_str())
}

/// The number that a new file gets beside those with the given names: one more than the highest
/// number, or 0 where there is none.
pub fn find_next_sequence(names: &Vec<String>, prefix: &str) -> (next: u64)
    requires
        forall|i: int|
            0 <= i < names@.len() ==> sequence_in((#[trigger] names@[i])@, prefix@) != Some(
                u64::MAX,
            ),
    ensures
        forall|i: int|
            0 <= i < names@.len() ==> (sequence_in((#[trigger] names@[i])@, prefix@) matches Some(
                taken,
            ) ==> taken < next),
        next == 0 || exists|i: int|
            0 <= i < names@.len() && sequence_in((#[trigger] names@[i])@, prefix@) == Some(
                (next - 1) as u64,
            ),
{
    let mut next: u64 = 0;
    let mut n: usize = 0;
    while n < names.len()
        invariant
            n <= names@.len(),
            forall|i: int|
                0 <= i < names@.len() ==> sequence_in((#[trigger] names@[i])@, prefix@) != Some(
                    u64::MAX,
                ),
            forall|i: int|
                0 <= i < n ==> (sequence_in((#[trigger] names@[i])@, prefix@) matches Some(taken)
                    ==> taken < next),
            next == 0 || exists|i: int|
                0 <= i < n && sequence_in((#[trigger] names@[i])@, prefix@) == Some(
                    (next - 1) as u64,
                ),
        decreases names@.len() - n,
    {
        let ghost known = next;
        assert(sequence_in(names@[n as int]@, prefix@) != Some(u64::MAX));
        if let Some(taken) = file_sequence(names[n].as_str(), prefix) {
            if taken + 1 > next {
                next = taken + 1;
            }
        }
        n += 1;
    }
    next
}

/// What happens to the writer of one table.
#[derive(Debug)]
pub enum WriterEvent<T> {
    /// A record arrived.
    Record(T),
    /// None arrived for a second.
    Timeout,
    /// None will arrive.
    Disconnected,
}

/// What the writer does next.
#[derive(Debug, Clone, Copy, PartialEq, Eq, Structural)]
pub enum WriterAction {
    /// Wait for the next event.
    Wait,
    /// Write the collected records, then wait.
    Flush,
    /// Write the collected records, then stop.
    FlushAndStop,
    /// Stop.
    Stop,
}

/// The writer of the tables of one record type.
pub struct RotatingParquetWriter<T: IntoRecordBatch> {
    pub prefix: String,
    /// Number of the next file.
    pub sequence: u64,
    /// The records that are not written yet.
    pub buffer: Vec<T>,
}

/// A table and the file to write it to.
pub struct PendingFile {
    pub name: String,
    pub schema: Arc<Schema>,
    pub table: Table,
}

/// What is done after an event with so many records collected, `elapsed_secs` seconds after the last
/// table was written.
pub open spec fn action_after<T>(collected: int, event: WriterEvent<T>, elapsed_secs: u64) -> WriterAction {
    match event {
        WriterEvent::Record(_) => if collected + 1 >= FLUSH_RECORD_THRESHOLD || elapsed_secs
            >= FLUSH_INTERVAL_SECS {
            WriterAction::Flush
        } else {
            WriterAction::Wait
        },
        WriterEvent::Timeout => if collected > 0 && elapsed_secs >= FLUSH_INTERVAL_SECS {
            WriterAction::Flush
        } else {
            WriterAction::Wait
        },
        WriterEvent::Disconnected => if collected > 0 {
            WriterAction::FlushAndStop
        } else {
            WriterAction::Stop
        },
    }
}

/// The collected records after an event.
pub open spec fn collected_after<T>(collected: Seq<T>, event: WriterEvent<T>) -> Seq<T> {
    match event {
        WriterEvent::Record(record) => collected.push(record),
        _ => collected,
    }
}

/// What writing the collected records comes to: nothing without records; otherwise a file with the
/// next number that holds them, and a writer without records.
pub open spec fn flushed<T: IntoRecordBatch>(
    before: RotatingParquetWriter<T>,
    after: RotatingParquetWriter<T>,
    file: Option<PendingFile>,
) -> bool {
    &&& after.prefix == before.prefix
    &&& after.buffer@ == Seq::<T>::empty()
    &&& if before.buffer@.len() == 0 {
        &&& file is None
        &&& after.sequence == before.sequence
    } else {
        &&& file matches Some(f)
        &&& after.sequence == before.sequence + 1
        &&& f.name@ == file_name(before.prefix@, before.sequence as int)
        &&& crate::table::schema_fields(*f.schema) == T::field_list()
        &&& crate::table::table_fields(f.table) == T::field_list()
        &&& crate::table::is_table_of(crate::table::table_columns(f.table), before.buffer@)
    }
}

impl<T: IntoRecordBatch> RotatingParquetWriter<T> {
    /// A writer that goes on behind the files with the given names.
    pub fn new(prefix: String, names: &Vec<String>) -> (writer: RotatingParquetWriter<T>)
        requires
            forall|i: int|
                0 <= i < names@.len() ==> sequence_in((#[trigger] names@[i])@, prefix@) != Some(
                    u64::MAX,
                ),
        ensures
            writer.prefix == prefix,
            writer.buffer@ == Seq::<T>::empty(),
            forall|i: int|
                0 <= i < names@.len() ==> (sequence_in((#[trigger] names@[i])@, prefix@) matches Some(
                taken) ==> taken < writer.sequence),
            writer.sequence == 0 || exists|i: int|
                0 <= i < names@.len() && sequence_in((#[trigger] names@[i])@, prefix@) == Some(
                    (writer.sequence - 1) as u64,
                ),
    {
        let sequence: u64 = find_next_sequence(names, prefix.as_str());
        RotatingParquetWriter { prefix, sequence, buffer: Vec::new() }
    }

    /// An event, `elapsed_secs` seconds after the last table was written. A table is written once
    /// it is complete or old enough, and at the end.
    pub fn step(&mut self, event: WriterEvent<T>, elapsed_secs: u64) -> (action: WriterAction)
        requires
            old(self).buffer@.len() < usize::MAX,
        ensures
            final(self).prefix == old(self).prefix,
            final(self).sequence == old(self).sequence,
            match event {
                WriterEvent::Record(record) => {
                    &&& final(self).buffer@ == old(self).buffer@.push(record)
                    &&& action == if old(self).buffer@.len() + 1 >= FLUSH_RECORD_THRESHOLD
                        || elapsed_secs >= FLUSH_INTERVAL_SECS {
                        WriterAction::Flush
                    } else {
                        WriterAction::Wait
                    }
                },
                WriterEvent::Timeout => {
                    &&& final(self).buffer@ == old(self).buffer@
                    &&& action == if old(self).buffer@.len() > 0 && elapsed_secs
                        >= FLUSH_INTERVAL_SECS {
                        WriterAction::Flush
                    } else {
                        WriterAction::Wait
                    }
                },
                WriterEvent::Disconnected => {
                    &&& final(self).buffer@ == old(self).buffer@
                    &&& action == if old(self).buffer@.len() > 0 {
                        WriterAction::FlushAndStop
                    } else {
                        WriterAction::Stop
                    }
                },
            },
            final(self).buffer@ == collected_after(old(self).buffer@, event),
            action == action_after(old(self).buffer@.len() as int, event, elapsed_secs),
    {
        match event {
            WriterEvent::Record(record) => {
                self.buffer.push(record);
                if self.buffer.len() >= FLUSH_RECORD_THRESHOLD || elapsed_secs
                    >= FLUSH_INTERVAL_SECS {
                    WriterAction::Flush
                } else {
                    WriterAction::Wait
                }
            },
            WriterEvent::Timeout => self.on_timeout(elapsed_secs),
            WriterEvent::Disconnected => self.on_disconnected(),
        }
    }

    /// No record arrived for a second.
    pub fn on_timeout(&self, elapsed_secs: u64) -> (action: WriterAction)
        ensures
            action == if self.buffer@.len() > 0 && elapsed_secs >= FLUSH_INTERVAL_SECS {
                WriterAction::Flush
            } else {
                WriterAction::Wait
            },
    {
        if self.buffer.len() > 0 && elapsed_secs >= FLUSH_INTERVAL_SECS {
            WriterAction::Flush
        } else {
            WriterAction::Wait
        }
    }

    /// No record will arrive.
    pub fn on_disconnected(&self) -> (action: WriterAction)
        ensures
            action == if self.buffer@.len() > 0 {
                WriterAction::FlushAndStop
            } else {
                WriterAction::Stop
            },
    {
        if self.buffer.len() > 0 {
            WriterAction::FlushAndStop
        } else {
            WriterAction::Stop
        }
    }

    /// Takes the collected records out as a table, with the file to write it to; `None` where there
    /// are no records.
    pub fn flush_buffer(&mut self) -> (file: Option<PendingFile>)
        requires
            old(self).sequence < u64::MAX,
            forall|j: int|
                0 <= j < T::field_list().len() ==> #[trigger] crate::table::bound_total(
                    old(self).buffer@,
                    j,
                ) <= i32::MAX,
        ensures
            final(self).prefix == old(self).prefix,
            final(self).buffer@ == Seq::<T>::empty(),
            file is None <==> old(self).buffer@.len() == 0,
            file is None ==> final(self).sequence == old(self).sequence,
            file matches Some(f) ==> {
                &&& final(self).sequence == old(self).sequence + 1
                &&& f.name@ == file_name(old(self).prefix@, old(self).sequence as int)
                &&& crate::table::schema_fields(*f.schema) == T::field_list()
                &&& crate::table::table_fields(f.table) == T::field_list()
                &&& crate::table::is_table_of(
                    crate::table::table_columns(f.table),
                    old(self).buffer@,
                )
            },
            flushed(*old(self), *final(self), file),
    {
        if self.buffer.len() == 0 {
            assert(self.buffer@ =~= Seq::<T>::empty());
            return None;
        }
        let name = parquet_file_name(self.prefix.as_str(), self.sequence);
        self.sequence = self.sequence + 1;
        let schema = T::arrow_schema();
        let table = T::to_record_batch(self.buffer.as_slice());
        self.buffer.clear();
        Some(PendingFile { name, schema, table })
    }
}

proof fn lemma_digit_value(d: int)
    requires
        0 <= d < 10,
    ensures
        crate::text::digit_value(crate::text::digit_char(d)) == Some(d),
        crate::text::digit_char(d) != '+',
{
}

/// A number in decimal is made of digits that stand for it.
pub proof fn lemma_decimal_reads_back(n: int)
    requires
        0 <= n,
    ensures
        crate::text::decimal(n).len() > 0,
        crate::text::all_digits(crate::text::decimal(n)),
        crate::text::digits_value(crate::text::decimal(n)) == n,
    decreases n,
{
    let text = crate::text::decimal(n);
    if n < 10 {
        lemma_digit_value(n);
        assert(text =~= seq![crate::text::digit_char(n)]);
        assert(text.drop_last() =~= seq![]);
        assert(crate::text::digits_value(seq![]) == 0);
    } else {
        lemma_decimal_reads_back(n / 10);
        lemma_digit_value(n % 10);
        let shorter = crate::text::decimal(n / 10);
        assert(text.drop_last() =~= shorter);
        assert forall|i: int| 0 <= i < text.len() implies (#[trigger] crate::text::digit_value(
            text[i],
        )) is Some by {
            if i < shorter.len() {
                assert(crate::text::digit_value(shorter[i]) is Some);
            }
        }
    }
}

/// Zeros before digits do not change the number.
pub proof fn lemma_leading_zeros(k: nat, digits: Seq<char>)
    requires
        crate::text::all_digits(digits),
    ensures
        crate::text::all_digits(Seq::new(k, |i: int| '0') + digits),
        crate::text::digits_value(Seq::new(k, |i: int| '0') + digits)
            == crate::text::digits_value(digits),
    decreases digits.len(), k,
{
    let fill = Seq::new(k, |i: int| '0');
    let text = fill + digits;
    lemma_digit_value(0);
    assert forall|i: int| 0 <= i < text.len() implies (#[trigger] crate::text::digit_value(
        text[i],
    )) is Some by {
        if i >= k {
            assert(crate::text::digit_value(digits[i - k]) is Some);
        }
    }
    if digits.len() > 0 {
        let shorter = digits.drop_last();
        assert(crate::text::all_digits(shorter)) by {
            assert forall|i: int| 0 <= i < shorter.len() implies (
            #[trigger] crate::text::digit_value(shorter[i])) is Some by {
                assert(crate::text::digit_value(digits[i]) is Some);
            }
        }
        lemma_leading_zeros(k, shorter);
        assert(text.drop_last() =~= fill + shorter);
        assert(text.last() == digits.last());
    } else if k > 0 {
        let less = (k - 1) as nat;
        lemma_leading_zeros(less, digits);
        assert(text.drop_last() =~= Seq::new(less, |i: int| '0') + digits);
        assert(text.last() == '0');
    } else {
        assert(text =~= digits);
    }
}

/// The number in the name of a file is the one that the name was made from. A writer that is
/// started again therefore never reuses the name of a file that is there, and no two numbers share
/// a name.
pub proof fn law_file_number_reads_back(prefix: Seq<char>, sequence: u64)
    ensures
        sequence_in(file_name(prefix, sequence as int), prefix) == Some(sequence),
{
    reveal_strlit("_");
    reveal_strlit(".parquet");
    let digits = crate::text::decimal(sequence as int);
    let padded = crate::text::decimal_padded(sequence as int, 6);
    let name = file_name(prefix, sequence as int);
    let head = prefix.len() as int + 1;
    let tail = name.len() as int - 8;
    lemma_decimal_reads_back(sequence as int);
    let k = if digits.len() >= 6 {
        0nat
    } else {
        (6 - digits.len()) as nat
    };
    lemma_leading_zeros(k, digits);
    assert(padded =~= Seq::new(k, |i: int| '0') + digits);
    assert(name.subrange(0, head) =~= prefix + "_"@);
    assert(name.subrange(tail, name.len() as int) =~= ".parquet"@);
    assert(name.subrange(head, tail) =~= padded);
    assert(padded.len() > 0);
    assert(crate::text::digit_value(padded[0]) is Some);
    assert(crate::text::without_plus(padded) == padded);
}

} // verus!
