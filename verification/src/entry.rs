//! Ledger entries.
use solana_transaction::versioned::VersionedTransaction;
use vstd::prelude::*;

verus! {

#[verifier::external_type_specification]
#[verifier::external_body]
pub struct ExVersionedTransaction(solana_transaction::versioned::VersionedTransaction);

/// An entry: a number of hashes since the previous entry, the hash after them and the
/// transactions mixed into it.
#[derive(Debug, Clone)]
pub struct Entry {
    pub num_hashes: u64,
    pub hash: [u8; 32],
    pub transactions: Vec<VersionedTransaction>,
}

impl View for Entry {
    type V = EntryView;

    open spec fn view(&self) -> EntryView {
        EntryView {
            num_hashes: self.num_hashes,
            hash: self.hash@,
            transactions: self.transactions@,
        }
    }
}

/// The contents of an entry.
#[verifier::ext_equal]
pub struct EntryView {
    pub num_hashes: u64,
    pub hash: Seq<u8>,
    pub transactions: Seq<VersionedTransaction>,
}

/// Calls the transactions' own `Clone`: a copy of each transaction, in order.
#[verifier::external_body]
pub(crate) fn copied_transactions(transactions: &Vec<VersionedTransaction>) -> (copies: Vec<
    VersionedTransaction,
>)
    ensures
        copies@ == transactions@,
{
    transactions.clone()
}

/// A copy of an entry.
pub fn copied_entry(entry: &Entry) -> (copy: Entry)
    ensures
        copy@ == entry@,
{
    Entry {
        num_hashes: entry.num_hashes,
        hash: entry.hash,
        transactions: copied_transactions(&entry.transactions),
    }
}

/// The contents of several entries.
pub open spec fn entry_views(entries: Seq<Entry>) -> Seq<EntryView> {
    entries.map_values(|e: Entry| e@)
}

/// Appends copies of `tail`.
pub fn extend_entries(entries: &mut Vec<Entry>, tail: &Vec<Entry>)
    ensures
        entry_views(final(entries)@) == entry_views(old(entries)@) + entry_views(tail@),
{
    let ghost before = entry_views(entries@);
    let mut i: usize = 0;
    while i < tail.len()
        invariant
            i <= tail@.len(),
            entry_views(entries@) == before + entry_views(tail@).subrange(0, i as int),
        decreases tail@.len() - i,
    {
        let copy = copied_entry(&tail[i]);
        let ghost held = entries@;
        entries.push(copy);
        i += 1;
        proof {
            assert(entry_views(held.push(copy)) =~= entry_views(held).push(copy@));
            assert(entry_views(tail@).subrange(0, i as int) =~= entry_views(tail@).subrange(
                0,
                i - 1,
            ).push(tail@[i - 1]@));
            assert(entry_views(entries@) =~= before + entry_views(tail@).subrange(0, i as int));
        }
    }
    assert(entry_views(tail@).subrange(0, tail@.len() as int) =~= entry_views(tail@));
}

} // verus!
