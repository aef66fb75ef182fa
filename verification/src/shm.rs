//! A ring of account updates in shared memory.
//!
//! A segment is a 256-byte header followed by the ring. Writers reserve space by advancing a
//! linear cursor that never wraps; the offset of a record in the ring is the cursor modulo the
//! capacity, and the quotient is the record's generation, the lap on which it was written.
//! A record that would not fit before the end of the ring leaves a wrap marker behind and
//! starts over at offset 0, on the next lap.
use crate::account_map::{store_payload, stored_payload};
use crate::bytes::{extend, read_bytes, read_key, read_u32, read_u64, same_bytes, write_at};
use crate::trace::TraceOp;
use dashmap::DashMap;
use gxhash::GxBuildHasher;
use solana_pubkey::Pubkey;
use std::sync::atomic::{AtomicU32, AtomicU64};
use vstd::bytes::{u32_to_le_bytes, u64_to_le_bytes};
use vstd::prelude::*;

verus! {

/// First word of a segment ("SHMA").
pub const MAGIC: u32 = 0x5348_4D41;

/// Layout version of a segment.
pub const VERSION: u32 = 5;

/// First word of a record whose contents are complete.
pub const IS_COMMITED_MASK: u64 = 0xffff_ffff_ffff_ffff;

/// First word at the place where a writer turned back to the start of the ring.
pub const IS_WRAP_MARKER: u64 = 0xf0f0_f0f0_f0f0_f0f0;

/// Public key of the records that mark the end of a transaction's account updates.
pub const TX_END_MARKER_PUBKEY: [u8; 32] = [
    255, 255, 255, 255, 255, 255, 255, 255, 255, 255, 255, 255, 255, 255, 255, 255, 255, 255, 255,
    255, 255, 255, 255, 255, 255, 255, 255, 255, 255, 255, 255, 255,
];

/// Size of a cache line.
pub const CL: usize = 64;

/// Size of the segment header, four cache lines.
pub const HEADER_SIZE: usize = 256;

/// Size of a record header.
pub const REC_HEADER_SIZE: usize = 128;

/// Segments are sized in whole pages.
pub const PAGE_SIZE: usize = 4096;

/// The segment header, one group of fields per cache line.
#[derive(Debug)]
pub struct ShmHeader {
    pub magic: u32,
    pub version: u32,
    pub capacity: u64,
    pub _pad0: [u8; 48],
    /// Linear reservation cursor; it does not wrap.
    pub alloc_off: AtomicU64,
    pub _pad1: [u8; 56],
    /// Kept for compatibility of the layout; readers keep their own cursors.
    pub read_off: AtomicU64,
    pub _pad2: [u8; 56],
    pub flags: AtomicU32,
    pub _pad3a: u32,
    pub _reserved: [u8; 8],
    /// Kept for compatibility of the layout.
    pub last_end_off: AtomicU64,
    pub _pad3b: [u8; 40],
}

impl ShmHeader {
    /// The header of a new segment with the given ring capacity. Its atomic words hold 0, of which
    /// the contract does not speak.
    pub fn new(capacity: u64) -> (header: ShmHeader)
        ensures
            header.magic == MAGIC,
            header.version == VERSION,
            header.capacity == capacity,
            header._pad0@ == crate::bytes::zeros(48),
            header._pad1@ == crate::bytes::zeros(56),
            header._pad2@ == crate::bytes::zeros(56),
            header._pad3a == 0,
            header._reserved@ == crate::bytes::zeros(8),
            header._pad3b@ == crate::bytes::zeros(40),
    {
        let header = ShmHeader {
            magic: MAGIC,
            version: VERSION,
            capacity,
            _pad0: [0u8; 48],
            alloc_off: AtomicU64::new(0),
            _pad1: [0u8; 56],
            read_off: AtomicU64::new(0),
            _pad2: [0u8; 56],
            flags: AtomicU32::new(0),
            _pad3a: 0,
            _reserved: [0u8; 8],
            last_end_off: AtomicU64::new(0),
            _pad3b: [0u8; 40],
        };
        assert(header._pad0@ =~= crate::bytes::zeros(48));
        assert(header._pad1@ =~= crate::bytes::zeros(56));
        assert(header._pad2@ =~= crate::bytes::zeros(56));
        assert(header._reserved@ =~= crate::bytes::zeros(8));
        assert(header._pad3b@ =~= crate::bytes::zeros(40));
        header
    }
}

/// The header that precedes the payload of a record.
#[derive(Debug, Clone, Copy)]
pub struct RecHeader {
    pub commited: u64,
    /// Bytes reserved for the record.
    pub total_len: u32,
    /// Bytes of payload.
    pub data_len: u32,
    /// Lap of the ring on which the record was written.
    pub generation: u64,
    pub pubkey: [u8; 32],
    pub lamports: u64,
    pub trigger_sig: [u8; 64],
}

impl RecHeader {
    /// Size of a record header in bytes.
    pub fn size() -> (bytes: usize)
        ensures
            bytes == REC_HEADER_SIZE,
    {
        REC_HEADER_SIZE
    }
}

/// What a writer hands to the ring.
#[verifier::ext_equal]
pub struct Record {
    pub pubkey: Seq<u8>,
    pub data: Seq<u8>,
    pub lamports: u64,
    pub trigger_sig: Seq<u8>,
}

impl Record {
    /// Keys have 32 bytes, signatures 64, and the payload length fits its header field.
    pub open spec fn valid(self) -> bool {
        &&& self.pubkey.len() == 32
        &&& self.trigger_sig.len() == 64
        &&& record_need(self.data.len() as int) <= u32::MAX
    }
}

/// `n` rounded up to a multiple of 8.
pub open spec fn align8(n: int) -> int {
    (n + 7) / 8 * 8
}

/// Bytes reserved for a record with `n` bytes of payload: the header, the padded payload and
/// room for one more word.
pub open spec fn record_need(n: int) -> int {
    REC_HEADER_SIZE + align8(n) + 8
}

/// Whether `need` bytes at linear position `cur` stay inside the current lap, with room left
/// for a wrap marker behind them.
pub open spec fn fits_lap(cur: int, need: int, cap: int) -> bool {
    cur % cap + need + 8 <= cap
}

/// Linear position at which a record of `need` bytes starts when the cursor stands at `cur`:
/// the cursor itself, or the start of the next lap.
pub open spec fn record_position(cur: int, need: int, cap: int) -> int {
    if fits_lap(cur, need, cap) {
        cur
    } else {
        cur - cur % cap + cap
    }
}

/// The bytes of a complete record on lap `generation`.
pub open spec fn record_bytes(rec: Record, generation: u64) -> Seq<u8> {
    vstd::bytes::spec_u64_to_le_bytes(IS_COMMITED_MASK) + vstd::bytes::spec_u32_to_le_bytes(
        record_need(rec.data.len() as int) as u32,
    ) + vstd::bytes::spec_u32_to_le_bytes(rec.data.len() as u32)
        + vstd::bytes::spec_u64_to_le_bytes(generation) + rec.pubkey
        + vstd::bytes::spec_u64_to_le_bytes(rec.lamports) + rec.trigger_sig + rec.data
        + crate::bytes::zeros(align8(rec.data.len() as int) - rec.data.len())
}

/// The ring after one record was pushed with the cursor at `cur`.
pub open spec fn ring_after_push(buf: Seq<u8>, cap: int, cur: int, rec: Record) -> Seq<u8> {
    let need = record_need(rec.data.len() as int);
    let pos = record_position(cur, need, cap);
    let marked = if fits_lap(cur, need, cap) {
        buf
    } else {
        crate::bytes::splice(
            buf,
            cur % cap,
            vstd::bytes::spec_u64_to_le_bytes(IS_WRAP_MARKER),
        )
    };
    crate::bytes::splice(marked, pos % cap, record_bytes(rec, (pos / cap) as u64))
}

/// A segment as one process sees it: the header fields the ring works with, and its bytes.
#[derive(Debug)]
pub struct ShmRing {
    pub magic: u32,
    pub version: u32,
    pub capacity: u64,
    pub alloc_off: u64,
    pub buf: Vec<u8>,
}

impl ShmRing {
    /// The ring lies inside the mapped bytes and the cursor stands on a word boundary of it.
    pub open spec fn valid(&self) -> bool {
        &&& 0 < self.capacity <= self.buf@.len()
        &&& self.buf@.len() % 8 == 0
        &&& REC_HEADER_SIZE <= self.buf@.len()
        &&& self.buf@.len() + HEADER_SIZE <= isize::MAX
        &&& (self.alloc_off as int % self.capacity as int) % 8 == 0
    }
}

/// Where a record of a given size goes.
#[derive(Debug)]
pub struct Reservation {
    /// Offset of the cursor in the ring, the place of the wrap marker if one is due.
    pub start: usize,
    /// Whether the record stays on the current lap.
    pub fits: bool,
    /// The cursor after the reservation.
    pub next: u64,
    /// Offset of the record in the ring.
    pub rec_start: usize,
    /// Lap of the record.
    pub generation: u64,
}

/// Number of bytes a record with `data_len` bytes of payload takes.
pub fn needed_bytes(data_len: usize) -> (need: usize)
    requires
        data_len + REC_HEADER_SIZE + 15 <= usize::MAX,
    ensures
        need == record_need(data_len as int),
{
    let padded_len: usize = (data_len + 7) / 8 * 8;
    REC_HEADER_SIZE + padded_len + 8
}

/// What becomes of a record before space is reserved for it.
#[derive(Debug, Clone, Copy, PartialEq, Eq, Structural)]
pub enum Admission {
    /// It is written and takes this many bytes.
    Write(usize),
    /// It is skipped with this status.
    Skip(u64),
}

/// Decides on a record with `data_len` bytes of payload for a ring of `cap` bytes: one larger than
/// the ring is refused, one whose size does not fit the 32-bit length field is skipped with
/// status 3.
pub fn size_up(data_len: usize, cap: usize) -> (admission: Result<Admission, ShmError>)
    requires
        cap <= isize::MAX,
    ensures
        ({
            let need = record_need(data_len as int);
            &&& need > cap ==> admission == Err::<Admission, ShmError>(ShmError::NoSpace)
            &&& need <= cap && need > u32::MAX ==> admission == Ok::<Admission, ShmError>(
                Admission::Skip(3),
            )
            &&& need <= cap && need <= u32::MAX ==> admission == Ok::<Admission, ShmError>(
                Admission::Write(need as usize),
            )
        }),
{
    if data_len > cap {
        return Err(ShmError::NoSpace);
    }
    let need: usize = needed_bytes(data_len);
    if need > cap {
        return Err(ShmError::NoSpace);
    }
    if need > 0xffff_ffff {
        return Ok(Admission::Skip(3));
    }
    Ok(Admission::Write(need))
}

/// Reserves `need` bytes at the cursor `cur` of a ring of `cap` bytes.
pub fn reserve(cur: u64, need: usize, cap: usize) -> (slot: Reservation)
    requires
        0 < need <= cap,
        cur + 2 * cap <= u64::MAX,
    ensures
        slot.start == cur as int % cap as int,
        slot.fits == fits_lap(cur as int, need as int, cap as int),
        slot.next == record_position(cur as int, need as int, cap as int) + need,
        slot.rec_start == record_position(cur as int, need as int, cap as int) % cap as int,
        slot.generation == record_position(cur as int, need as int, cap as int) / cap as int,
{
    let cap64: u64 = cap as u64;
    let start64: u64 = cur % cap64;
    let start: usize = start64 as usize;
    let fits: bool = need <= cap - start && cap - start - need >= 8;
    if fits {
        Reservation { start, fits, next: cur + need as u64, rec_start: start, generation: cur / cap64 }
    } else {
        let lap: u64 = cur + (cap64 - start64);
        proof {
            vstd::arithmetic::div_mod::lemma_fundamental_div_mod(cur as int, cap as int);
            let q = cur as int / cap as int;
            assert(lap as int == cap as int * (q + 1)) by (nonlinear_arith)
                requires
                    lap as int == cur as int - cur as int % cap as int + cap as int,
                    cur as int == cap as int * q + cur as int % cap as int,
            ;
            vstd::arithmetic::div_mod::lemma_fundamental_div_mod_converse(
                lap as int,
                cap as int,
                q + 1,
                0,
            );
        }
        Reservation {
            start,
            fits,
            next: lap + need as u64,
            rec_start: 0,
            generation: lap / cap64,
        }
    }
}

/// What a push comes to: the record is written, refused because it is larger than the ring, or
/// skipped because its size does not fit its field.
pub open spec fn pushed(
    before: ShmRing,
    after: ShmRing,
    cap: int,
    rec: Record,
    outcome: Result<(u64, usize), ShmError>,
) -> bool {
    let need = record_need(rec.data.len() as int);
    let cur = before.alloc_off as int;
    let pos = record_position(cur, need, cap);
    &&& after.magic == before.magic
    &&& after.version == before.version
    &&& after.capacity == before.capacity
    &&& if need > cap {
        &&& outcome == Err::<(u64, usize), ShmError>(ShmError::NoSpace)
        &&& after == before
    } else if need > u32::MAX {
        &&& outcome == Ok::<(u64, usize), ShmError>((3, 0))
        &&& after == before
    } else {
        &&& outcome == Ok::<(u64, usize), ShmError>((0, (pos % cap) as usize))
        &&& after.alloc_off == pos + need
        &&& after.buf@ == ring_after_push(before.buf@, cap, cur, rec)
    }
}

/// Why an operation on a segment was refused.
#[derive(Debug)]
pub enum ShmError {
    /// A failed operation on the segment's file.
    Io(ShmIoError),
    /// An error code of the operating system, as text.
    Nix(String),
    /// The segment does not start with a header of this layout.
    InvalidHeader,
    /// The record does not fit into the ring.
    NoSpace,
    /// Not the name of a segment; holds the name with its leading slash.
    InvalidShmName(String),
}

/// Kinds of file errors that the ring tells apart.
#[derive(Clone, Copy, PartialEq, Eq, Structural, Debug)]
pub enum ShmIoErrorKind {
    InvalidInput,
    Other,
}

/// A file error.
#[derive(Debug)]
pub struct ShmIoError {
    pub kind: ShmIoErrorKind,
    pub message: String,
}

/// The bytes of a complete record.
pub fn encode_record(
    pubkey: &[u8; 32],
    data: &[u8],
    lamports: u64,
    trigger_sig: &[u8; 64],
    generation: u64,
) -> (bytes: Vec<u8>)
    requires
        record_need(data@.len() as int) <= u32::MAX,
    ensures
        bytes@ == record_bytes(
            (Record { pubkey: pubkey@, data: data@, lamports, trigger_sig: trigger_sig@ }),
            generation,
        ),
{
    let data_len: usize = data.len();
    let need: usize = needed_bytes(data_len);
    let pad: usize = need - REC_HEADER_SIZE - 8 - data_len;
    let mut bytes: Vec<u8> = u64_to_le_bytes(IS_COMMITED_MASK);
    extend(&mut bytes, u32_to_le_bytes(need as u32).as_slice());
    extend(&mut bytes, u32_to_le_bytes(data_len as u32).as_slice());
    extend(&mut bytes, u64_to_le_bytes(generation).as_slice());
    extend(&mut bytes, pubkey.as_slice());
    extend(&mut bytes, u64_to_le_bytes(lamports).as_slice());
    extend(&mut bytes, trigger_sig.as_slice());
    extend(&mut bytes, data);
    let ghost unpadded = bytes@;
    let mut i: usize = 0;
    while i < pad
        invariant
            i <= pad,
            bytes@ == unpadded + crate::bytes::zeros(i as int),
        decreases pad - i,
    {
        bytes.push(0);
        i += 1;
        assert(bytes@ =~= unpadded + crate::bytes::zeros(i as int));
    }
    bytes
}

/// A record's bytes fill its reservation but for the last word.
pub proof fn lemma_record_bytes_len(rec: Record, generation: u64)
    requires
        rec.valid(),
    ensures
        record_bytes(rec, generation).len() == record_need(rec.data.len() as int) - 8,
{
    vstd::bytes::lemma_auto_spec_u64_to_from_le_bytes();
    vstd::bytes::lemma_auto_spec_u32_to_from_le_bytes();
}

/// The cursor after a push stands on a word boundary of the ring.
pub proof fn lemma_next_offset(cur: int, need: int, cap: int)
    requires
        0 <= cur,
        0 < need <= cap,
    ensures
        ({
            let pos = record_position(cur, need, cap);
            let off = if fits_lap(cur, need, cap) {
                cur % cap
            } else {
                0
            };
            &&& pos % cap == off
            &&& 0 <= off
            &&& off + need <= cap
            &&& (pos + need) % cap == if off + need == cap {
                0
            } else {
                off + need
            }
            &&& pos / cap == if fits_lap(cur, need, cap) {
                cur / cap
            } else {
                cur / cap + 1
            }
            &&& (pos + need) / cap == if off + need == cap {
                pos / cap + 1
            } else {
                pos / cap
            }
        }),
{
    let pos = record_position(cur, need, cap);
    let q = if fits_lap(cur, need, cap) {
        cur / cap
    } else {
        cur / cap + 1
    };
    let off = if fits_lap(cur, need, cap) {
        cur % cap
    } else {
        0
    };
    vstd::arithmetic::div_mod::lemma_fundamental_div_mod(cur, cap);
    assert(pos == q * cap + off) by (nonlinear_arith)
        requires
            cur == cap * (cur / cap) + cur % cap,
            pos == cur && q == cur / cap && off == cur % cap || pos == cur - cur % cap + cap && q
                == cur / cap + 1 && off == 0,
    ;
    vstd::arithmetic::div_mod::lemma_fundamental_div_mod_converse(pos, cap, q, off);
    if off + need == cap {
        assert(pos + need == (q + 1) * cap + 0) by (nonlinear_arith)
            requires
                pos == q * cap + off,
                off + need == cap,
        ;
        vstd::arithmetic::div_mod::lemma_fundamental_div_mod_converse(pos + need, cap, q + 1, 0);
    } else {
        vstd::arithmetic::div_mod::lemma_fundamental_div_mod_converse(
            pos + need,
            cap,
            q,
            off + need,
        );
    }
}

/// Writes records into a ring.
#[derive(Debug)]
pub struct ShmWriter {
    pub cap: usize,
}

impl ShmWriter {
    /// Appends one record and returns status 0 with the record's offset.
    ///
    /// A record larger than the ring is refused with `NoSpace`; one whose size does not fit the
    /// 32-bit length field is skipped with status 3.
    #[verifier::spinoff_prover]
    #[verifier::rlimit(60)]
    pub fn push(
        &self,
        ring: &mut ShmRing,
        pubkey: &[u8; 32],
        data: &[u8],
        lamports: u64,
        trigger_sig: &[u8; 64],
    ) -> (outcome: Result<(u64, usize), ShmError>)
        requires
            old(ring).valid(),
            self.cap == old(ring).capacity,
            old(ring).alloc_off + 2 * self.cap <= u64::MAX,
        ensures
            final(ring).valid(),
            final(ring).magic == old(ring).magic,
            final(ring).version == old(ring).version,
            final(ring).capacity == old(ring).capacity,
            ({
                let need = record_need(data@.len() as int);
                let cur = old(ring).alloc_off as int;
                let cap = self.cap as int;
                let pos = record_position(cur, need, cap);
                if need > cap {
                    &&& outcome == Err::<(u64, usize), ShmError>(ShmError::NoSpace)
                    &&& *final(ring) == *old(ring)
                } else if need > u32::MAX {
                    &&& outcome == Ok::<(u64, usize), ShmError>((3, 0))
                    &&& *final(ring) == *old(ring)
                } else {
                    &&& outcome == Ok::<(u64, usize), ShmError>((0, (pos % cap) as usize))
                    &&& final(ring).alloc_off == pos + need
                    &&& final(ring).buf@ == ring_after_push(
                        old(ring).buf@,
                        cap,
                        cur,
                        Record { pubkey: pubkey@, data: data@, lamports, trigger_sig: trigger_sig@ },
                    )
                }
            }),
            pushed(
                *old(ring),
                *final(ring),
                self.cap as int,
                (Record { pubkey: pubkey@, data: data@, lamports, trigger_sig: trigger_sig@ }),
                outcome,
            ),
    {
        let cap: usize = self.cap;
        let total: usize = ring.buf.len();
        let data_len: usize = data.len();
        let need: usize = match size_up(data_len, cap) {
            Ok(Admission::Write(need)) => need,
            Ok(Admission::Skip(status)) => {
                return Ok((status, 0));
            },
            Err(e) => {
                return Err(e);
            },
        };
        let slot = reserve(ring.alloc_off, need, cap);
        let ghost rec = Record {
            pubkey: pubkey@,
            data: data@,
            lamports,
            trigger_sig: trigger_sig@,
        };
        proof {
            lemma_next_offset(ring.alloc_off as int, need as int, cap as int);
            lemma_record_bytes_len(rec, slot.generation);
            vstd::bytes::lemma_auto_spec_u64_to_from_le_bytes();
        }
        if !slot.fits {
            let marker = u64_to_le_bytes(IS_WRAP_MARKER);
            assert(slot.start + 8 <= total);
            write_at(&mut ring.buf, slot.start, marker.as_slice());
        }
        let bytes = encode_record(pubkey, data, lamports, trigger_sig, slot.generation);
        write_at(&mut ring.buf, slot.rec_start, bytes.as_slice());
        ring.alloc_off = slot.next;
        Ok((0, slot.rec_start))
    }

    /// Appends the marker that ends the account updates caused by `trigger_sig`: a record under
    /// `TX_END_MARKER_PUBKEY` with one zero byte of payload.
    pub fn push_tx_end_marker(&self, ring: &mut ShmRing, trigger_sig: &[u8; 64]) -> (outcome: Result<
        (u64, usize),
        ShmError,
    >)
        requires
            old(ring).valid(),
            self.cap == old(ring).capacity,
            old(ring).alloc_off + 2 * self.cap <= u64::MAX,
        ensures
            final(ring).valid(),
            final(ring).magic == old(ring).magic,
            final(ring).version == old(ring).version,
            final(ring).capacity == old(ring).capacity,
            ({
                let need = record_need(1);
                let cur = old(ring).alloc_off as int;
                let cap = self.cap as int;
                let pos = record_position(cur, need, cap);
                if need > cap {
                    &&& outcome == Err::<(u64, usize), ShmError>(ShmError::NoSpace)
                    &&& *final(ring) == *old(ring)
                } else {
                    &&& outcome == Ok::<(u64, usize), ShmError>((0, (pos % cap) as usize))
                    &&& final(ring).alloc_off == pos + need
                    &&& final(ring).buf@ == ring_after_push(
                        old(ring).buf@,
                        cap,
                        cur,
                        Record {
                            pubkey: TX_END_MARKER_PUBKEY@,
                            data: seq![0u8],
                            lamports: 0,
                            trigger_sig: trigger_sig@,
                        },
                    )
                }
            }),
            pushed(
                *old(ring),
                *final(ring),
                self.cap as int,
                (Record {
                    pubkey: TX_END_MARKER_PUBKEY@,
                    data: seq![0u8],
                    lamports: 0,
                    trigger_sig: trigger_sig@,
                }),
                outcome,
            ),
    {
        let payload: [u8; 1] = [0];
        assert(payload@ =~= seq![0u8]);
        self.push(ring, &TX_END_MARKER_PUBKEY, payload.as_slice(), 0, trigger_sig)
    }
}

/// What a reader finds at one offset of the ring.
pub enum Sight {
    /// No record to take here.
    Nothing,
    /// The writers went back to offset 0; the reader follows and expects this lap there.
    Restart(u64),
    /// The record that the reader expects.
    Here,
}

/// Whether a lap after `lap` has begun: its first record lies complete at offset 0.
pub open spec fn later_lap_begun(buf: Seq<u8>, lap: u64) -> bool {
    &&& REC_HEADER_SIZE <= buf.len()
    &&& crate::bytes::word64(buf, 0) == IS_COMMITED_MASK
    &&& crate::bytes::word64(buf, 16) > lap
}

/// What a reader that expects lap `lap` finds at offset `r`.
///
/// A wrap marker counts once a later lap has begun; before that it is left over from an earlier
/// lap, or the record at the start of the ring is not complete. A complete record of a later lap
/// tells the reader that it was overrun.
pub open spec fn sight(buf: Seq<u8>, r: int, lap: u64) -> Sight {
    if r + 8 > buf.len() {
        Sight::Nothing
    } else if crate::bytes::word64(buf, r) == IS_WRAP_MARKER {
        if later_lap_begun(buf, lap) {
            Sight::Restart(crate::bytes::word64(buf, 16))
        } else {
            Sight::Nothing
        }
    } else if crate::bytes::word64(buf, r) != IS_COMMITED_MASK || r + REC_HEADER_SIZE > buf.len() {
        Sight::Nothing
    } else if crate::bytes::word64(buf, r + 16) > lap {
        Sight::Restart(crate::bytes::word64(buf, r + 16))
    } else if crate::bytes::word64(buf, r + 16) < lap || r + REC_HEADER_SIZE
        + crate::bytes::word32(buf, r + 12) > buf.len() {
        Sight::Nothing
    } else {
        Sight::Here
    }
}

/// Outcome of looking for the next record: where the reader stands afterwards, and whether a
/// record lies there.
pub struct Landing {
    /// Whether the reader went back to offset 0.
    pub moved: bool,
    /// Lap that the reader expects afterwards.
    pub lap: u64,
    /// Whether the expected record lies at the reader's offset.
    pub found: bool,
}

/// Follows the writers from offset `r` at most as far as the start of the ring.
pub open spec fn landing(buf: Seq<u8>, r: int, lap: u64) -> Landing {
    match sight(buf, r, lap) {
        Sight::Nothing => Landing { moved: false, lap, found: false },
        Sight::Here => Landing { moved: false, lap, found: true },
        Sight::Restart(next) => match sight(buf, 0, next) {
            Sight::Nothing => Landing { moved: true, lap: next, found: false },
            Sight::Here => Landing { moved: true, lap: next, found: true },
            Sight::Restart(last) => Landing {
                moved: true,
                lap: last,
                found: sight(buf, 0, last) is Here,
            },
        },
    }
}

/// The steps of a look at offset `r` by a reader that expects lap `lap`: a wrap marker, or the
/// comparison of a complete record's lap with the expected one.
pub open spec fn look_steps(buf: Seq<u8>, r: int, lap: u64) -> Seq<TraceOp> {
    if r + 8 > buf.len() {
        seq![]
    } else if crate::bytes::word64(buf, r) == IS_WRAP_MARKER {
        seq![TraceOp::WrapMarker]
    } else if crate::bytes::word64(buf, r) != IS_COMMITED_MASK || r + REC_HEADER_SIZE > buf.len() {
        seq![]
    } else {
        let rec_gen = crate::bytes::word64(buf, r + 16);
        let compared = TraceOp::GenValidation {
            rec_gen,
            expected_gen: lap,
            matched: rec_gen == lap,
        };
        if rec_gen < lap {
            seq![compared, TraceOp::StaleRecord]
        } else {
            seq![compared]
        }
    }
}

/// The steps of the looks on the way of `landing`.
pub open spec fn landing_steps(buf: Seq<u8>, r: int, lap: u64) -> Seq<TraceOp> {
    match sight(buf, r, lap) {
        Sight::Restart(next) => match sight(buf, 0, next) {
            Sight::Restart(last) => look_steps(buf, r, lap) + look_steps(buf, 0, next)
                + look_steps(buf, 0, last),
            _ => look_steps(buf, r, lap) + look_steps(buf, 0, next),
        },
        _ => look_steps(buf, r, lap),
    }
}

/// The step by which a payload reaches the map, where it changes anything there.
pub open spec fn store_steps(pubkey: [u8; 32], held: Option<Seq<u8>>, data: Seq<u8>) -> Seq<TraceOp> {
    match held {
        None => seq![TraceOp::DashNewInsert(pubkey)],
        Some(earlier) => if earlier == data {
            seq![]
        } else if earlier.len() == data.len() {
            seq![TraceOp::DashSameLengthUpdated]
        } else if earlier.len() > data.len() {
            seq![TraceOp::DashDataLengthDecreased]
        } else {
            seq![TraceOp::DashDataLengthIncreased]
        },
    }
}

/// All steps of a poll that took what `polled` says.
pub open spec fn poll_steps(
    before: ShmReader,
    buf: Seq<u8>,
    payloads: Map<Seq<u8>, Seq<u8>>,
    taken: Option<([u8; 32], u64, bool, bool, u64)>,
) -> Seq<TraceOp> {
    let r = before.r_off as int % before.cap as int;
    let end = landing(buf, r, before.read_gen);
    let at = if end.moved {
        0
    } else {
        r
    };
    landing_steps(buf, r, before.read_gen) + match taken {
        None => seq![],
        Some((pubkey, lamports, _, is_end, _)) => seq![
            TraceOp::RecordRead {
                lamports,
                data_len: crate::bytes::word32(buf, at + 12) as usize,
            },
        ] + (if is_end {
            seq![]
        } else {
            store_steps(
                pubkey,
                if payloads.dom().contains(pubkey@) {
                    Some(payloads[pubkey@])
                } else {
                    None
                },
                payload_at(buf, at),
            )
        }) + seq![TraceOp::Complete],
    }
}

/// Looks at offset `r` of the ring, expecting lap `lap`, and appends the steps of that.
pub fn look(buf: &[u8], r: usize, lap: u64, steps: &mut Vec<TraceOp>) -> (seen: Sight)
    ensures
        seen == sight(buf@, r as int, lap),
        final(steps)@ == old(steps)@ + look_steps(buf@, r as int, lap),
{
    let ghost before = steps@;
    assert(before + Seq::<TraceOp>::empty() =~= before);
    let total: usize = buf.len();
    if r > total || total - r < 8 {
        return Sight::Nothing;
    }
    let commited: u64 = read_u64(buf, r);
    if commited == IS_WRAP_MARKER {
        steps.push(TraceOp::WrapMarker);
        assert(steps@ =~= before + seq![TraceOp::WrapMarker]);
        if total < REC_HEADER_SIZE || read_u64(buf, 0) != IS_COMMITED_MASK {
            return Sight::Nothing;
        }
        let first: u64 = read_u64(buf, 16);
        return if first > lap {
            Sight::Restart(first)
        } else {
            Sight::Nothing
        };
    }
    if commited != IS_COMMITED_MASK || total - r < REC_HEADER_SIZE {
        return Sight::Nothing;
    }
    let generation: u64 = read_u64(buf, r + 16);
    let compared = TraceOp::GenValidation {
        rec_gen: generation,
        expected_gen: lap,
        matched: generation == lap,
    };
    steps.push(compared);
    assert(steps@ =~= before + seq![compared]);
    if generation > lap {
        return Sight::Restart(generation);
    }
    if generation < lap {
        steps.push(TraceOp::StaleRecord);
        assert(steps@ =~= before + seq![compared, TraceOp::StaleRecord]);
        return Sight::Nothing;
    }
    let data_len: u32 = read_u32(buf, r + 12);
    if (total - r - REC_HEADER_SIZE) as u64 >= data_len as u64 {
        Sight::Here
    } else {
        Sight::Nothing
    }
}

/// Reads records from a ring; each reader has a cursor of its own.
#[derive(Debug)]
pub struct ShmReader {
    pub cap: usize,
    /// Offset of the next record.
    pub r_off: u64,
    /// Lap of the next record.
    pub read_gen: u64,
}

/// The payload that a record at offset `r` carries.
pub open spec fn payload_at(buf: Seq<u8>, r: int) -> Seq<u8> {
    buf.subrange(
        r + REC_HEADER_SIZE,
        r + REC_HEADER_SIZE + crate::bytes::word32(buf, r + 12),
    )
}

/// The public key of the record at offset `r`.
pub open spec fn pubkey_at(buf: Seq<u8>, r: int) -> Seq<u8> {
    buf.subrange(r + 24, r + 56)
}

/// Offset and lap behind a record of `need` bytes at offset `at`: where the record ends with the
/// ring, the start of the next lap.
pub open spec fn place_behind(at: int, need: int, cap: int, lap: u64) -> (int, u64) {
    if at + need == cap && lap < u64::MAX {
        (0, (lap + 1) as u64)
    } else {
        (at + need, lap)
    }
}

/// What a poll does: a reader that finds a record takes it, stores its payload under its public
/// key and stands behind it afterwards; one that finds none leaves the map alone.
pub open spec fn polled(
    before: ShmReader,
    after: ShmReader,
    buf: Seq<u8>,
    map_before: DashMap<Pubkey, Vec<u8>, GxBuildHasher>,
    map_after: DashMap<Pubkey, Vec<u8>, GxBuildHasher>,
    receive_ts: u64,
    taken: Option<([u8; 32], u64, bool, bool, u64)>,
) -> bool {
    let r = before.r_off as int % before.cap as int;
    let end = landing(buf, r, before.read_gen);
    let at = if end.moved {
        0
    } else {
        r
    };
    let payloads = crate::account_map::account_payloads(map_before);
    let key = pubkey_at(buf, at);
    let data = payload_at(buf, at);
    &&& after.cap == before.cap
    &&& end.found <==> taken is Some
    &&& !end.found ==> {
        &&& after.read_gen == end.lap
        &&& after.r_off == if end.moved {
            0
        } else {
            before.r_off
        }
        &&& map_after == map_before
    }
    &&& taken matches Some((pubkey, lamports, updated, is_end, ts)) ==> {
        &&& (after.r_off as int, after.read_gen) == place_behind(
            at,
            crate::bytes::word32(buf, at + 8) as int,
            before.cap as int,
            end.lap,
        )
        &&& pubkey@ == key
        &&& lamports == crate::bytes::word64(buf, at + 56)
        &&& is_end == (key == TX_END_MARKER_PUBKEY@)
        &&& updated == (is_end || !payloads.dom().contains(key) || payloads[key] != data)
        &&& ts == receive_ts
        &&& is_end ==> map_after == map_before
        &&& !is_end ==> crate::account_map::account_payloads(map_after) == payloads.insert(
            key,
            data,
        )
    }
}

/// Stores a payload under a public key, unless the same one is held there, and returns whether it
/// was stored.
fn keep_payload(
    map: &mut DashMap<Pubkey, Vec<u8>, GxBuildHasher>,
    pubkey: &[u8; 32],
    data: Vec<u8>,
    steps: &mut Vec<TraceOp>,
) -> (updated: bool)
    ensures
        ({
            let payloads = crate::account_map::account_payloads(*old(map));
            &&& crate::account_map::account_payloads(*final(map)) == payloads.insert(pubkey@, data@)
            &&& updated == (!payloads.dom().contains(pubkey@) || payloads[pubkey@] != data@)
            &&& final(steps)@ == old(steps)@ + store_steps(
                *pubkey,
                if payloads.dom().contains(pubkey@) {
                    Some(payloads[pubkey@])
                } else {
                    None
                },
                data@,
            )
        }),
{
    let ghost before = steps@;
    match stored_payload(map, pubkey) {
        Some(held) => {
            if same_bytes(held.as_slice(), data.as_slice()) {
                assert(crate::account_map::account_payloads(*map).insert(pubkey@, data@)
                    =~= crate::account_map::account_payloads(*map));
                assert(before + Seq::<TraceOp>::empty() =~= before);
                return false;
            }
            let step = if held.len() == data.len() {
                TraceOp::DashSameLengthUpdated
            } else if held.len() > data.len() {
                TraceOp::DashDataLengthDecreased
            } else {
                TraceOp::DashDataLengthIncreased
            };
            steps.push(step);
            assert(steps@ =~= before + seq![step]);
        },
        None => {
            let step = TraceOp::DashNewInsert(*pubkey);
            steps.push(step);
            assert(steps@ =~= before + seq![step]);
        },
    }
    store_payload(map, pubkey, data);
    true
}

impl ShmReader {
    /// Takes the next record, if there is one, and stores its payload under its public key.
    ///
    /// Returns the public key, the lamports, whether the payload differs from the one stored
    /// before, whether the record is an end-of-transaction marker (whose payload is not
    /// stored) and `receive_ts`. Returns `None`, and leaves the map alone, where the next
    /// record is not complete.
    pub fn poll_next_into_dashmap(
        &mut self,
        ring: &ShmRing,
        map: &mut DashMap<Pubkey, Vec<u8>, GxBuildHasher>,
        receive_ts: u64,
    ) -> (taken: Option<([u8; 32], u64, bool, bool, u64)>)
        requires
            ring.valid(),
            old(self).cap == ring.capacity,
        ensures
            polled(*old(self), *final(self), ring.buf@, *old(map), *final(map), receive_ts, taken),
    {
        self.poll_bytes(ring.buf.as_slice(), map, receive_ts)
    }

    /// The same on the bytes of a ring, such as those of a mapped segment.
    pub fn poll_bytes(
        &mut self,
        buf: &[u8],
        map: &mut DashMap<Pubkey, Vec<u8>, GxBuildHasher>,
        receive_ts: u64,
    ) -> (taken: Option<([u8; 32], u64, bool, bool, u64)>)
        requires
            0 < old(self).cap,
            buf@.len() <= isize::MAX,
        ensures
            polled(*old(self), *final(self), buf@, *old(map), *final(map), receive_ts, taken),
    {
        let mut steps: Vec<TraceOp> = Vec::new();
        self.poll_traced(buf, map, receive_ts, &mut steps)
    }

    /// The same, with the steps of the poll appended to `steps`.
    #[verifier::spinoff_prover]
    pub fn poll_traced(
        &mut self,
        buf: &[u8],
        map: &mut DashMap<Pubkey, Vec<u8>, GxBuildHasher>,
        receive_ts: u64,
        steps: &mut Vec<TraceOp>,
    ) -> (taken: Option<([u8; 32], u64, bool, bool, u64)>)
        requires
            0 < old(self).cap,
            buf@.len() <= isize::MAX,
        ensures
            polled(*old(self), *final(self), buf@, *old(map), *final(map), receive_ts, taken),
            final(steps)@ == old(steps)@ + poll_steps(
                *old(self),
                buf@,
                crate::account_map::account_payloads(*old(map)),
                taken,
            ),
    {
        let ghost before = steps@;
        let found: bool = self.land(buf, steps);
        if !found {
            assert(steps@ =~= before + poll_steps(
                *old(self),
                buf@,
                crate::account_map::account_payloads(*old(map)),
                None,
            ));
            return None;
        }
        let r: usize = (self.r_off % self.cap as u64) as usize;
        proof {
            vstd::arithmetic::div_mod::lemma_small_mod(0, self.cap as nat);
            assert(sight(buf@, r as int, self.read_gen) is Here);
        }
        let need: u32 = read_u32(buf, r + 8);
        let data_len: u32 = read_u32(buf, r + 12);
        let lamports: u64 = read_u64(buf, r + 56);
        let pubkey = read_key(buf, r + 24);
        let is_end = same_bytes(pubkey.as_slice(), TX_END_MARKER_PUBKEY.as_slice());
        let mut updated = true;
        steps.push(TraceOp::RecordRead { lamports, data_len: data_len as usize });
        if !is_end {
            let data = read_bytes(buf, r + REC_HEADER_SIZE, data_len as usize);
            updated = keep_payload(map, &pubkey, data, steps);
        }
        steps.push(TraceOp::Complete);
        let behind: u64 = r as u64 + need as u64;
        if behind == self.cap as u64 && self.read_gen < u64::MAX {
            self.r_off = 0;
            self.read_gen = self.read_gen + 1;
        } else {
            self.r_off = behind;
        }
        let taken = Some((pubkey, lamports, updated, is_end, receive_ts));
        assert(steps@ =~= before + poll_steps(
            *old(self),
            buf@,
            crate::account_map::account_payloads(*old(map)),
            taken,
        ));
        taken
    }

    /// Goes to the place of the next record, and returns whether the record lies there.
    fn land(&mut self, buf: &[u8], steps: &mut Vec<TraceOp>) -> (found: bool)
        requires
            0 < old(self).cap,
        ensures
            final(self).cap == old(self).cap,
            ({
                let r = old(self).r_off as int % old(self).cap as int;
                let end = landing(buf@, r, old(self).read_gen);
                &&& found == end.found
                &&& found ==> sight(
                    buf@,
                    if end.moved {
                        0
                    } else {
                        r
                    },
                    end.lap,
                ) is Here
                &&& final(self).read_gen == end.lap
                &&& final(self).r_off == if end.moved {
                    0
                } else {
                    old(self).r_off
                }
                &&& final(steps)@ == old(steps)@ + landing_steps(buf@, r, old(self).read_gen)
            }),
    {
        let ghost before = steps@;
        let r: usize = (self.r_off % self.cap as u64) as usize;
        let mut seen = look(buf, r, self.read_gen, steps);
        if let Sight::Restart(next) = seen {
            self.r_off = 0;
            self.read_gen = next;
            seen = look(buf, 0, next, steps);
            if let Sight::Restart(last) = seen {
                self.read_gen = last;
                seen = look(buf, 0, last, steps);
            }
        }
        assert(steps@ =~= before + landing_steps(buf@, r as int, old(self).read_gen));
        match seen {
            Sight::Here => true,
            _ => false,
        }
    }

    /// Moves the cursor to the start of the ring and to the lap of the record that lies there.
    pub fn seek_to_start(&mut self, ring: &ShmRing)
        requires
            ring.valid(),
        ensures
            final(self).cap == old(self).cap,
            final(self).r_off == 0,
            final(self).read_gen == crate::bytes::word64(ring.buf@, 16),
    {
        self.seek_bytes(ring.buf.as_slice());
    }

    /// The same on the bytes of a ring, such as those of a mapped segment.
    pub fn seek_bytes(&mut self, buf: &[u8])
        requires
            24 <= buf@.len(),
        ensures
            final(self).cap == old(self).cap,
            final(self).r_off == 0,
            final(self).read_gen == crate::bytes::word64(buf@, 16),
    {
        self.r_off = 0;
        self.read_gen = read_u64(buf, 16);
    }
}

} // verus!
