use vstd::prelude::*;
use vstd::slice::slice_subrange;
use crate::checksum::{record_checksum, spec_record_checksum};
use crate::le_bytes::{le_int, lemma_le_int_bounds, u32_from_le, u32_to_le};
use crate::storage::Storage;

verus! {

/// Size in bytes of one slot metadata record.
pub const RECORD_SIZE: usize = 32;

/// Byte offset of the checksum field inside a record.
pub const CHECKSUM_OFFSET: usize = 28;

/// Largest sequence number a valid record may carry.  The all-ones
/// pattern 0xFFFFFFFF is reserved as the erased marker, so a commit
/// that would need it fails instead of wrapping.
pub const MAX_SEQUENCE: u32 = 0xfffffffe;

/// Which of the two firmware regions holds bootable firmware.
#[derive(Debug, Clone, Copy, PartialEq, Eq, Structural)]
pub enum Slot {
    NoSlot,
    Slot0,
    Slot1,
}

impl Slot {
    /// The slot an update writes to: alternates away from the active
    /// slot, and picks Slot0 on first boot.
    pub open spec fn spec_next(self) -> Slot {
        match self {
            Slot::NoSlot => Slot::Slot0,
            Slot::Slot0 => Slot::Slot1,
            Slot::Slot1 => Slot::Slot0,
        }
    }

    pub fn next(self) -> (r: Slot)
        ensures
            r == self.spec_next(),
    {
        match self {
            Slot::NoSlot => Slot::Slot0,
            Slot::Slot0 => Slot::Slot1,
            Slot::Slot1 => Slot::Slot0,
        }
    }

    /// Index of the slot, used to pick among per-slot offsets.
    pub fn number(self) -> (r: usize)
        requires
            self != Slot::NoSlot,
        ensures
            self == Slot::Slot0 ==> r == 0,
            self == Slot::Slot1 ==> r == 1,
    {
        match self {
            Slot::NoSlot => 0,
            Slot::Slot0 => 0,
            Slot::Slot1 => 1,
        }
    }
}

/// Errors of the slot store.  Storage errors are fatal to the current
/// update attempt and are never retried at this layer.
#[derive(Debug, Clone, Copy, PartialEq, Eq, Structural)]
pub enum OtaError {
    /// A record is neither erased nor carries a matching checksum.
    Corrupt,
    /// A write would fall outside the storage device.
    OutOfBounds,
    /// A commit would need a sequence number past MAX_SEQUENCE.
    SequenceExhausted,
}

/// The state of one slot metadata record at rest.
#[derive(Debug, Clone, Copy, PartialEq, Eq, Structural)]
pub enum RecordState {
    /// All bits one: never written since manufacture.
    Unwritten,
    /// Checksum matches the stored sequence number.
    Valid(u32),
    /// Anything else.
    Corrupt,
}

/// Fixed addressing, resolved once at construction from the partition
/// layout: two metadata record offsets and two image base offsets,
/// never recomputed at runtime.
#[derive(Debug, Clone, Copy, PartialEq, Eq, Structural)]
pub struct OtaConfig {
    pub record_offset_0: usize,
    pub record_offset_1: usize,
    pub image_offset_0: usize,
    pub image_offset_1: usize,
    /// Size in bytes of each image region.
    pub image_capacity: usize,
}

/// Two byte regions do not overlap.
pub open spec fn regions_disjoint(a: int, a_len: int, b: int, b_len: int) -> bool {
    a + a_len <= b || b + b_len <= a
}

impl OtaConfig {
    /// The regions fit the device and are pairwise disjoint.
    pub open spec fn wf(self, device_len: int) -> bool {
        let r0 = self.record_offset_0 as int;
        let r1 = self.record_offset_1 as int;
        let i0 = self.image_offset_0 as int;
        let i1 = self.image_offset_1 as int;
        let rs = RECORD_SIZE as int;
        let cap = self.image_capacity as int;
        &&& r0 + rs <= device_len
        &&& r1 + rs <= device_len
        &&& i0 + cap <= device_len
        &&& i1 + cap <= device_len
        &&& r0 + rs <= 0x100000000
        &&& r1 + rs <= 0x100000000
        &&& i0 + cap <= 0x100000000
        &&& i1 + cap <= 0x100000000
        &&& regions_disjoint(r0, rs, r1, rs)
        &&& regions_disjoint(r0, rs, i0, cap)
        &&& regions_disjoint(r0, rs, i1, cap)
        &&& regions_disjoint(r1, rs, i0, cap)
        &&& regions_disjoint(r1, rs, i1, cap)
        &&& regions_disjoint(i0, cap, i1, cap)
    }

    /// Metadata record offset of a slot.
    pub open spec fn spec_record_offset(self, slot: Slot) -> int {
        if slot == Slot::Slot0 {
            self.record_offset_0 as int
        } else {
            self.record_offset_1 as int
        }
    }

    /// Image base offset of a slot.
    pub open spec fn spec_image_offset(self, slot: Slot) -> int {
        if slot == Slot::Slot0 {
            self.image_offset_0 as int
        } else {
            self.image_offset_1 as int
        }
    }
}

/// The 32 bytes of the record stored at `off`.
pub open spec fn record_bytes(s: Seq<u8>, off: int) -> Seq<u8> {
    s.subrange(off, off + RECORD_SIZE as int)
}

/// A record is unwritten when every one of its bytes reads erased.
pub open spec fn is_unwritten(rec: Seq<u8>) -> bool {
    forall|i: int| 0 <= i < rec.len() ==> rec[i] == 0xffu8
}

/// The sequence number stored in a record, little endian.
pub open spec fn rec_sequence(rec: Seq<u8>) -> u32 {
    le_int(rec.subrange(0, 4)) as u32
}

/// The checksum stored in a record, little endian.
pub open spec fn rec_checksum(rec: Seq<u8>) -> u32 {
    le_int(rec.subrange(CHECKSUM_OFFSET as int, CHECKSUM_OFFSET + 4)) as u32
}

/// Classification of a record at rest: erased, guarded by a matching
/// checksum, or corrupt.
pub open spec fn record_state(rec: Seq<u8>) -> RecordState {
    if is_unwritten(rec) {
        RecordState::Unwritten
    } else if rec_checksum(rec) == spec_record_checksum(rec_sequence(rec)) {
        RecordState::Valid(rec_sequence(rec))
    } else {
        RecordState::Corrupt
    }
}

/// The active-slot rule: with both records valid the greater sequence
/// wins and on the (never committed) tie Slot1 wins; a lone valid
/// record wins over an unwritten one; two unwritten records mean first
/// boot; a corrupt record makes the store unusable.
pub open spec fn spec_active_slot(r0: RecordState, r1: RecordState) -> Result<Slot, OtaError> {
    match (r0, r1) {
        (RecordState::Unwritten, RecordState::Unwritten) => Ok(Slot::NoSlot),
        (RecordState::Unwritten, RecordState::Valid(_)) => Ok(Slot::Slot1),
        (RecordState::Valid(_), RecordState::Unwritten) => Ok(Slot::Slot0),
        (RecordState::Valid(s0), RecordState::Valid(s1)) => if s0 > s1 {
            Ok(Slot::Slot0)
        } else {
            Ok(Slot::Slot1)
        },
        _ => Err(OtaError::Corrupt),
    }
}

/// The slot the device boots from, as a function of the stored bytes.
pub open spec fn spec_current_slot(s: Seq<u8>, cfg: OtaConfig) -> Result<Slot, OtaError> {
    spec_active_slot(
        record_state(record_bytes(s, cfg.record_offset_0 as int)),
        record_state(record_bytes(s, cfg.record_offset_1 as int)),
    )
}

/// The sequence number the next commit writes: one past the greatest
/// valid sequence, or 1 when no record was ever written.  Stated over
/// `int` so exhaustion of the 32-bit space is visible.
pub open spec fn spec_new_sequence(r0: RecordState, r1: RecordState) -> int {
    match (r0, r1) {
        (RecordState::Unwritten, RecordState::Unwritten) => 1,
        (RecordState::Unwritten, RecordState::Valid(s)) => s + 1,
        (RecordState::Valid(s), RecordState::Unwritten) => s + 1,
        (RecordState::Valid(s0), RecordState::Valid(s1)) => if s0 > s1 {
            s0 + 1
        } else {
            s1 + 1
        },
        _ => 0,
    }
}

/// Dual-record slot store: durable bookkeeping of which firmware slot
/// is active, guarded by checksummed, strictly increasing sequence
/// numbers so that power loss before a commit leaves the old slot
/// bootable.
pub struct Ota {
    flash: Storage,
    config: OtaConfig,
}

/// Classifies one record's bytes.
fn classify_record(rec: &[u8]) -> (r: RecordState)
    requires
        rec@.len() == RECORD_SIZE,
    ensures
        r == record_state(rec@),
{
    let mut all_ones = true;
    let mut i: usize = 0;
    while i < RECORD_SIZE
        invariant
            i <= RECORD_SIZE,
            rec@.len() == RECORD_SIZE,
            all_ones <==> (forall|j: int| 0 <= j < i ==> rec@[j] == 0xffu8),
        decreases RECORD_SIZE - i,
    {
        if rec[i] != 0xff {
            all_ones = false;
        }
        i = i + 1;
    }
    if all_ones {
        return RecordState::Unwritten;
    }
    let seq = u32_from_le(slice_subrange(rec, 0, 4));
    let stored = u32_from_le(slice_subrange(rec, CHECKSUM_OFFSET, CHECKSUM_OFFSET + 4));
    proof {
        lemma_le_int_bounds(rec@.subrange(0, 4));
        lemma_le_int_bounds(rec@.subrange(CHECKSUM_OFFSET as int, CHECKSUM_OFFSET + 4));
    }
    if stored == record_checksum(seq) {
        RecordState::Valid(seq)
    } else {
        RecordState::Corrupt
    }
}

impl View for Ota {
    type V = Seq<u8>;

    /// The stored bytes of the underlying device.
    closed spec fn view(&self) -> Seq<u8> {
        self.flash@
    }
}

impl Ota {
    pub closed spec fn cfg(self) -> OtaConfig {
        self.config
    }

    pub open spec fn wf(self) -> bool {
        self.cfg().wf(self@.len() as int)
    }

    /// The fixed addressing this store was constructed with.
    pub fn config(&self) -> (r: OtaConfig)
        ensures
            r == self.cfg(),
    {
        self.config
    }

    /// Size in bytes of the underlying device.
    pub fn device_len(&self) -> (r: usize)
        ensures
            r == self@.len(),
    {
        self.flash.len()
    }

    pub fn new(flash: Storage, config: OtaConfig) -> (r: Ota)
        requires
            config.wf(flash@.len() as int),
        ensures
            r.wf(),
            r@ == flash@,
            r.cfg() == config,
    {
        Ota { flash, config }
    }

    /// Releases the underlying storage device.
    pub fn free(self) -> (r: Storage)
        ensures
            r@ == self@,
    {
        self.flash
    }

    /// Reads and classifies the record of `slot`.
    fn read_record_state(&self, slot: Slot) -> (r: RecordState)
        requires
            self.wf(),
            slot != Slot::NoSlot,
        ensures
            r == record_state(record_bytes(self@, self.cfg().spec_record_offset(slot))),
    {
        let off = if matches!(slot, Slot::Slot0) {
            self.config.record_offset_0
        } else {
            self.config.record_offset_1
        };
        let rec = self.flash.read(off, RECORD_SIZE);
        classify_record(rec.as_slice())
    }

    /// Applies the active-slot rule to the two records.
    pub fn current_slot(&self) -> (r: Result<Slot, OtaError>)
        requires
            self.wf(),
        ensures
            r == spec_current_slot(self@, self.cfg()),
    {
        let r0 = self.read_record_state(Slot::Slot0);
        let r1 = self.read_record_state(Slot::Slot1);
        match (r0, r1) {
            (RecordState::Unwritten, RecordState::Unwritten) => Ok(Slot::NoSlot),
            (RecordState::Unwritten, RecordState::Valid(_)) => Ok(Slot::Slot1),
            (RecordState::Valid(_), RecordState::Unwritten) => Ok(Slot::Slot0),
            (RecordState::Valid(s0), RecordState::Valid(s1)) => if s0 > s1 {
                Ok(Slot::Slot0)
            } else {
                Ok(Slot::Slot1)
            },
            _ => Err(OtaError::Corrupt),
        }
    }

    /// Commits `slot` as the active slot: writes a sequence number one
    /// past every valid sequence into the slot's record, guarded by its
    /// checksum, and touches no other byte of the device.  The store
    /// never erases; a commit fails, changing nothing, when a record is
    /// corrupt or the sequence space is exhausted.
    #[verifier::rlimit(100)]
    pub fn set_current_slot(&mut self, slot: Slot) -> (r: Result<(), OtaError>)
        requires
            old(self).wf(),
            slot != Slot::NoSlot,
        ensures
            final(self).wf(),
            final(self).cfg() == old(self).cfg(),
            final(self)@.len() == old(self)@.len(),
            ({
                let cfg = old(self).cfg();
                let off = cfg.spec_record_offset(slot);
                let r0 = record_state(record_bytes(old(self)@, cfg.record_offset_0 as int));
                let r1 = record_state(record_bytes(old(self)@, cfg.record_offset_1 as int));
                let ns = spec_new_sequence(r0, r1);
                match r {
                    Ok(_) => {
                        &&& r0 != RecordState::Corrupt
                        &&& r1 != RecordState::Corrupt
                        &&& 1 <= ns <= MAX_SEQUENCE
                        &&& record_state(record_bytes(final(self)@, off))
                            == RecordState::Valid(ns as u32)
                        &&& (r0 matches RecordState::Valid(s0) ==> ns > s0)
                        &&& (r1 matches RecordState::Valid(s1) ==> ns > s1)
                        &&& spec_current_slot(final(self)@, cfg) == Ok::<Slot, OtaError>(slot)
                        &&& forall|i: int|
                            0 <= i < old(self)@.len() && !(off <= i < off + 4) && !(off
                                + CHECKSUM_OFFSET <= i < off + CHECKSUM_OFFSET + 4)
                                ==> final(self)@[i] == old(self)@[i]
                    },
                    Err(e) => {
                        &&& final(self)@ == old(self)@
                        &&& (e == OtaError::Corrupt || e == OtaError::SequenceExhausted)
                        &&& (e == OtaError::Corrupt <==> (r0 == RecordState::Corrupt || r1
                            == RecordState::Corrupt))
                        &&& (e == OtaError::SequenceExhausted <==> (r0 != RecordState::Corrupt
                            && r1 != RecordState::Corrupt && ns > MAX_SEQUENCE))
                    },
                }
            }),
    {
        let r0 = self.read_record_state(Slot::Slot0);
        let r1 = self.read_record_state(Slot::Slot1);
        if matches!(r0, RecordState::Corrupt) || matches!(r1, RecordState::Corrupt) {
            return Err(OtaError::Corrupt);
        }
        let max_seq: u32 = match (r0, r1) {
            (RecordState::Valid(s0), RecordState::Valid(s1)) => if s0 > s1 {
                s0
            } else {
                s1
            },
            (RecordState::Valid(s0), _) => s0,
            (_, RecordState::Valid(s1)) => s1,
            _ => 0,
        };
        if max_seq >= MAX_SEQUENCE {
            return Err(OtaError::SequenceExhausted);
        }
        let new_seq = max_seq + 1;
        let seq_le = u32_to_le(new_seq);
        let chk = record_checksum(new_seq);
        let chk_le = u32_to_le(chk);
        let off = if matches!(slot, Slot::Slot0) {
            self.config.record_offset_0
        } else {
            self.config.record_offset_1
        };
        let ghost before = self@;
        let total = self.flash.len();
        assert(off + RECORD_SIZE <= total);
        self.flash.write(off, seq_le.as_slice());
        self.flash.write(off + CHECKSUM_OFFSET, chk_le.as_slice());
        proof {
            let cfg = self.cfg();
            let offi = off as int;
            let rec = record_bytes(self@, offi);
            assert(rec.subrange(0, 4) =~= crate::le_bytes::spec_u32_le(new_seq));
            assert(rec.subrange(CHECKSUM_OFFSET as int, CHECKSUM_OFFSET + 4)
                =~= crate::le_bytes::spec_u32_le(chk));
            crate::le_bytes::lemma_u32_le_roundtrip(new_seq);
            crate::le_bytes::lemma_u32_le_roundtrip(chk);
            assert(rec_sequence(rec) == new_seq);
            assert(rec_checksum(rec) == chk);
            assert(!is_unwritten(rec)) by {
                if is_unwritten(rec) {
                    assert(rec.subrange(0, 4)[0] == 0xffu8);
                    assert(rec.subrange(0, 4)[1] == 0xffu8);
                    assert(rec.subrange(0, 4)[2] == 0xffu8);
                    assert(rec.subrange(0, 4)[3] == 0xffu8);
                    assert(le_int(rec.subrange(0, 4)) == 0xffffffff);
                }
            }
            assert(record_state(rec) == RecordState::Valid(new_seq));
            let off0 = cfg.record_offset_0 as int;
            let off1 = cfg.record_offset_1 as int;
            let other_off: int = if slot == Slot::Slot0 {
                off1
            } else {
                off0
            };
            assert(record_bytes(self@, other_off) =~= record_bytes(before, other_off));
            let f0 = record_state(record_bytes(self@, off0));
            let f1 = record_state(record_bytes(self@, off1));
            if slot == Slot::Slot0 {
                assert(f0 == RecordState::Valid(new_seq));
                assert(f1 == r1);
                assert(spec_active_slot(f0, f1) == Ok::<Slot, OtaError>(Slot::Slot0));
            } else {
                assert(f1 == RecordState::Valid(new_seq));
                assert(f0 == r0);
                assert(spec_active_slot(f0, f1) == Ok::<Slot, OtaError>(Slot::Slot1));
            }
        }
        Ok(())
    }

    /// Writes raw bytes at a device address, as the update path streams
    /// image chunks.  Fails, changing nothing, exactly when the write
    /// would fall outside the device; the write never touches bytes
    /// outside `[addr, addr + data.len())`, so the slot records and the
    /// active slot survive any image write into a disjoint region.
    pub fn write(&mut self, addr: u32, data: &[u8]) -> (r: Result<(), OtaError>)
        requires
            old(self).wf(),
        ensures
            final(self).wf(),
            final(self).cfg() == old(self).cfg(),
            final(self)@.len() == old(self)@.len(),
            match r {
                Ok(_) => {
                    &&& addr + data@.len() <= old(self)@.len()
                    &&& forall|i: int|
                        0 <= i < data@.len() ==> final(self)@[addr + i] == data@[i]
                    &&& forall|i: int|
                        0 <= i < old(self)@.len() && !(addr <= i < addr + data@.len())
                            ==> final(self)@[i] == old(self)@[i]
                    &&& (regions_disjoint(
                        addr as int,
                        data@.len() as int,
                        old(self).cfg().record_offset_0 as int,
                        RECORD_SIZE as int,
                    ) && regions_disjoint(
                        addr as int,
                        data@.len() as int,
                        old(self).cfg().record_offset_1 as int,
                        RECORD_SIZE as int,
                    )) ==> spec_current_slot(final(self)@, old(self).cfg()) == spec_current_slot(
                        old(self)@,
                        old(self).cfg(),
                    )
                },
                Err(e) => {
                    &&& e == OtaError::OutOfBounds
                    &&& addr + data@.len() > old(self)@.len()
                    &&& final(self)@ == old(self)@
                },
            },
    {
        let total = self.flash.len();
        let a = addr as usize;
        if a > total || data.len() > total - a {
            return Err(OtaError::OutOfBounds);
        }
        self.flash.write(a, data);
        proof {
            let cfg = self.cfg();
            let r0 = cfg.record_offset_0 as int;
            let r1 = cfg.record_offset_1 as int;
            let rs = RECORD_SIZE as int;
            if regions_disjoint(a as int, data@.len() as int, r0, rs) && regions_disjoint(
                a as int,
                data@.len() as int,
                r1,
                rs,
            ) {
                assert(record_bytes(self@, r0) =~= record_bytes(old(self)@, r0));
                assert(record_bytes(self@, r1) =~= record_bytes(old(self)@, r1));
                lemma_current_slot_depends_only_on_records(self@, old(self)@, cfg);
            }
        }
        Ok(())
    }
}

/// The active slot is a function of the two records alone: storage
/// whose record regions agree decides the same active slot.  With the
/// contract of `write`, an image write into a region disjoint from the
/// records leaves the active slot as it was, so the slot committed last
/// stays current until another commit.
pub proof fn lemma_current_slot_depends_only_on_records(s1: Seq<u8>, s2: Seq<u8>, cfg: OtaConfig)
    requires
        record_bytes(s1, cfg.record_offset_0 as int) == record_bytes(
            s2,
            cfg.record_offset_0 as int,
        ),
        record_bytes(s1, cfg.record_offset_1 as int) == record_bytes(
            s2,
            cfg.record_offset_1 as int,
        ),
    ensures
        spec_current_slot(s1, cfg) == spec_current_slot(s2, cfg),
{
}

/// Reading the current slot is idempotent: absent intervening commits
/// the stored bytes do not change, and any two reads of the same bytes
/// agree.
pub proof fn lemma_current_slot_idempotent(
    s: Seq<u8>,
    cfg: OtaConfig,
    r1: Result<Slot, OtaError>,
    r2: Result<Slot, OtaError>,
)
    requires
        r1 == spec_current_slot(s, cfg),
        r2 == spec_current_slot(s, cfg),
    ensures
        r1 == r2,
{
}

} // verus!
