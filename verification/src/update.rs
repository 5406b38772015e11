use vstd::prelude::*;
use vstd::slice::slice_subrange;
use crate::buffer::ByteBuffer;
use crate::ota::{
    lemma_current_slot_depends_only_on_records, record_bytes, record_state, spec_current_slot,
    spec_new_sequence, Ota, OtaConfig, OtaError, RecordState, Slot, MAX_SEQUENCE, RECORD_SIZE,
};
use crate::tiny_http::{parse_dec, parse_dec_spec, trim_bytes, trim_spec};

verus! {

/// The version number carried by the version resource: its body,
/// trimmed of surrounding whitespace, read as an unsigned decimal.
pub open spec fn spec_parse_version(body: Seq<u8>) -> Option<u32> {
    parse_dec_spec(trim_spec(body), 0xffffffff)
}

/// Parses the version resource's body.  `None` aborts the update
/// attempt without touching storage; it is not a device fault.
pub fn parse_version(body: &[u8]) -> (r: Option<u32>)
    ensures
        r == spec_parse_version(body@),
{
    let t = trim_bytes(body);
    parse_dec(t.as_slice(), 0xffffffff)
}

/// Whether the downloaded version text calls for an update: it parses
/// and is strictly newer than the running version.  Anything else,
/// including an unparsable body, means no update — the steady state,
/// not an error.
pub open spec fn spec_should_update(body: Seq<u8>, local: u32) -> bool {
    match spec_parse_version(body) {
        Option::Some(v) => v > local,
        Option::None => false,
    }
}

pub fn should_update(body: &[u8], local: u32) -> (r: bool)
    ensures
        r == spec_should_update(body@, local),
{
    match parse_version(body) {
        Option::Some(v) => v > local,
        Option::None => false,
    }
}

/// Appending chunks one at a time accumulates the same bytes as
/// appending their concatenation: how a body fragments cannot change
/// what is written.
pub proof fn lemma_chunks_concat(b: Seq<u8>, c1: Seq<u8>, c2: Seq<u8>)
    ensures
        (b + c1) + c2 == b + (c1 + c2),
{
    assert((b + c1) + c2 =~= b + (c1 + c2));
}

/// Streams a new firmware image into the target slot: buffers body
/// chunks to the storage write granularity, flushes each full block at
/// strictly increasing offsets from the target image base, and commits
/// the slot only after every byte is durably written, so a power
/// failure at any earlier point leaves the previously active slot
/// bootable and untouched.
pub struct Updater {
    ota: Ota,
    target: Slot,
    written: usize,
    buffer: ByteBuffer,
    committed: bool,
}

impl Updater {
    /// The stored bytes of the device under the slot store.
    pub closed spec fn flash(self) -> Seq<u8> {
        self.ota@
    }

    pub closed spec fn cfg(self) -> OtaConfig {
        self.ota.cfg()
    }

    /// The slot this update writes to.
    pub closed spec fn target_slot(self) -> Slot {
        self.target
    }

    /// Count of body bytes already flushed to the device.
    pub closed spec fn written_bytes(self) -> int {
        self.written as int
    }

    /// Body bytes accepted but not yet flushed.
    pub closed spec fn buffered(self) -> Seq<u8> {
        self.buffer.contents()
    }

    /// The flush block size: one storage sector.
    pub closed spec fn granularity(self) -> int {
        self.buffer.cap()
    }

    /// Whether the final commit happened.
    pub closed spec fn done(self) -> bool {
        self.committed
    }

    /// Base offset of the target slot's image region.
    pub open spec fn image_base(self) -> int {
        self.cfg().spec_image_offset(self.target_slot())
    }

    /// The image bytes flushed so far.
    pub open spec fn image(self) -> Seq<u8> {
        self.flash().subrange(self.image_base(), self.image_base() + self.written_bytes())
    }

    /// Every body byte accepted so far, flushed or still buffered.
    pub open spec fn body_so_far(self) -> Seq<u8> {
        self.image() + self.buffered()
    }

    spec fn inv0(self) -> bool {
        &&& self.ota.wf()
        &&& self.target != Slot::NoSlot
        &&& self.buffer.wf()
        &&& self.buffer.read_pos() == 0
        &&& self.buffer.cap() >= 1
        &&& self.written + self.buffer.contents().len() <= self.ota.cfg().image_capacity
    }

    pub closed spec fn wf(self) -> bool {
        self.inv0() && self.buffer.contents().len() < self.buffer.cap()
    }

    /// Starts an update: the target is the slot the active one
    /// alternates to, and nothing is written yet.  Fails exactly when
    /// the slot store cannot decide the active slot.
    pub fn new(ota: Ota, granularity: usize) -> (r: Result<Updater, OtaError>)
        requires
            ota.wf(),
            granularity >= 1,
        ensures
            match r {
                Ok(u) => {
                    &&& u.wf()
                    &&& spec_current_slot(ota@, ota.cfg()) matches Ok(cur) && u.target_slot()
                        == cur.spec_next()
                    &&& u.flash() == ota@
                    &&& u.cfg() == ota.cfg()
                    &&& u.written_bytes() == 0
                    &&& u.body_so_far() == Seq::<u8>::empty()
                    &&& u.granularity() == granularity
                    &&& !u.done()
                },
                Err(e) => spec_current_slot(ota@, ota.cfg()) == Err::<Slot, OtaError>(e),
            },
    {
        let cur = match ota.current_slot() {
            Ok(c) => c,
            Err(e) => {
                return Err(e);
            },
        };
        let target = cur.next();
        let u = Updater {
            ota,
            target,
            written: 0,
            buffer: ByteBuffer::new(granularity),
            committed: false,
        };
        proof {
            assert(u.body_so_far() =~= Seq::<u8>::empty());
        }
        Ok(u)
    }

    /// Flushes the buffered bytes to the device right after the bytes
    /// already written, and empties the buffer.
    fn flush_buffer(&mut self)
        requires
            old(self).inv0(),
        ensures
            final(self).inv0(),
            final(self).wf(),
            final(self).cfg() == old(self).cfg(),
            final(self).target_slot() == old(self).target_slot(),
            final(self).granularity() == old(self).granularity(),
            final(self).done() == old(self).done(),
            final(self).written_bytes() == old(self).written_bytes() + old(self).buffered().len(),
            final(self).buffered() == Seq::<u8>::empty(),
            final(self).image() == old(self).body_so_far(),
            final(self).body_so_far() == old(self).body_so_far(),
            final(self).flash().len() == old(self).flash().len(),
            forall|i: int|
                0 <= i < old(self).flash().len() && !(old(self).image_base() <= i < old(
                    self,
                ).image_base() + old(self).cfg().image_capacity) ==> final(self).flash()[i] == old(
                self,
            ).flash()[i],
            spec_current_slot(final(self).flash(), final(self).cfg()) == spec_current_slot(
                old(self).flash(),
                old(self).cfg(),
            ),
    {
        let cfg = self.ota.config();
        let base = if matches!(self.target, Slot::Slot0) {
            cfg.image_offset_0
        } else {
            cfg.image_offset_1
        };
        let dl = self.ota.device_len();
        let n = self.buffer.len();
        let addr = base + self.written;
        assert(addr + n <= dl);
        assert(addr + n <= 0x100000000);
        let res = self.ota.write(addr as u32, self.buffer.remaining_slice());
        match res {
            Ok(_) => {},
            Err(_) => {
                proof {
                    assert(false);
                }
            },
        }
        self.written = self.written + n;
        self.buffer.clear();
        proof {
            let basei = base as int;
            let w0 = old(self).written as int;
            let buf = old(self).buffered();
            assert(old(self).buffer.contents().skip(0) =~= buf);
            assert(buf.len() > 0 ==> addr as u32 == addr as int);
            assert(self.ota@.subrange(basei, basei + w0 + buf.len() as int) =~= old(
                self,
            ).ota@.subrange(basei, basei + w0) + buf);
            assert(record_bytes(self.ota@, cfg.record_offset_0 as int) =~= record_bytes(
                old(self).ota@,
                cfg.record_offset_0 as int,
            ));
            assert(record_bytes(self.ota@, cfg.record_offset_1 as int) =~= record_bytes(
                old(self).ota@,
                cfg.record_offset_1 as int,
            ));
            lemma_current_slot_depends_only_on_records(self.ota@, old(self).ota@, cfg);
        }
    }

    /// Accepts one body chunk: buffers it, flushing each block the
    /// buffer fills.  The accepted bytes extend the accumulated body
    /// exactly; nothing outside the target image region changes, and
    /// the active slot stays what it was.  Fails, changing nothing,
    /// exactly when the chunk would not fit the image region.
    pub fn handle_chunk(&mut self, chunk: &[u8]) -> (r: Result<(), OtaError>)
        requires
            old(self).wf(),
            !old(self).done(),
        ensures
            final(self).wf(),
            final(self).cfg() == old(self).cfg(),
            final(self).target_slot() == old(self).target_slot(),
            final(self).granularity() == old(self).granularity(),
            !final(self).done(),
            final(self).flash().len() == old(self).flash().len(),
            match r {
                Ok(_) => {
                    &&& old(self).body_so_far().len() + chunk@.len() <= old(
                        self,
                    ).cfg().image_capacity
                    &&& final(self).body_so_far() == old(self).body_so_far() + chunk@
                    &&& forall|i: int|
                        0 <= i < old(self).flash().len() && !(old(self).image_base() <= i < old(
                            self,
                        ).image_base() + old(self).cfg().image_capacity) ==> final(self).flash()[i]
                            == old(self).flash()[i]
                    &&& spec_current_slot(final(self).flash(), old(self).cfg())
                        == spec_current_slot(old(self).flash(), old(self).cfg())
                },
                Err(e) => {
                    &&& e == OtaError::OutOfBounds
                    &&& old(self).body_so_far().len() + chunk@.len() > old(
                        self,
                    ).cfg().image_capacity
                    &&& *final(self) == *old(self)
                },
            },
    {
        let cfg = self.ota.config();
        let buffered = self.buffer.len();
        let room = cfg.image_capacity - self.written - buffered;
        if chunk.len() > room {
            return Err(OtaError::OutOfBounds);
        }
        let ghost body0 = self.body_so_far();
        let len = chunk.len();
        let mut offset: usize = 0;
        while offset < len
            invariant
                offset <= len,
                len == chunk@.len(),
                self.inv0(),
                self.buffer.contents().len() < self.buffer.cap(),
                cfg == self.ota.cfg(),
                cfg == old(self).cfg(),
                self.target == old(self).target_slot(),
                self.committed == old(self).done(),
                !old(self).done(),
                self.buffer.cap() == old(self).granularity(),
                body0 == old(self).body_so_far(),
                self.body_so_far() == body0 + chunk@.take(offset as int),
                self.written + self.buffer.contents().len() + (len - offset)
                    <= cfg.image_capacity,
                self.ota@.len() == old(self).flash().len(),
                old(self).image_base() == self.image_base(),
                forall|i: int|
                    0 <= i < old(self).flash().len() && !(old(self).image_base() <= i < old(
                        self,
                    ).image_base() + cfg.image_capacity) ==> self.ota@[i] == old(self).flash()[i],
                spec_current_slot(self.ota@, cfg) == spec_current_slot(old(self).flash(), cfg),
            decreases len - offset,
        {
            let rest = slice_subrange(chunk, offset, len);
            let n = self.buffer.push(rest);
            proof {
                assert(n >= 1);
                assert(rest@.take(n as int) =~= chunk@.subrange(
                    offset as int,
                    offset as int + n as int,
                ));
                assert(body0 + chunk@.take(offset as int + n as int) =~= (body0 + chunk@.take(
                    offset as int,
                )) + chunk@.subrange(offset as int, offset as int + n as int));
                assert(self.body_so_far() =~= body0 + chunk@.take(offset as int + n as int));
            }
            offset = offset + n;
            let blen = self.buffer.len();
            let bcap = self.buffer.capacity();
            if blen == bcap {
                self.flush_buffer();
            }
        }
        proof {
            assert(chunk@.take(len as int) =~= chunk@);
        }
        Ok(())
    }

    /// Ends the body: flushes the final partial block unpadded, then —
    /// and only then — commits the target slot.  On success the target
    /// image region holds exactly the accumulated body and the target
    /// is the active slot; on a commit failure the image bytes are
    /// written but the active slot is unchanged.
    pub fn finish(&mut self) -> (r: Result<(), OtaError>)
        requires
            old(self).wf(),
            !old(self).done(),
        ensures
            final(self).cfg() == old(self).cfg(),
            final(self).target_slot() == old(self).target_slot(),
            final(self).written_bytes() == old(self).body_so_far().len(),
            final(self).image() == old(self).body_so_far(),
            final(self).flash().len() == old(self).flash().len(),
            final(self).wf(),
            ({
                let cfg = old(self).cfg();
                let r0 = record_state(record_bytes(old(self).flash(), cfg.record_offset_0 as int));
                let r1 = record_state(record_bytes(old(self).flash(), cfg.record_offset_1 as int));
                let ns = spec_new_sequence(r0, r1);
                match r {
                    Ok(_) => {
                        &&& final(self).done()
                        &&& spec_current_slot(final(self).flash(), cfg) == Ok::<Slot, OtaError>(
                            old(self).target_slot(),
                        )
                        &&& forall|i: int|
                            0 <= i < old(self).flash().len() && !(old(self).image_base() <= i < old(
                                self,
                            ).image_base() + cfg.image_capacity) && !(cfg.spec_record_offset(
                                old(self).target_slot(),
                            ) <= i < cfg.spec_record_offset(old(self).target_slot())
                                + RECORD_SIZE) ==> final(self).flash()[i] == old(self).flash()[i]
                    },
                    Err(e) => {
                        &&& !final(self).done()
                        &&& spec_current_slot(final(self).flash(), cfg) == spec_current_slot(
                            old(self).flash(),
                            cfg,
                        )
                        &&& (e == OtaError::Corrupt <==> (r0 == RecordState::Corrupt || r1
                            == RecordState::Corrupt))
                        &&& (e == OtaError::SequenceExhausted <==> (r0 != RecordState::Corrupt
                            && r1 != RecordState::Corrupt && ns > MAX_SEQUENCE))
                    },
                }
            }),
    {
        let ghost cfg = self.ota.cfg();
        let ghost old_flash = self.ota@;
        if self.buffer.len() > 0 {
            self.flush_buffer();
        }
        proof {
            assert(record_bytes(self.ota@, cfg.record_offset_0 as int) =~= record_bytes(
                old_flash,
                cfg.record_offset_0 as int,
            ));
            assert(record_bytes(self.ota@, cfg.record_offset_1 as int) =~= record_bytes(
                old_flash,
                cfg.record_offset_1 as int,
            ));
        }
        let ghost flushed = self.ota@;
        let target = self.target;
        let res = self.ota.set_current_slot(target);
        match res {
            Ok(_) => {
                self.committed = true;
                proof {
                    assert(self.image() =~= flushed.subrange(
                        self.image_base(),
                        self.image_base() + self.written_bytes(),
                    ));
                }
                Ok(())
            },
            Err(e) => {
                proof {
                    assert(self.ota@ == flushed);
                    assert(self.image() =~= flushed.subrange(
                        self.image_base(),
                        self.image_base() + self.written_bytes(),
                    ));
                }
                Err(e)
            },
        }
    }

    /// Releases the slot store once the update attempt is over.
    pub fn free(self) -> (r: Ota)
        requires
            self.wf(),
        ensures
            r.wf(),
            r@ == self.flash(),
            r.cfg() == self.cfg(),
    {
        self.ota
    }

    pub fn target(&self) -> (r: Slot)
        ensures
            r == self.target_slot(),
    {
        self.target
    }

    pub fn written(&self) -> (r: usize)
        ensures
            r == self.written_bytes(),
    {
        self.written
    }
}

} // verus!
