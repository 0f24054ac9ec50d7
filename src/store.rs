//! The slot store: a circular array of fixed-size slots with, for each slot, the bytes that
//! were marked filled and the end-of-data tag, plus the cursors and role flags of one writer
//! and one reader.

use vstd::prelude::*;

verus! {

/// One filled slot as the reader will see it.
pub struct Block {
    /// The bytes that the writer marked filled.
    pub data: Seq<u8>,
    /// Whether end-of-data was raised on this slot.
    pub eod: bool,
}

/// The abstract state of a slot store.
pub struct StoreView {
    pub slot_size: nat,
    pub slot_count: nat,
    /// Filled slots that the reader has not cleared yet, oldest first.
    pub queue: Seq<Block>,
    /// The reader has cleared a slot that carried end-of-data.
    pub exhausted: bool,
    pub writer_held: bool,
    pub reader_held: bool,
    /// A write block is open on the slot after the queue.
    pub write_open: bool,
    /// A read block is open on the first slot of the queue.
    pub read_open: bool,
}

/// The state of a store just created, or just reset.
pub open spec fn fresh_view(slot_count: nat, slot_size: nat) -> StoreView {
    StoreView {
        slot_size,
        slot_count,
        queue: Seq::empty(),
        exhausted: false,
        writer_held: false,
        reader_held: false,
        write_open: false,
        read_open: false,
    }
}

/// What holds of every store: at least one slot; a write block is open only under the
/// writer role and on a free slot; a read block only under the reader role, on a filled slot,
/// before end-of-data.
pub open spec fn view_ok(v: StoreView) -> bool {
    &&& v.slot_count > 0
    &&& v.queue.len() <= v.slot_count
    &&& v.write_open ==> v.writer_held && v.queue.len() < v.slot_count
    &&& v.read_open ==> v.reader_held && v.queue.len() > 0 && !v.exhausted
}

/// The store after the open write slot is marked filled with `b`.
pub open spec fn committed(v: StoreView, b: Block) -> StoreView {
    StoreView { queue: v.queue.push(b), write_open: false, ..v }
}

/// The store after the open read slot is marked cleared: it leaves the queue, and its
/// end-of-data tag decides whether the reader is exhausted.
pub open spec fn cleared(v: StoreView) -> StoreView {
    StoreView { queue: v.queue.drop_first(), read_open: false, exhausted: v.queue[0].eod, ..v }
}

pub struct SlotStore {
    slot_size: usize,
    slots: Vec<Vec<u8>>,
    eods: Vec<bool>,
    head: usize,
    pending: usize,
    exhausted: bool,
    writer_held: bool,
    reader_held: bool,
    write_open: bool,
    read_open: bool,
}

impl View for SlotStore {
    type V = StoreView;

    closed spec fn view(&self) -> StoreView {
        StoreView {
            slot_size: self.slot_size as nat,
            slot_count: self.slots.len() as nat,
            queue: Seq::new(self.pending as nat, |i: int| self.block_at(self.slot_of(i))),
            exhausted: self.exhausted,
            writer_held: self.writer_held,
            reader_held: self.reader_held,
            write_open: self.write_open,
            read_open: self.read_open,
        }
    }
}

impl SlotStore {
    /// The slot that holds position `i` of the queue.
    closed spec fn slot_of(&self, i: int) -> int {
        if self.head + i < self.slots.len() {
            self.head + i
        } else {
            self.head + i - self.slots.len()
        }
    }

    closed spec fn block_at(&self, s: int) -> Block {
        Block { data: self.slots[s]@, eod: self.eods[s] }
    }

    /// Well-formed: the representation holds together, and the view is consistent.
    pub open spec fn wf(&self) -> bool {
        self.inv() && view_ok(self@)
    }

    pub closed spec fn inv(&self) -> bool {
        &&& self.slots.len() > 0
        &&& self.eods.len() == self.slots.len()
        &&& self.head < self.slots.len()
        &&& self.pending <= self.slots.len()
        &&& self.write_open ==> self.writer_held && self.pending < self.slots.len()
        &&& self.read_open ==> self.reader_held && self.pending > 0 && !self.exhausted
    }

    /// A store of `slot_count` empty slots of `slot_size` bytes each.
    pub fn new(slot_count: usize, slot_size: usize) -> (r: SlotStore)
        requires
            slot_count > 0,
        ensures
            r.wf(),
            r@ == fresh_view(slot_count as nat, slot_size as nat),
    {
        let mut slots: Vec<Vec<u8>> = Vec::new();
        let mut eods: Vec<bool> = Vec::new();
        let mut i: usize = 0;
        while i < slot_count
            invariant
                i <= slot_count,
                slots.len() == i,
                eods.len() == i,
            decreases slot_count - i,
        {
            slots.push(Vec::new());
            eods.push(false);
            i = i + 1;
        }
        let r = SlotStore {
            slot_size,
            slots,
            eods,
            head: 0,
            pending: 0,
            exhausted: false,
            writer_held: false,
            reader_held: false,
            write_open: false,
            read_open: false,
        };
        assert(r@.queue =~= Seq::<Block>::empty());
        r
    }

    pub fn slot_size(&self) -> (r: usize)
        ensures
            r == self@.slot_size,
    {
        self.slot_size
    }

    pub fn slot_count(&self) -> (r: usize)
        ensures
            r == self@.slot_count,
    {
        self.slots.len()
    }

    /// Which roles are held and which blocks are open: writer held, write block open,
    /// reader held, read block open.
    pub fn role_flags(&self) -> (r: (bool, bool, bool, bool))
        ensures
            r == (self@.writer_held, self@.write_open, self@.reader_held, self@.read_open),
    {
        (self.writer_held, self.write_open, self.reader_held, self.read_open)
    }

    /// Whether the reader has cleared a slot that carried end-of-data.
    pub fn is_eod(&self) -> (r: bool)
        ensures
            r == self@.exhausted,
    {
        self.exhausted
    }

    /// Takes the writer role; fails if it is already held.
    pub(crate) fn lock_write(&mut self) -> (r: Result<(), crate::errors::PsrdadaError>)
        requires
            old(self).wf(),
        ensures
            final(self).wf(),
            old(self)@.writer_held ==> r == Err::<(), _>(crate::errors::PsrdadaError::DadaLockingError)
                && final(self)@ == old(self)@,
            !old(self)@.writer_held ==> r is Ok && final(self)@ == (StoreView {
                writer_held: true,
                ..old(self)@
            }),
    {
        if self.writer_held {
            Err(crate::errors::PsrdadaError::DadaLockingError)
        } else {
            let ghost before = *self;
            self.writer_held = true;
            assert(self@.queue =~= before@.queue);
            Ok(())
        }
    }

    /// Gives the writer role up; a write block still open is abandoned, and nothing of it
    /// reaches the reader.
    pub(crate) fn unlock_write(&mut self) -> (r: Result<(), crate::errors::PsrdadaError>)
        requires
            old(self).wf(),
        ensures
            final(self).wf(),
            !old(self)@.writer_held ==> r == Err::<(), _>(crate::errors::PsrdadaError::DadaLockingError)
                && final(self)@ == old(self)@,
            old(self)@.writer_held ==> r is Ok && final(self)@ == (StoreView {
                writer_held: false,
                write_open: false,
                ..old(self)@
            }),
    {
        if !self.writer_held {
            Err(crate::errors::PsrdadaError::DadaLockingError)
        } else {
            let ghost before = *self;
            self.writer_held = false;
            self.write_open = false;
            assert(self@.queue =~= before@.queue);
            Ok(())
        }
    }

    /// Takes the reader role; fails if it is already held.
    pub(crate) fn lock_read(&mut self) -> (r: Result<(), crate::errors::PsrdadaError>)
        requires
            old(self).wf(),
        ensures
            final(self).wf(),
            old(self)@.reader_held ==> r == Err::<(), _>(crate::errors::PsrdadaError::DadaLockingError)
                && final(self)@ == old(self)@,
            !old(self)@.reader_held ==> r is Ok && final(self)@ == (StoreView {
                reader_held: true,
                ..old(self)@
            }),
    {
        if self.reader_held {
            Err(crate::errors::PsrdadaError::DadaLockingError)
        } else {
            let ghost before = *self;
            self.reader_held = true;
            assert(self@.queue =~= before@.queue);
            Ok(())
        }
    }

    /// Gives the reader role up; a read block still open is abandoned, and its slot stays
    /// filled for the next reader.
    pub(crate) fn unlock_read(&mut self) -> (r: Result<(), crate::errors::PsrdadaError>)
        requires
            old(self).wf(),
        ensures
            final(self).wf(),
            !old(self)@.reader_held ==> r == Err::<(), _>(crate::errors::PsrdadaError::DadaLockingError)
                && final(self)@ == old(self)@,
            old(self)@.reader_held ==> r is Ok && final(self)@ == (StoreView {
                reader_held: false,
                read_open: false,
                ..old(self)@
            }),
    {
        if !self.reader_held {
            Err(crate::errors::PsrdadaError::DadaLockingError)
        } else {
            let ghost before = *self;
            self.reader_held = false;
            self.read_open = false;
            assert(self@.queue =~= before@.queue);
            Ok(())
        }
    }

    /// The slot that follows the last filled one.
    fn write_slot(&self) -> (r: usize)
        requires
            self.wf(),
            self.pending < self.slots.len(),
        ensures
            r == self.slot_of(self.pending as int),
            r < self.slots.len(),
    {
        if self.pending < self.slots.len() - self.head {
            self.head + self.pending
        } else {
            self.pending - (self.slots.len() - self.head)
        }
    }

    /// Opens the next write slot. It is refused while another write block is open, and while
    /// every slot holds data that the reader has not cleared.
    pub(crate) fn acquire_next_write_slot(&mut self) -> (r: bool)
        requires
            old(self).wf(),
            old(self)@.writer_held,
        ensures
            final(self).wf(),
            r == (!old(self)@.write_open && old(self)@.queue.len() < old(self)@.slot_count),
            r ==> final(self)@ == (StoreView { write_open: true, ..old(self)@ }),
            !r ==> final(self)@ == old(self)@,
    {
        if self.write_open || self.pending == self.slots.len() {
            false
        } else {
            let ghost before = *self;
            self.write_open = true;
            assert(self@.queue =~= before@.queue);
            true
        }
    }

    /// Closes the open write slot: `data` becomes its filled bytes, `eod` its end-of-data tag,
    /// and the slot joins the end of the queue.
    pub(crate) fn mark_filled(&mut self, data: Vec<u8>, eod: bool)
        requires
            old(self).wf(),
            old(self)@.write_open,
        ensures
            final(self).wf(),
            final(self)@ == committed(old(self)@, Block { data: data@, eod }),
    {
        let s = self.write_slot();
        let ghost before = *self;
        self.slots[s] = data;
        self.eods[s] = eod;
        self.pending = self.pending + 1;
        self.write_open = false;
        assert(self@.queue =~= before@.queue.push(Block { data: data@, eod }));
    }

    /// Opens the first filled slot for reading and hands out a copy of its bytes. It is
    /// refused after end-of-data, while another read block is open, and while no slot is
    /// filled.
    pub(crate) fn acquire_next_read_slot(&mut self) -> (r: Option<Vec<u8>>)
        requires
            old(self).wf(),
            old(self)@.reader_held,
        ensures
            final(self).wf(),
            r is Some == (!old(self)@.exhausted && !old(self)@.read_open
                && old(self)@.queue.len() > 0),
            r is Some ==> r->0@ == old(self)@.queue[0].data
                && final(self)@ == (StoreView { read_open: true, ..old(self)@ }),
            r is None ==> final(self)@ == old(self)@,
    {
        if self.exhausted || self.read_open || self.pending == 0 {
            None
        } else {
            let data = self.slots[self.head].clone();
            proof {
                assert(self.slot_of(0) == self.head);
                assert(data@ =~= self.slots[self.head as int]@);
            }
            let ghost before = *self;
            self.read_open = true;
            assert(self@.queue =~= before@.queue);
            Some(data)
        }
    }

    /// Clears the open read slot, which leaves the queue; if it carried end-of-data, the
    /// reader is exhausted from now on.
    pub(crate) fn mark_cleared(&mut self)
        requires
            old(self).wf(),
            old(self)@.read_open,
        ensures
            final(self).wf(),
            final(self)@ == cleared(old(self)@),
    {
        let ghost before = *self;
        let eod = self.eods[self.head];
        if self.head + 1 < self.slots.len() {
            self.head = self.head + 1;
        } else {
            self.head = 0;
        }
        self.pending = self.pending - 1;
        self.read_open = false;
        self.exhausted = eod;
        assert(before.slot_of(0) == before.head);
        assert(self@.queue =~= before@.queue.drop_first());
    }

    /// Starts a new stream: every filled slot is dropped and end-of-data is cleared. It
    /// takes the writer role for the time of the reset, so it fails while a writer holds it.
    pub(crate) fn reset(&mut self) -> (r: Result<(), crate::errors::PsrdadaError>)
        requires
            old(self).wf(),
        ensures
            final(self).wf(),
            old(self)@.writer_held ==> r == Err::<(), _>(crate::errors::PsrdadaError::DadaLockingError)
                && final(self)@ == old(self)@,
            !old(self)@.writer_held ==> r is Ok && final(self)@ == (StoreView {
                queue: Seq::empty(),
                exhausted: false,
                read_open: false,
                ..old(self)@
            }),
    {
        if self.writer_held {
            return Err(crate::errors::PsrdadaError::DadaLockingError);
        }
        self.head = 0;
        self.pending = 0;
        self.exhausted = false;
        self.read_open = false;
        assert(self@.queue =~= Seq::<Block>::empty());
        Ok(())
    }
}

} // verus!
