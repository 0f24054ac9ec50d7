//! Lock guards and blocks: a `Writer` or `Reader` holds one role on a slot store for as long
//! as it lives; through it, blocks are opened one at a time and released in the order that the
//! end-of-data protocol asks for.

use vstd::prelude::*;
use crate::errors::{PsrdadaError, PsrdadaResult};
use crate::store::{cleared, committed, Block, SlotStore, StoreView};

verus! {

/// The contents of an open write block.
pub struct WriteBlockView {
    /// The whole slot, as far as it has been written.
    pub bytes: Seq<u8>,
    /// How many bytes were counted as written.
    pub written: nat,
    /// No write was counted yet: a commit then marks the whole slot filled.
    pub write_all: bool,
    /// End-of-data was asked for explicitly.
    pub eod: bool,
}

/// How many bytes a commit of `b` marks filled.
pub open spec fn filled_len(b: WriteBlockView) -> nat {
    if b.write_all {
        b.bytes.len()
    } else {
        b.written
    }
}

/// The slot that a commit of `b` hands to the reader, in a store of `slot_size`-byte slots:
/// its filled bytes, and end-of-data when asked for or when the slot is not full.
pub open spec fn committed_block(b: WriteBlockView, slot_size: nat) -> Block {
    Block {
        data: b.bytes.take(filled_len(b) as int),
        eod: b.eod || filled_len(b) < slot_size,
    }
}

/// A fresh write block of `n` bytes, all zero.
pub open spec fn fresh_write_block(n: nat) -> WriteBlockView {
    WriteBlockView { bytes: Seq::new(n, |i: int| 0u8), written: 0, write_all: true, eod: false }
}

/// Whether `push` takes `d`: it fits in a slot, no block is open, and a slot is free.
pub open spec fn push_accepts(v: StoreView, d: Seq<u8>) -> bool {
    d.len() <= v.slot_size && !v.write_open && v.queue.len() < v.slot_count
}

/// The store after `push` of `d`: one more filled slot, with end-of-data where `d` is
/// shorter than a slot.
pub open spec fn pushed(v: StoreView, d: Seq<u8>) -> StoreView {
    committed(v, Block { data: d, eod: d.len() < v.slot_size })
}

/// What `pop` hands out: the oldest filled slot's bytes, unless end-of-data was seen, a
/// block is open, or no slot is filled.
pub open spec fn pop_yields(v: StoreView) -> Option<Seq<u8>> {
    if !v.exhausted && !v.read_open && v.queue.len() > 0 {
        Some(v.queue[0].data)
    } else {
        None
    }
}

/// The writer role on a slot store, held from `new` until `unlock`.
pub struct Writer<'a> {
    /// The store whose writer role this guard holds. It is public because the contracts speak
    /// of it. The store's own methods that change it are private to this crate, but outside
    /// code can still overwrite the whole store through this field; the guard's contracts
    /// then no longer describe the store it was made from.
    pub store: &'a mut SlotStore,
}

/// The reader role on a slot store, held from `new` until `unlock`.
pub struct Reader<'a> {
    /// The store whose reader role this guard holds. It is public because the contracts speak
    /// of it. The store's own methods that change it are private to this crate, but outside
    /// code can still overwrite the whole store through this field; the guard's contracts
    /// then no longer describe the store it was made from.
    pub store: &'a mut SlotStore,
}

/// An open write slot: bytes are staged here and reach the store on `commit`.
pub struct WriteBlock {
    bytes: Vec<u8>,
    bytes_written: usize,
    write_all: bool,
    eod: bool,
}

/// An open read slot: a copy of the slot's filled bytes and how far they have been read.
pub struct ReadBlock {
    bytes: Vec<u8>,
    bytes_read: usize,
}

impl<'a> Writer<'a> {
    /// The store as it is now.
    pub open spec fn view(&self) -> StoreView {
        (*self.store)@
    }

    pub open spec fn wf(&self) -> bool {
        self.store.wf() && (*self.store)@.writer_held
    }

    /// Takes the writer role on `store`; fails, leaving it as it was, if the role is held.
    pub fn new(store: &'a mut SlotStore) -> (r: PsrdadaResult<Writer<'a>>)
        requires
            old(store).wf(),
        ensures
            old(store)@.writer_held ==> r == Err::<Writer<'a>, _>(PsrdadaError::DadaLockingError)
                && (*final(store))@ == old(store)@ && (*final(store)).wf(),
            !old(store)@.writer_held ==> r is Ok && r->Ok_0.wf()
                && r->Ok_0.view() == (StoreView { writer_held: true, ..old(store)@ })
                && *final(store) == *final(r->Ok_0.store),
    {
        match store.lock_write() {
            Ok(()) => Ok(Writer { store }),
            Err(e) => Err(e),
        }
    }

    /// Gives the writer role up; a block left open is abandoned.
    pub fn unlock(self)
        requires
            self.wf(),
        ensures
            (*final(self.store)).wf(),
            (*final(self.store))@ == (StoreView { writer_held: false, write_open: false, ..self.view() }),
    {
        let store = self.store;
        let _ = store.unlock_write();
    }

    /// Opens the next slot for writing. There is none while a block is open, nor while every
    /// slot holds data the reader has not cleared.
    pub fn next(&mut self) -> (r: Option<WriteBlock>)
        requires
            old(self).wf(),
        ensures
            final(self).wf(),
            *final(final(self).store) == *final(old(self).store),
            r is Some == (!old(self).view().write_open
                && old(self).view().queue.len() < old(self).view().slot_count),
            r is Some ==> r->0@ == fresh_write_block(old(self).view().slot_size)
                && r->0.wf()
                && final(self).view() == (StoreView { write_open: true, ..old(self).view() }),
            r is None ==> final(self).view() == old(self).view(),
    {
        if !self.store.acquire_next_write_slot() {
            return None;
        }
        let n = self.store.slot_size();
        let mut bytes: Vec<u8> = Vec::new();
        let mut i: usize = 0;
        while i < n
            invariant
                i <= n,
                bytes@ == Seq::new(i as nat, |j: int| 0u8),
            decreases n - i,
        {
            bytes.push(0u8);
            i = i + 1;
            assert(bytes@ =~= Seq::new(i as nat, |j: int| 0u8));
        }
        Some(WriteBlock { bytes, bytes_written: 0, write_all: true, eod: false })
    }

    /// Writes `data` as one block: it opens the next slot, writes all of `data` and commits.
    /// Data longer than a slot is refused before any slot is opened.
    pub fn push(&mut self, data: &[u8]) -> (r: PsrdadaResult<usize>)
        requires
            old(self).wf(),
        ensures
            final(self).wf(),
            *final(final(self).store) == *final(old(self).store),
            r is Ok == push_accepts(old(self).view(), data@),
            r is Ok ==> r == Ok::<usize, PsrdadaError>(data@.len() as usize)
                && final(self).view() == pushed(old(self).view(), data@),
            r is Err ==> r == Err::<usize, _>(PsrdadaError::DadaWriteError)
                && final(self).view() == old(self).view(),
    {
        if data.len() > self.store.slot_size() {
            return Err(PsrdadaError::DadaWriteError);
        }
        let mut block = match self.next() {
            Some(b) => b,
            None => return Err(PsrdadaError::DadaWriteError),
        };
        let n = block.write(data);
        proof {
            assert(block@.bytes.take(data@.len() as int) =~= data@);
        }
        block.commit(self);
        match n {
            Ok(n) => Ok(n),
            Err(e) => Err(e),
        }
    }
}

impl WriteBlock {
    pub closed spec fn view(&self) -> WriteBlockView {
        WriteBlockView {
            bytes: self.bytes@,
            written: self.bytes_written as nat,
            write_all: self.write_all,
            eod: self.eod,
        }
    }

    pub open spec fn wf(&self) -> bool {
        self@.written <= self@.bytes.len()
    }

    /// The whole slot.
    pub fn block(&self) -> (r: &[u8])
        ensures
            r@ == self@.bytes,
    {
        self.bytes.as_slice()
    }

    /// The whole slot, to place bytes in it directly; `increment_filled` then counts them.
    pub fn block_mut(&mut self) -> (r: &mut [u8])
        requires
            old(self).wf(),
        ensures
            r@ == old(self)@.bytes,
            final(r)@.len() == r@.len() ==> final(self).wf(),
            final(self)@ == (WriteBlockView { bytes: final(r)@, ..old(self)@ }),
    {
        self.bytes.as_mut_slice()
    }

    /// Copies `buf` after the bytes written so far. Writing past the end of the slot fails
    /// and changes nothing.
    pub fn write(&mut self, buf: &[u8]) -> (r: PsrdadaResult<usize>)
        requires
            old(self).wf(),
        ensures
            final(self).wf(),
            old(self)@.written + buf@.len() <= old(self)@.bytes.len() ==> r == Ok::<usize, PsrdadaError>(
                buf@.len() as usize,
            ) && final(self)@ == (WriteBlockView {
                bytes: old(self)@.bytes.take(old(self)@.written as int) + buf@
                    + old(self)@.bytes.skip((old(self)@.written + buf@.len()) as int),
                written: old(self)@.written + buf@.len(),
                write_all: false,
                ..old(self)@
            }),
            old(self)@.written + buf@.len() > old(self)@.bytes.len() ==> r == Err::<usize, _>(
                PsrdadaError::DadaWriteError,
            ) && final(self)@ == old(self)@,
    {
        if buf.len() > self.bytes.len() - self.bytes_written {
            return Err(PsrdadaError::DadaWriteError);
        }
        let start = self.bytes_written;
        let end = start + buf.len();
        let ghost before = self.bytes@;
        let mut i: usize = 0;
        while i < buf.len()
            invariant
                end == start + buf@.len(),
                end <= before.len(),
                self.bytes_written == old(self).bytes_written,
                self.write_all == old(self).write_all,
                self.eod == old(self).eod,
                i <= buf@.len(),
                self.bytes@.len() == before.len(),
                forall|j: int| 0 <= j < start ==> self.bytes@[j] == before[j],
                forall|j: int| start <= j < start + i ==> self.bytes@[j] == buf@[j - start],
                forall|j: int| start + buf@.len() <= j < before.len() ==> self.bytes@[j] == before[j],
            decreases buf@.len() - i,
        {
            self.bytes[start + i] = buf[i];
            i = i + 1;
        }
        self.bytes_written = start + buf.len();
        self.write_all = false;
        assert(self.bytes@ =~= before.take(start as int) + buf@ + before.skip(start + buf@.len()));
        Ok(buf.len())
    }

    /// Counts `n` more bytes as written, for bytes placed without `write`. Counting past the
    /// end of the slot fails and changes nothing.
    pub fn increment_filled(&mut self, n: usize) -> (r: PsrdadaResult<()>)
        requires
            old(self).wf(),
        ensures
            final(self).wf(),
            old(self)@.written + n <= old(self)@.bytes.len() ==> r is Ok && final(self)@ == (
            WriteBlockView { written: (old(self)@.written + n) as nat, write_all: false, ..old(self)@ }),
            old(self)@.written + n > old(self)@.bytes.len() ==> r == Err::<(), _>(
                PsrdadaError::DadaWriteError,
            ) && final(self)@ == old(self)@,
    {
        if n > self.bytes.len() - self.bytes_written {
            return Err(PsrdadaError::DadaWriteError);
        }
        self.bytes_written = self.bytes_written + n;
        self.write_all = false;
        Ok(())
    }

    /// Makes this block the last of the stream, even if it is full.
    pub fn mark_eod(&mut self)
        ensures
            final(self)@ == (WriteBlockView { eod: true, ..old(self)@ }),
    {
        self.eod = true;
    }

    /// Releases the block: end-of-data is raised first where it is due, then the slot is
    /// marked filled and joins the queue.
    pub fn commit(self, writer: &mut Writer)
        requires
            self.wf(),
            old(writer).wf(),
            old(writer).view().write_open,
            self@.bytes.len() == old(writer).view().slot_size,
        ensures
            final(writer).wf(),
            *final(final(writer).store) == *final(old(writer).store),
            final(writer).view() == committed(
                old(writer).view(),
                committed_block(self@, old(writer).view().slot_size),
            ),
    {
        // Callers outside verified code may hand in a block of another writer.
        if !writer.store.role_flags().1 || self.bytes.len() != writer.store.slot_size() {
            return;
        }
        let ghost v = self@;
        let filled = if self.write_all {
            self.bytes.len()
        } else {
            self.bytes_written
        };
        let eod = self.eod || filled < writer.store.slot_size();
        let mut bytes = self.bytes;
        bytes.truncate(filled);
        assert(bytes@ =~= v.bytes.take(filled as int));
        writer.store.mark_filled(bytes, eod);
    }
}

impl<'a> Reader<'a> {
    /// The store as it is now.
    pub open spec fn view(&self) -> StoreView {
        (*self.store)@
    }

    pub open spec fn wf(&self) -> bool {
        self.store.wf() && (*self.store)@.reader_held
    }

    /// Takes the reader role on `store`; fails, leaving it as it was, if the role is held.
    pub fn new(store: &'a mut SlotStore) -> (r: PsrdadaResult<Reader<'a>>)
        requires
            old(store).wf(),
        ensures
            old(store)@.reader_held ==> r == Err::<Reader<'a>, _>(PsrdadaError::DadaLockingError)
                && (*final(store))@ == old(store)@ && (*final(store)).wf(),
            !old(store)@.reader_held ==> r is Ok && r->Ok_0.wf()
                && r->Ok_0.view() == (StoreView { reader_held: true, ..old(store)@ })
                && *final(store) == *final(r->Ok_0.store),
    {
        match store.lock_read() {
            Ok(()) => Ok(Reader { store }),
            Err(e) => Err(e),
        }
    }

    /// Gives the reader role up; a block left open is abandoned and its slot stays filled.
    pub fn unlock(self)
        requires
            self.wf(),
        ensures
            (*final(self.store)).wf(),
            (*final(self.store))@ == (StoreView { reader_held: false, read_open: false, ..self.view() }),
    {
        let store = self.store;
        let _ = store.unlock_read();
    }

    /// Opens the oldest filled slot for reading. There is none once end-of-data was seen,
    /// while a block is open, or while no slot is filled.
    pub fn next(&mut self) -> (r: Option<ReadBlock>)
        requires
            old(self).wf(),
        ensures
            final(self).wf(),
            *final(final(self).store) == *final(old(self).store),
            r is Some == (!old(self).view().exhausted && !old(self).view().read_open
                && old(self).view().queue.len() > 0),
            r is Some ==> r->0@ == (ReadBlockView { bytes: old(self).view().queue[0].data, read: 0 })
                && final(self).view() == (StoreView { read_open: true, ..old(self).view() }),
            r is None ==> final(self).view() == old(self).view(),
    {
        match self.store.acquire_next_read_slot() {
            Some(bytes) => Some(ReadBlock { bytes, bytes_read: 0 }),
            None => None,
        }
    }

    /// Reads the oldest filled slot whole and clears it; `None` once end-of-data was seen
    /// or while no slot is filled.
    pub fn pop(&mut self) -> (r: Option<Vec<u8>>)
        requires
            old(self).wf(),
        ensures
            final(self).wf(),
            *final(final(self).store) == *final(old(self).store),
            r is Some == pop_yields(old(self).view()) is Some,
            r is Some ==> r->0@ == pop_yields(old(self).view())->0
                && final(self).view() == cleared(old(self).view()),
            r is None ==> final(self).view() == old(self).view(),
    {
        match self.next() {
            Some(mut block) => {
                let mut bytes: Vec<u8> = Vec::new();
                block.read_to_end(&mut bytes);
                block.done(self);
                Some(bytes)
            },
            None => None,
        }
    }
}

/// The contents of an open read block.
pub struct ReadBlockView {
    pub bytes: Seq<u8>,
    /// How many bytes `read` has handed out.
    pub read: nat,
}

impl ReadBlock {
    pub closed spec fn view(&self) -> ReadBlockView {
        ReadBlockView { bytes: self.bytes@, read: self.bytes_read as nat }
    }

    /// The slot's filled bytes.
    pub fn block(&self) -> (r: &[u8])
        ensures
            r@ == self@.bytes,
    {
        self.bytes.as_slice()
    }

    /// Fills `buf` with the next bytes of the slot. Asking for more than is left fails and
    /// changes nothing.
    pub fn read(&mut self, buf: &mut [u8]) -> (r: PsrdadaResult<usize>)
        requires
            old(self)@.read <= old(self)@.bytes.len(),
        ensures
            old(self)@.read + old(buf)@.len() <= old(self)@.bytes.len() ==> r == Ok::<
                usize,
                PsrdadaError,
            >(old(buf)@.len() as usize) && final(buf)@ == old(self)@.bytes.subrange(
                old(self)@.read as int,
                (old(self)@.read + old(buf)@.len()) as int,
            ) && final(self)@ == (ReadBlockView {
                read: old(self)@.read + old(buf)@.len(),
                ..old(self)@
            }),
            old(self)@.read + old(buf)@.len() > old(self)@.bytes.len() ==> r == Err::<usize, _>(
                PsrdadaError::DadaReadError,
            ) && final(buf)@ == old(buf)@ && final(self)@ == old(self)@,
    {
        if buf.len() > self.bytes.len() - self.bytes_read {
            return Err(PsrdadaError::DadaReadError);
        }
        let start = self.bytes_read;
        let end = start + buf.len();
        let mut i: usize = 0;
        while i < buf.len()
            invariant
                end == start + buf@.len(),
                end <= self.bytes@.len(),
                self.bytes == old(self).bytes,
                i <= buf@.len(),
                buf@.len() == old(buf)@.len(),
                forall|j: int| 0 <= j < i ==> buf@[j] == self.bytes@[start + j],
            decreases buf@.len() - i,
        {
            buf[i] = self.bytes[start + i];
            i = i + 1;
        }
        self.bytes_read = start + buf.len();
        assert(buf@ =~= self.bytes@.subrange(start as int, start + buf@.len()));
        Ok(buf.len())
    }

    /// Appends every byte not yet read to `out` and returns how many there were.
    pub fn read_to_end(&mut self, out: &mut Vec<u8>) -> (r: usize)
        requires
            old(self)@.read <= old(self)@.bytes.len(),
        ensures
            r == old(self)@.bytes.len() - old(self)@.read,
            final(out)@ == old(out)@ + old(self)@.bytes.skip(old(self)@.read as int),
            final(self)@ == (ReadBlockView { read: old(self)@.bytes.len(), ..old(self)@ }),
    {
        let start = self.bytes_read;
        let mut i: usize = start;
        while i < self.bytes.len()
            invariant
                start <= i <= self.bytes@.len(),
                self.bytes_read == start,
                out@ == old(out)@ + self.bytes@.subrange(start as int, i as int),
            decreases self.bytes@.len() - i,
        {
            out.push(self.bytes[i]);
            i = i + 1;
            assert(out@ =~= old(out)@ + self.bytes@.subrange(start as int, i as int));
        }
        self.bytes_read = self.bytes.len();
        assert(self.bytes@.subrange(start as int, i as int) =~= self.bytes@.skip(start as int));
        self.bytes.len() - start
    }

    /// Releases the block: the slot is marked cleared, then end-of-data is checked, so that
    /// the reader is exhausted if this slot carried it.
    pub fn done(self, reader: &mut Reader)
        requires
            old(reader).wf(),
            old(reader).view().read_open,
        ensures
            final(reader).wf(),
            *final(final(reader).store) == *final(old(reader).store),
            final(reader).view() == cleared(old(reader).view()),
    {
        // Callers outside verified code may release a block twice through another reader.
        if !reader.store.role_flags().3 {
            return;
        }
        reader.store.mark_cleared();
    }
}

} // verus!
