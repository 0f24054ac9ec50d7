//! The paired client: a data ring and its header ring, created together, and the two
//! clients that a split hands out.

use vstd::prelude::*;
use crate::errors::{PsrdadaError, PsrdadaResult};
use crate::io::{pop_yields, push_accepts, pushed, Reader, Writer};
use crate::store::{cleared, SlotStore, StoreView};

verus! {

/// The role a buffer is in, as a process that holds it sees it.
#[derive(Debug, PartialEq, Eq, Copy, Clone, Structural)]
pub enum State {
    /// Not attached.
    Disconnected,
    /// Attached, no role taken.
    Connected,
    /// The writer role is held.
    Writer,
    /// The writer role is held and a block is open for writing.
    Writing,
    /// The next operation changes the writing state.
    WriteChange,
    /// The reader role is held.
    Reader,
    /// The reader role is held and a block is open for reading.
    Reading,
    /// The reader has seen end-of-data.
    ReadStop,
    /// Viewing without a role.
    Viewing,
    /// End-of-data seen while viewing.
    ViewStop,
}

/// The state that a store's role flags show.
pub open spec fn state_of(v: StoreView) -> State {
    if v.writer_held {
        if v.write_open { State::Writing } else { State::Writer }
    } else if v.reader_held {
        if v.read_open {
            State::Reading
        } else if v.exhausted {
            State::ReadStop
        } else {
            State::Reader
        }
    } else {
        State::Connected
    }
}

fn store_state(s: &SlotStore) -> (r: State)
    requires
        s.wf(),
    ensures
        r == state_of(s@),
{
    let v = s.role_flags();
    if v.0 {
        if v.1 { State::Writing } else { State::Writer }
    } else if v.2 {
        if v.3 {
            State::Reading
        } else if s.is_eod() {
            State::ReadStop
        } else {
            State::Reader
        }
    } else {
        State::Connected
    }
}

/// The abstract state of a paired client.
pub struct DadaClientView {
    pub key: i32,
    /// This client created the rings and owns their teardown.
    pub allocated: bool,
    pub lock: bool,
    pub page: bool,
    pub header: StoreView,
    pub data: StoreView,
}

/// A data ring (keyed `key`) and its header ring (keyed `key + 1`).
pub struct DadaClient {
    key: i32,
    allocated: bool,
    lock: bool,
    page: bool,
    header: HeaderClient,
    data: DataClient,
}

/// The client of the header ring.
pub struct HeaderClient {
    store: SlotStore,
}

/// The client of the data ring.
pub struct DataClient {
    store: SlotStore,
}

impl View for DadaClient {
    type V = DadaClientView;

    closed spec fn view(&self) -> DadaClientView {
        DadaClientView {
            key: self.key,
            allocated: self.allocated,
            lock: self.lock,
            page: self.page,
            header: self.header@,
            data: self.data@,
        }
    }
}

impl View for HeaderClient {
    type V = StoreView;

    closed spec fn view(&self) -> StoreView {
        self.store@
    }
}

impl View for DataClient {
    type V = StoreView;

    closed spec fn view(&self) -> StoreView {
        self.store@
    }
}

impl DadaClient {
    pub open spec fn wf(&self) -> bool {
        self.inv() && crate::store::view_ok(self@.header) && crate::store::view_ok(self@.data)
    }

    pub closed spec fn inv(&self) -> bool {
        self.header.wf() && self.data.wf()
    }

    /// Creates both rings in this process; the client owns them. `lock` and `page` are the
    /// memory-residency requests that the rings were created with.
    pub fn create(
        key: i32,
        num_bufs: usize,
        buf_size: usize,
        num_headers: usize,
        header_size: usize,
        lock: bool,
        page: bool,
    ) -> (r: DadaClient)
        requires
            num_bufs > 0,
            num_headers > 0,
        ensures
            r.wf(),
            r@ == (DadaClientView {
                key,
                allocated: true,
                lock,
                page,
                header: crate::store::fresh_view(num_headers as nat, header_size as nat),
                data: crate::store::fresh_view(num_bufs as nat, buf_size as nat),
            }),
    {
        DadaClient {
            key,
            allocated: true,
            lock,
            page,
            header: HeaderClient { store: SlotStore::new(num_headers, header_size) },
            data: DataClient { store: SlotStore::new(num_bufs, buf_size) },
        }
    }

    /// Splits the client into its header and data clients.
    pub fn split(&mut self) -> (r: (&mut HeaderClient, &mut DataClient))
        requires
            old(self).wf(),
        ensures
            r.0.wf(),
            r.1.wf(),
            (*r.0)@ == old(self)@.header,
            (*r.1)@ == old(self)@.data,
            (*final(self))@ == (DadaClientView {
                header: (*final(r.0))@,
                data: (*final(r.1))@,
                ..old(self)@
            }),
            final(self).wf() == ((*final(r.0)).wf() && (*final(r.1)).wf()),
    {
        (&mut self.header, &mut self.data)
    }

    pub fn key(&self) -> (r: i32)
        ensures
            r == self@.key,
    {
        self.key
    }

    /// Whether this client created the rings.
    pub fn allocated(&self) -> (r: bool)
        ensures
            r == self@.allocated,
    {
        self.allocated
    }

    /// Size in bytes of each data slot.
    pub fn data_buf_size(&self) -> (r: usize)
        requires
            self.wf(),
        ensures
            r == self@.data.slot_size,
    {
        self.data.buf_size()
    }

    /// Size in bytes of each header slot.
    pub fn header_buf_size(&self) -> (r: usize)
        requires
            self.wf(),
        ensures
            r == self@.header.slot_size,
    {
        self.header.buf_size()
    }

    /// Number of data slots.
    pub fn data_buf_count(&self) -> (r: usize)
        requires
            self.wf(),
        ensures
            r == self@.data.slot_count,
    {
        self.data.buf_count()
    }

    /// Number of header slots.
    pub fn header_buf_count(&self) -> (r: usize)
        requires
            self.wf(),
        ensures
            r == self@.header.slot_count,
    {
        self.header.buf_count()
    }

    /// Starts a new stream on both rings: their filled slots are dropped and end-of-data is
    /// cleared. It fails, changing neither ring, while a writer holds either of them.
    pub fn reset(&mut self) -> (r: PsrdadaResult<()>)
        requires
            old(self).wf(),
        ensures
            final(self).wf(),
            r is Err == (old(self)@.data.writer_held || old(self)@.header.writer_held),
            r is Err ==> r == Err::<(), _>(PsrdadaError::DadaLockingError)
                && final(self)@ == old(self)@,
            r is Ok ==> final(self)@ == (DadaClientView {
                data: StoreView {
                    queue: Seq::empty(),
                    exhausted: false,
                    read_open: false,
                    ..old(self)@.data
                },
                header: StoreView {
                    queue: Seq::empty(),
                    exhausted: false,
                    read_open: false,
                    ..old(self)@.header
                },
                ..old(self)@
            }),
    {
        if self.data.store.role_flags().0 || self.header.store.role_flags().0 {
            return Err(PsrdadaError::DadaLockingError);
        }
        let _ = self.data.store.reset();
        let _ = self.header.store.reset();
        Ok(())
    }

    /// Writes `data` as one block of the data ring, taking and giving up the writer role
    /// around it.
    pub fn push_data(&mut self, data: &[u8]) -> (r: PsrdadaResult<usize>)
        requires
            old(self).wf(),
        ensures
            final(self).wf(),
            old(self)@.data.writer_held ==> r == Err::<usize, _>(PsrdadaError::DadaLockingError)
                && final(self)@ == old(self)@,
            !old(self)@.data.writer_held ==> (r is Ok == push_accepts(old(self)@.data, data@)),
            !old(self)@.data.writer_held && r is Ok ==> r == Ok::<usize, PsrdadaError>(
                data@.len() as usize,
            ) && final(self)@ == (DadaClientView {
                data: pushed(old(self)@.data, data@),
                ..old(self)@
            }),
            !old(self)@.data.writer_held && r is Err ==> r == Err::<usize, _>(
                PsrdadaError::DadaWriteError,
            ) && final(self)@ == old(self)@,
    {
        let (_, dc) = self.split();
        let mut writer = match dc.writer() {
            Ok(w) => w,
            Err(e) => return Err(e),
        };
        let r = writer.push(data);
        writer.unlock();
        r
    }

    /// Reads the oldest block of the data ring whole and clears it, taking and giving up the
    /// reader role around it. `None` once end-of-data was seen, while no block is filled, or
    /// while another reader holds the role.
    pub fn pop_data(&mut self) -> (r: Option<Vec<u8>>)
        requires
            old(self).wf(),
        ensures
            final(self).wf(),
            r is Some == (!old(self)@.data.reader_held && pop_yields(old(self)@.data) is Some),
            r is Some ==> r->0@ == pop_yields(old(self)@.data)->0 && final(self)@ == (
            DadaClientView { data: cleared(old(self)@.data), ..old(self)@ }),
            r is None ==> final(self)@ == old(self)@,
    {
        let (_, dc) = self.split();
        let mut reader = match dc.reader() {
            Ok(rd) => rd,
            Err(_) => return None,
        };
        let r = reader.pop();
        reader.unlock();
        r
    }
}

impl HeaderClient {
    pub open spec fn wf(&self) -> bool {
        self.inv() && crate::store::view_ok(self@)
    }

    pub closed spec fn inv(&self) -> bool {
        self.store.wf()
    }

    /// Size in bytes of each slot.
    pub fn buf_size(&self) -> (r: usize)
        ensures
            r == self@.slot_size,
    {
        self.store.slot_size()
    }

    /// Number of slots.
    pub fn buf_count(&self) -> (r: usize)
        ensures
            r == self@.slot_count,
    {
        self.store.slot_count()
    }

    /// The role the ring is in.
    pub fn state(&self) -> (r: State)
        requires
            self.wf(),
        ensures
            r == state_of(self@),
    {
        store_state(&self.store)
    }

    /// Takes the writer role; fails, changing nothing, if it is held.
    pub fn writer(&mut self) -> (r: PsrdadaResult<Writer<'_>>)
        requires
            old(self).wf(),
        ensures
            old(self)@.writer_held ==> r == Err::<Writer<'_>, _>(PsrdadaError::DadaLockingError)
                && (*final(self))@ == old(self)@ && final(self).wf(),
            !old(self)@.writer_held ==> r is Ok && r->Ok_0.wf()
                && r->Ok_0.view() == (StoreView { writer_held: true, ..old(self)@ })
                && (*final(self))@ == (*final(r->Ok_0.store))@
                && final(self).wf() == (*final(r->Ok_0.store)).wf(),
    {
        Writer::new(&mut self.store)
    }

    /// Takes the reader role; fails, changing nothing, if it is held.
    pub fn reader(&mut self) -> (r: PsrdadaResult<Reader<'_>>)
        requires
            old(self).wf(),
        ensures
            old(self)@.reader_held ==> r == Err::<Reader<'_>, _>(PsrdadaError::DadaLockingError)
                && (*final(self))@ == old(self)@ && final(self).wf(),
            !old(self)@.reader_held ==> r is Ok && r->Ok_0.wf()
                && r->Ok_0.view() == (StoreView { reader_held: true, ..old(self)@ })
                && (*final(self))@ == (*final(r->Ok_0.store))@
                && final(self).wf() == (*final(r->Ok_0.store)).wf(),
    {
        Reader::new(&mut self.store)
    }
}

impl DataClient {
    pub open spec fn wf(&self) -> bool {
        self.inv() && crate::store::view_ok(self@)
    }

    pub closed spec fn inv(&self) -> bool {
        self.store.wf()
    }

    /// Size in bytes of each slot.
    pub fn buf_size(&self) -> (r: usize)
        ensures
            r == self@.slot_size,
    {
        self.store.slot_size()
    }

    /// Number of slots.
    pub fn buf_count(&self) -> (r: usize)
        ensures
            r == self@.slot_count,
    {
        self.store.slot_count()
    }

    /// The role the ring is in.
    pub fn state(&self) -> (r: State)
        requires
            self.wf(),
        ensures
            r == state_of(self@),
    {
        store_state(&self.store)
    }

    /// Takes the writer role; fails, changing nothing, if it is held.
    pub fn writer(&mut self) -> (r: PsrdadaResult<Writer<'_>>)
        requires
            old(self).wf(),
        ensures
            old(self)@.writer_held ==> r == Err::<Writer<'_>, _>(PsrdadaError::DadaLockingError)
                && (*final(self))@ == old(self)@ && final(self).wf(),
            !old(self)@.writer_held ==> r is Ok && r->Ok_0.wf()
                && r->Ok_0.view() == (StoreView { writer_held: true, ..old(self)@ })
                && (*final(self))@ == (*final(r->Ok_0.store))@
                && final(self).wf() == (*final(r->Ok_0.store)).wf(),
    {
        Writer::new(&mut self.store)
    }

    /// Takes the reader role; fails, changing nothing, if it is held.
    pub fn reader(&mut self) -> (r: PsrdadaResult<Reader<'_>>)
        requires
            old(self).wf(),
        ensures
            old(self)@.reader_held ==> r == Err::<Reader<'_>, _>(PsrdadaError::DadaLockingError)
                && (*final(self))@ == old(self)@ && final(self).wf(),
            !old(self)@.reader_held ==> r is Ok && r->Ok_0.wf()
                && r->Ok_0.view() == (StoreView { reader_held: true, ..old(self)@ })
                && (*final(self))@ == (*final(r->Ok_0.store))@
                && final(self).wf() == (*final(r->Ok_0.store)).wf(),
    {
        Reader::new(&mut self.store)
    }
}

} // verus!
