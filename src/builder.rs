//! Builder for a paired client: every setting is optional and has a default.

use vstd::prelude::*;
use crate::client::{DadaClient, DadaClientView};
use crate::errors::{PsrdadaError, PsrdadaResult};

verus! {

/// Relies on page_size::get, the memory page size of the machine this runs on. Nothing is
/// promised of its value.
#[verifier::external_body]
fn system_page_size() -> (r: usize) {
    page_size::get()
}

/// The settings a builder holds.
pub struct BuilderView {
    pub key: i32,
    pub num_bufs: Option<u64>,
    pub buf_size: Option<u64>,
    pub num_headers: Option<u64>,
    pub header_size: Option<u64>,
    pub lock: Option<bool>,
    pub page: Option<bool>,
}

/// Settings for creating a data ring and its header ring.
#[derive(Debug)]
pub struct DadaClientBuilder {
    key: i32,
    num_bufs: Option<u64>,
    buf_size: Option<u64>,
    num_headers: Option<u64>,
    header_size: Option<u64>,
    lock: Option<bool>,
    page: Option<bool>,
}

/// Data slots when none are asked for.
pub const DEFAULT_NUM_BUFS: u64 = 4;

/// Header slots when none are asked for.
pub const DEFAULT_NUM_HEADERS: u64 = 8;

/// A data slot holds this many memory pages when no size is asked for.
pub const DEFAULT_PAGES_PER_BUF: u64 = 128;

/// The value that `opt` sets, or `dflt`.
pub open spec fn or_default<T>(opt: Option<T>, dflt: T) -> T {
    match opt {
        Some(v) => v,
        None => dflt,
    }
}

/// The four sizes a build settles on, with `page` the memory page size: slot counts and
/// slot sizes of the data ring and of the header ring. `None` where the default data slot
/// size does not fit in 64 bits.
pub open spec fn settled_sizes(b: BuilderView, page: u64) -> Option<(u64, u64, u64, u64)> {
    if b.buf_size is None && page * DEFAULT_PAGES_PER_BUF > u64::MAX {
        None
    } else {
        Some(
            (
                or_default(b.num_bufs, DEFAULT_NUM_BUFS),
                or_default(b.buf_size, (page * DEFAULT_PAGES_PER_BUF) as u64),
                or_default(b.num_headers, DEFAULT_NUM_HEADERS),
                or_default(b.header_size, page),
            ),
        )
    }
}

/// Whether a build with these settings succeeds: the key leaves room for the header ring's
/// key, the sizes settle, both rings have at least one slot, and every count and size fits
/// in this machine's `usize`.
pub open spec fn build_ok(b: BuilderView, page: u64) -> bool {
    &&& b.key < i32::MAX
    &&& settled_sizes(b, page) is Some
    &&& {
        let s = settled_sizes(b, page)->0;
        &&& s.0 > 0 && s.2 > 0
        &&& s.0 <= usize::MAX && s.1 <= usize::MAX && s.2 <= usize::MAX && s.3 <= usize::MAX
    }
}

/// The client that a successful build makes.
pub open spec fn built_view(b: BuilderView, page: u64) -> DadaClientView {
    let s = settled_sizes(b, page)->0;
    DadaClientView {
        key: b.key,
        allocated: true,
        lock: or_default(b.lock, false),
        page: or_default(b.page, false),
        header: crate::store::fresh_view(s.2 as nat, s.3 as nat),
        data: crate::store::fresh_view(s.0 as nat, s.1 as nat),
    }
}

impl View for DadaClientBuilder {
    type V = BuilderView;

    closed spec fn view(&self) -> BuilderView {
        BuilderView {
            key: self.key,
            num_bufs: self.num_bufs,
            buf_size: self.buf_size,
            num_headers: self.num_headers,
            header_size: self.header_size,
            lock: self.lock,
            page: self.page,
        }
    }
}

impl DadaClientBuilder {
    /// A builder for the rings keyed `key` (data) and `key + 1` (header), with every
    /// setting left to its default.
    pub fn new(key: i32) -> (r: Self)
        ensures
            r@ == (BuilderView {
                key,
                num_bufs: None,
                buf_size: None,
                num_headers: None,
                header_size: None,
                lock: None,
                page: None,
            }),
    {
        Self {
            key,
            num_bufs: None,
            buf_size: None,
            num_headers: None,
            header_size: None,
            lock: None,
            page: None,
        }
    }

    /// Number of data slots.
    pub fn num_bufs(self, value: u64) -> (r: Self)
        ensures
            r@ == (BuilderView { num_bufs: Some(value), ..self@ }),
    {
        Self { num_bufs: Some(value), ..self }
    }

    /// Size in bytes of each data slot.
    pub fn buf_size(self, value: u64) -> (r: Self)
        ensures
            r@ == (BuilderView { buf_size: Some(value), ..self@ }),
    {
        Self { buf_size: Some(value), ..self }
    }

    /// Number of header slots.
    pub fn num_headers(self, value: u64) -> (r: Self)
        ensures
            r@ == (BuilderView { num_headers: Some(value), ..self@ }),
    {
        Self { num_headers: Some(value), ..self }
    }

    /// Size in bytes of each header slot.
    pub fn header_size(self, value: u64) -> (r: Self)
        ensures
            r@ == (BuilderView { header_size: Some(value), ..self@ }),
    {
        Self { header_size: Some(value), ..self }
    }

    /// Asks that the rings stay resident in memory.
    pub fn lock(self, value: bool) -> (r: Self)
        ensures
            r@ == (BuilderView { lock: Some(value), ..self@ }),
    {
        Self { lock: Some(value), ..self }
    }

    /// Asks that the rings be paged into memory when created.
    pub fn page(self, value: bool) -> (r: Self)
        ensures
            r@ == (BuilderView { page: Some(value), ..self@ }),
    {
        Self { page: Some(value), ..self }
    }

    /// Creates the rings, with `page` as the memory page size that the default sizes are
    /// made of: a data slot of 128 pages, a header slot of one page. Fails with
    /// `DadaInitError` exactly where `build_ok` does not hold.
    pub fn build_with_page_size(self, page: u64) -> (r: PsrdadaResult<DadaClient>)
        ensures
            build_ok(self@, page) ==> r is Ok && r->Ok_0.wf() && r->Ok_0@ == built_view(
                self@,
                page,
            ),
            !build_ok(self@, page) ==> r == Err::<DadaClient, _>(PsrdadaError::DadaInitError),
    {
        if self.key == i32::MAX {
            return Err(PsrdadaError::DadaInitError);
        }
        let num_bufs = match self.num_bufs {
            Some(v) => v,
            None => DEFAULT_NUM_BUFS,
        };
        let buf_size = match self.buf_size {
            Some(v) => v,
            None => match page.checked_mul(DEFAULT_PAGES_PER_BUF) {
                Some(v) => v,
                None => return Err(PsrdadaError::DadaInitError),
            },
        };
        let num_headers = match self.num_headers {
            Some(v) => v,
            None => DEFAULT_NUM_HEADERS,
        };
        let header_size = match self.header_size {
            Some(v) => v,
            None => page,
        };
        let lock = match self.lock {
            Some(v) => v,
            None => false,
        };
        let paged = match self.page {
            Some(v) => v,
            None => false,
        };
        if num_bufs == 0 || num_headers == 0 {
            return Err(PsrdadaError::DadaInitError);
        }
        if num_bufs > usize::MAX as u64 || buf_size > usize::MAX as u64 || num_headers
            > usize::MAX as u64 || header_size > usize::MAX as u64 {
            return Err(PsrdadaError::DadaInitError);
        }
        Ok(
            DadaClient::create(
                self.key,
                num_bufs as usize,
                buf_size as usize,
                num_headers as usize,
                header_size as usize,
                lock,
                paged,
            ),
        )
    }

    /// Creates the rings, the default sizes made of this machine's memory page size; see
    /// `build_with_page_size`. Once the data slot size is set, the page size cannot make the
    /// build fail; once both slot sizes are set, the result does not depend on it at all.
    pub fn build(self) -> (r: PsrdadaResult<DadaClient>)
        ensures
            r is Ok ==> r->Ok_0.wf() && exists|page: u64|
                build_ok(self@, page) && r->Ok_0@ == #[trigger] built_view(self@, page),
            r is Err ==> r == Err::<DadaClient, _>(PsrdadaError::DadaInitError),
            self@.buf_size is Some && build_ok(self@, 0) ==> r is Ok,
            self@.buf_size is Some && self@.header_size is Some ==> (r is Ok <==> build_ok(
                self@,
                0,
            )) && (r is Ok ==> r->Ok_0@ == built_view(self@, 0)),
    {
        let page = system_page_size();
        if page as u128 > u64::MAX as u128 {
            return Err(PsrdadaError::DadaInitError);
        }
        self.build_with_page_size(page as u64)
    }
}

} // verus!
