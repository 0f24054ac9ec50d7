use vstd::prelude::*;

verus! {

/// Every error that the buffers, their locks, their blocks and the header codec can report.
#[derive(Debug, PartialEq, Eq, Clone, Copy, Structural)]
pub enum PsrdadaError {
    DadaInitError,
    DadaConnectError,
    DadaDisconnectError,
    DadaDestroyError,
    DadaLockingError,
    DadaReadError,
    DadaResetError,
    DadaEodError,
    DadaSodError,
    DadaWriteError,
    DadaShmemLockError,
    UTF8Error,
    HeaderOverflow,
    HeaderParseError,
    HeaderEodError,
    GpuError,
}

pub type PsrdadaResult<T> = Result<T, PsrdadaError>;

} // verus!
