//! What can go wrong with a logical send.

use vstd::prelude::*;

verus! {

/// A failure that the transfer engine reports.
#[derive(Clone, Copy, Debug, PartialEq, Eq, Structural)]
pub enum TransferFault {
    /// The bus refused or broke off the transfer.
    BusFault,
    /// The engine ran out of DMA descriptors.
    DescriptorExhaustion,
}

/// The error of a logical send.
#[derive(Clone, Copy, Debug, PartialEq, Eq, Structural)]
pub enum Error {
    /// The chip-select line could not be asserted.
    ChipSelectError,
    /// The data/command line could not be set.
    DataCommandLineError,
    /// The payload has a format that this adapter does not carry.
    UnsupportedPayloadFormat,
    /// The transfer engine failed; its fault is handed on as it came.
    Transfer(TransferFault),
}

} // verus!
