//! Operating modes of the messages module of a chain.

use vstd::prelude::*;

verus! {

/// Basic operating modes of a bridge module.
#[derive(Clone, Copy, Debug, PartialEq, Eq, Structural)]
pub enum BasicOperatingMode {
    /// Normal mode, when all operations are allowed.
    Normal,
    /// The module is halted. All operations except the change of the mode are refused.
    Halted,
}

/// Operating mode of a bridge module.
pub trait OperatingMode {
    /// Whether the module refuses everything in this mode.
    spec fn halted(&self) -> bool;

    /// Returns true if the module is halted.
    fn is_halted(&self) -> (halted: bool)
        ensures
            halted == self.halted(),
    ;
}

impl OperatingMode for BasicOperatingMode {
    open spec fn halted(&self) -> bool {
        *self == BasicOperatingMode::Halted
    }

    fn is_halted(&self) -> (halted: bool) {
        match self {
            BasicOperatingMode::Halted => true,
            BasicOperatingMode::Normal => false,
        }
    }
}

impl Default for BasicOperatingMode {
    fn default() -> (mode: Self)
        ensures
            mode == BasicOperatingMode::Normal,
    {
        BasicOperatingMode::Normal
    }
}

/// Messages pallet operating mode.
#[derive(Clone, Copy, Debug, PartialEq, Eq, Structural)]
pub enum MessagesOperatingMode {
    /// Basic operating mode (Normal/Halted)
    Basic(BasicOperatingMode),
    /// The pallet is not accepting outbound messages. Inbound messages and receiving
    /// proofs are still accepted.
    ///
    /// This mode may be used e.g. when the bridged chain expects an upgrade. To avoid
    /// dispatch failures, the owner may stop accepting new messages, while queued
    /// messages are still delivered to the bridged chain. Once the upgrade is
    /// completed, the mode may be switched back to `Normal`.
    RejectingOutboundMessages,
}

impl Default for MessagesOperatingMode {
    fn default() -> (mode: Self)
        ensures
            mode == MessagesOperatingMode::Basic(BasicOperatingMode::Normal),
    {
        MessagesOperatingMode::Basic(BasicOperatingMode::Normal)
    }
}

impl OperatingMode for MessagesOperatingMode {
    open spec fn halted(&self) -> bool {
        *self == MessagesOperatingMode::Basic(BasicOperatingMode::Halted)
    }

    fn is_halted(&self) -> (halted: bool) {
        match self {
            MessagesOperatingMode::Basic(operating_mode) => operating_mode.is_halted(),
            _ => false,
        }
    }
}

} // verus!
