use vstd::prelude::*;

verus! {

/// Declares `nusb::Error`, the error of a USB operation other than a
/// transfer; it is only carried inside [`AmlError::Usb`].
#[verifier::external_type_specification]
#[verifier::external_body]
pub struct ExUsbError(nusb::Error);

/// Declares `nusb::transfer::TransferError`, the error of a USB transfer;
/// it is only carried inside [`AmlError::Transfer`].
#[verifier::external_type_specification]
#[verifier::external_body]
pub struct ExTransferError(nusb::transfer::TransferError);

/// Everything that can go wrong while talking to an Amlogic SoC.
#[derive(Debug)]
pub enum AmlError {
    /// No device with this vendor and product id showed up in time.
    DeviceNotFound { vendor: u16, product: u16 },
    /// A USB operation other than a transfer failed.
    Usb(nusb::Error),
    /// A USB transfer failed.
    Transfer(nusb::transfer::TransferError),
    /// A simple memory access was asked for more than 64 bytes.
    DataTooLarge(usize),
    /// Large memory data whose length is not a multiple of the block length.
    BlockAlignment { data_length: usize, block_length: usize },
    /// A TPL command that is 128 bytes or longer once terminated.
    TplCommandTooLong(usize),
    /// A bulk command that is 128 bytes or longer once terminated.
    BulkCommandTooLong(usize),
    /// The SoC asked for AMLC data with a malformed request.
    InvalidAmlcRequest(Vec<u8>),
    /// The SoC did not acknowledge an AMLC data write with `OKAY`.
    InvalidAmlcAck(Vec<u8>),
    /// A bulk transfer did not complete in time.
    Timeout(&'static str),
}

} // verus!
