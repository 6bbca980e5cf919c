//! The USB link to the Rongta RP326: its identifiers, and how a payload is
//! written in bulk transfers.
//!
//! The printer enumerates as USB Printer class (bInterfaceClass=7) with
//! VID = 0x0FE6, PID = 0x811E and bulk OUT endpoint 0x01.
use vstd::prelude::*;
use crate::text::decimal_string;

verus! {

pub const VENDOR_ID: u16 = 0x0FE6;

pub const PRODUCT_ID: u16 = 0x811E;

pub const BULK_OUT_ENDPOINT: u8 = 0x01;

pub const INTERFACE: u8 = 0;

/// Seconds a bulk transfer may take.
pub const TIMEOUT_SECS: u64 = 5;

/// A bulk transfer accepted no byte.
#[derive(PartialEq, Eq, Debug)]
pub struct Stalled {
    pub offset: usize,
}

impl Stalled {
    /// `write_bulk stalled at offset {offset}`.
    pub fn message(&self) -> (m: String)
        ensures
            m@ == "write_bulk stalled at offset "@ + crate::text::decimal(self.offset as nat),
    {
        let mut m = String::from_str("write_bulk stalled at offset ");
        let d = decimal_string(self.offset);
        m.append(d.as_str());
        m
    }
}

/// Progress of writing `len` bytes in bulk transfers: the bytes before
/// `offset` have been accepted by the printer.
pub struct WriteProgress {
    offset: usize,
    len: usize,
}

impl WriteProgress {
    pub closed spec fn offset_spec(&self) -> usize {
        self.offset
    }

    pub closed spec fn len_spec(&self) -> usize {
        self.len
    }

    /// Nothing written yet of `len` bytes.
    pub fn new(len: usize) -> (p: Self)
        ensures
            p.offset_spec() == 0,
            p.len_spec() == len,
    {
        WriteProgress { offset: 0, len }
    }

    /// Where the next transfer starts (`data[offset..]` is sent), or `None`
    /// when every byte has been written.
    pub fn next_chunk(&self) -> (r: Option<usize>)
        ensures
            self.offset_spec() < self.len_spec() ==> r == Some(self.offset_spec()),
            self.offset_spec() >= self.len_spec() ==> r is None,
    {
        if self.offset < self.len {
            Some(self.offset)
        } else {
            None
        }
    }

    /// Records a transfer that accepted `sent` bytes; a transfer that
    /// accepted none stalls the write.
    pub fn record(&mut self, sent: usize) -> (r: Result<(), Stalled>)
        requires
            old(self).offset_spec() + sent <= usize::MAX,
        ensures
            final(self).len_spec() == old(self).len_spec(),
            sent == 0 ==> r == Err::<(), Stalled>(Stalled { offset: old(self).offset_spec() })
                && final(self).offset_spec() == old(self).offset_spec(),
            sent > 0 ==> r is Ok && final(self).offset_spec() == old(self).offset_spec() + sent,
    {
        if sent == 0 {
            Err(Stalled { offset: self.offset })
        } else {
            self.offset = self.offset + sent;
            Ok(())
        }
    }
}

} // verus!
