use thermal_printer::printer::{Stalled, WriteProgress, PRODUCT_ID, VENDOR_ID};

#[test]
fn ids() {
    assert_eq!((VENDOR_ID, PRODUCT_ID), (0x0FE6, 0x811E));
}

#[test]
fn writes_in_chunks_until_done() {
    let mut p = WriteProgress::new(10);
    assert_eq!(p.next_chunk(), Some(0));
    assert_eq!(p.record(4), Ok(()));
    assert_eq!(p.next_chunk(), Some(4));
    assert_eq!(p.record(6), Ok(()));
    assert_eq!(p.next_chunk(), None);
}

#[test]
fn empty_payload_needs_no_transfer() {
    assert_eq!(WriteProgress::new(0).next_chunk(), None);
}

#[test]
fn zero_byte_transfer_stalls() {
    let mut p = WriteProgress::new(20);
    assert_eq!(p.record(12), Ok(()));
    let e = p.record(0).unwrap_err();
    assert_eq!(e, Stalled { offset: 12 });
    assert_eq!(e.message(), "write_bulk stalled at offset 12");
    assert_eq!(p.next_chunk(), Some(12));
}
