use pg_rust::clog::{ClogAccessor, NoOpClogAccessor, TxnState};
use pg_rust::txn::clog_file::{
    byte_in_page_of_xid, byte_offset_of_xid, get_nibble, page_no_of_xid, page_offset_in_segment,
    segment_id_of_page, segment_id_of_xid, set_nibble, CLOG_PAGES_PER_SEGMENT, CLOG_PAGE_BYTES,
    CLOG_SEGMENT_BYTES, XIDS_PER_SEGMENT,
};
use pg_rust::types::TxnId;

#[test]
fn noop_clog_reads_everything_as_committed() {
    let clog = NoOpClogAccessor;
    assert_eq!(clog.get_state(TxnId(1)), TxnState::Committed);
    assert_eq!(clog.get_state(TxnId(u64::MAX)), TxnState::Committed);
}

#[test]
fn noop_clog_set_state_is_ignored() {
    let mut clog = NoOpClogAccessor;
    clog.set_state(TxnId(7), TxnState::Aborted);
    assert_eq!(clog.get_state(TxnId(7)), TxnState::Committed);
}

#[test]
fn xid_address_math_boundaries() {
    assert_eq!(page_no_of_xid(TxnId(0)), 0);
    assert_eq!(page_no_of_xid(TxnId(16383)), 0);
    assert_eq!(page_no_of_xid(TxnId(16384)), 1);
    assert_eq!(segment_id_of_xid(TxnId(0)), 0);
    assert_eq!(segment_id_of_xid(TxnId(XIDS_PER_SEGMENT - 1)), 0);
    assert_eq!(segment_id_of_xid(TxnId(XIDS_PER_SEGMENT)), 1);
    assert_eq!(byte_offset_of_xid(TxnId(0)), 0);
    assert_eq!(byte_offset_of_xid(TxnId(1)), 0);
    assert_eq!(byte_offset_of_xid(TxnId(2)), 1);
    assert_eq!(
        byte_offset_of_xid(TxnId(XIDS_PER_SEGMENT - 1)),
        CLOG_SEGMENT_BYTES - 1
    );
    assert_eq!(byte_offset_of_xid(TxnId(XIDS_PER_SEGMENT)), 0);
    assert_eq!(byte_in_page_of_xid(TxnId(16383)), 8191);
    assert_eq!(byte_in_page_of_xid(TxnId(16384)), 0);
    assert_eq!(segment_id_of_page(CLOG_PAGES_PER_SEGMENT - 1), 0);
    assert_eq!(segment_id_of_page(CLOG_PAGES_PER_SEGMENT), 1);
    assert_eq!(page_offset_in_segment(CLOG_PAGES_PER_SEGMENT), 0);
    assert_eq!(
        page_offset_in_segment(CLOG_PAGES_PER_SEGMENT - 1),
        CLOG_SEGMENT_BYTES - CLOG_PAGE_BYTES
    );
}

#[test]
fn nibble_bit_order_high_even_low_odd() {
    let byte = set_nibble(0x00, TxnId(2), TxnState::Committed as u8);
    assert_eq!(byte, 0x10);
    let byte = set_nibble(byte, TxnId(3), TxnState::Aborted as u8);
    assert_eq!(byte, 0x12);
    assert_eq!(get_nibble(byte, TxnId(2)), 1);
    assert_eq!(get_nibble(byte, TxnId(3)), 2);
    let byte = set_nibble(byte, TxnId(2), TxnState::Aborted as u8);
    assert_eq!(byte, 0x22);
    assert_eq!(get_nibble(byte, TxnId(3)), 2);
}
