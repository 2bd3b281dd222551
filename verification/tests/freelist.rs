use pg_rust::error::StorageError;
use pg_rust::freelist_meta::FreelistMeta;
use pg_rust::types::{Lsn, PageId};

#[test]
fn roundtrip_empty_freelist() {
    let meta = FreelistMeta {
        checkpoint_lsn: Lsn(128),
        page_ids: vec![],
    };
    let encoded = meta.encode();
    let decoded = FreelistMeta::decode(&encoded).unwrap();
    assert_eq!(meta, decoded);
}

#[test]
fn roundtrip_non_empty_freelist() {
    let meta = FreelistMeta {
        checkpoint_lsn: Lsn(256),
        page_ids: vec![PageId(1), PageId(7), PageId(42)],
    };
    let encoded = meta.encode();
    let decoded = FreelistMeta::decode(&encoded).unwrap();
    assert_eq!(meta, decoded);
}

#[test]
fn decode_rejects_truncated_data() {
    let bytes = vec![0u8; 8];
    assert!(FreelistMeta::decode(&bytes).is_err());
}

#[test]
fn test_freelist_crc_roundtrip() {
    let meta = FreelistMeta {
        checkpoint_lsn: Lsn(1024),
        page_ids: vec![PageId(3), PageId(7), PageId(42)],
    };
    let encoded = meta.encode();
    let decoded = FreelistMeta::decode(&encoded).unwrap();
    assert_eq!(meta, decoded);
}

fn fault(bytes: &[u8]) -> String {
    match FreelistMeta::decode(bytes) {
        Err(StorageError::MetadataCorrupted(message)) => message,
        other => panic!("{other:?}"),
    }
}

#[test]
fn damaged_snapshot_says_what_is_wrong() {
    let meta = FreelistMeta {
        checkpoint_lsn: Lsn(8),
        page_ids: vec![PageId(1), PageId(2)],
    };
    let good = meta.encode();
    assert_eq!(good.len(), 36);
    assert_eq!(fault(&good[..19]), "freelist.meta is too short");
    let mut flipped = good.clone();
    flipped[30] ^= 1;
    assert_eq!(fault(&flipped), "freelist.meta CRC mismatch");
    let mut longer = good.clone();
    longer.push(0);
    let sum = crc32fast::hash(&longer[4..]);
    longer[0..4].copy_from_slice(&sum.to_le_bytes());
    assert_eq!(
        fault(&longer),
        "freelist.meta size mismatch: expected 36, got 37"
    );
}

#[test]
fn snapshot_layout() {
    let meta = FreelistMeta {
        checkpoint_lsn: Lsn(0x1234),
        page_ids: vec![PageId(7)],
    };
    let bytes = meta.encode();
    assert_eq!(bytes[0..4], crc32fast::hash(&bytes[4..]).to_le_bytes());
    assert_eq!(bytes[4..12], 0x1234u64.to_le_bytes());
    assert_eq!(bytes[12..20], 1u64.to_le_bytes());
    assert_eq!(bytes[20..28], 7u64.to_le_bytes());
    assert_eq!(FreelistMeta::path("/db"), "/db/meta/freelist.meta");
}
