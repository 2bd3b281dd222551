use pg_rust::error::StorageError;
use pg_rust::superblock::{
    Superblock, SUPERBLOCK_FILE_SIZE, SUPERBLOCK_MAGIC, SUPERBLOCK_SIZE, SUPERBLOCK_VERSION,
    SUPERBLOCK_VERSION_V1,
};
use pg_rust::types::{Lsn, Oid, PageId, TxnId, PAGE_SIZE};

const CREATED_AT: u64 = 1_700_000_000_000_000_000;

fn write(file: &mut Vec<u8>, sb: &Superblock) -> Result<(), StorageError> {
    let current = if file.len() == SUPERBLOCK_FILE_SIZE {
        Some(&file[..])
    } else {
        None
    };
    let writes = sb.write(current)?;
    file.resize(SUPERBLOCK_FILE_SIZE, 0);
    for write in writes {
        file[write.offset..write.offset + write.bytes.len()].copy_from_slice(&write.bytes);
    }
    Ok(())
}

/// Reads the file and rewrites it where it holds a copy of version 1.
fn read(file: &mut Vec<u8>) -> Superblock {
    let found = Superblock::read(file).unwrap();
    if found.needs_migration {
        *file = found.superblock.migrated_file();
    }
    found.superblock
}

fn encode_v1_copy(
    checkpoint_lsn: u64,
    next_page_id: u64,
    next_txn_id: u64,
    created_at: u64,
) -> Vec<u8> {
    let mut buf = vec![0u8; SUPERBLOCK_SIZE];
    buf[0..4].copy_from_slice(&SUPERBLOCK_MAGIC.to_le_bytes());
    buf[4..8].copy_from_slice(&SUPERBLOCK_VERSION_V1.to_le_bytes());
    buf[8..12].copy_from_slice(&(PAGE_SIZE as u32).to_le_bytes());
    buf[16..24].copy_from_slice(&checkpoint_lsn.to_le_bytes());
    buf[24..32].copy_from_slice(&next_page_id.to_le_bytes());
    buf[32..40].copy_from_slice(&next_txn_id.to_le_bytes());
    buf[40..48].copy_from_slice(&created_at.to_le_bytes());
    let mut hasher = crc32fast::Hasher::new();
    hasher.update(&buf[0..48]);
    hasher.update(&buf[52..SUPERBLOCK_SIZE]);
    let crc = hasher.finalize();
    buf[48..52].copy_from_slice(&crc.to_le_bytes());
    buf
}

fn assert_v2_copy(copy: &[u8], expected_next_oid: u64, expected_created_at: u64) {
    assert_eq!(
        u32::from_le_bytes(copy[4..8].try_into().unwrap()),
        SUPERBLOCK_VERSION,
        "on-disk copy is not v2"
    );
    assert_eq!(
        u64::from_le_bytes(copy[40..48].try_into().unwrap()),
        expected_next_oid,
        "next_oid must live at offset 40..48"
    );
    assert_eq!(
        u64::from_le_bytes(copy[48..56].try_into().unwrap()),
        expected_created_at,
        "created_at must live at offset 48..56"
    );
    let stored_crc = u32::from_le_bytes(copy[56..60].try_into().unwrap());
    let mut hasher = crc32fast::Hasher::new();
    hasher.update(&copy[0..56]);
    hasher.update(&copy[60..SUPERBLOCK_SIZE]);
    assert_eq!(
        hasher.finalize(),
        stored_crc,
        "v2 CRC must cover 0..56|60..512"
    );
}

#[test]
fn create_and_read_superblock() {
    let (sb, file) = Superblock::create(PAGE_SIZE as u32, CREATED_AT);
    let read = Superblock::read(&file).unwrap().superblock;
    assert_eq!(sb, read);
}

#[test]
fn write_updates_checkpoint_lsn() {
    let (mut sb, mut file) = Superblock::create(PAGE_SIZE as u32, CREATED_AT);
    sb.checkpoint_lsn = Lsn(1024);
    write(&mut file, &sb).unwrap();
    let read = Superblock::read(&file).unwrap().superblock;
    assert_eq!(read.checkpoint_lsn, Lsn(1024));
    assert_eq!(read.redo_lsn(), Lsn(1024));
}

#[test]
fn write_refuses_non_monotonic_checkpoint_lsn() {
    let (mut sb, mut file) = Superblock::create(PAGE_SIZE as u32, CREATED_AT);
    sb.checkpoint_lsn = Lsn(1024);
    write(&mut file, &sb).unwrap();
    let mut sb2 = sb;
    sb2.checkpoint_lsn = Lsn(512);
    assert!(write(&mut file, &sb2).is_err());
}

#[test]
fn read_survives_corrupted_inactive_copy() {
    let (mut sb, mut file) = Superblock::create(PAGE_SIZE as u32, CREATED_AT);
    sb.checkpoint_lsn = Lsn(2048);
    write(&mut file, &sb).unwrap();
    file[..SUPERBLOCK_SIZE].fill(0xff);
    let read = Superblock::read(&file).unwrap().superblock;
    assert_eq!(read.checkpoint_lsn, Lsn(2048));
}

#[test]
fn read_survives_corrupted_active_copy() {
    let (mut sb, mut file) = Superblock::create(PAGE_SIZE as u32, CREATED_AT);
    sb.checkpoint_lsn = Lsn(2048);
    write(&mut file, &sb).unwrap();
    assert_eq!(
        Superblock::read(&file).unwrap().active_offset,
        SUPERBLOCK_SIZE
    );
    file[SUPERBLOCK_SIZE..].fill(0xff);
    let read = Superblock::read(&file).unwrap().superblock;
    assert_eq!(read.checkpoint_lsn, Lsn::invalid());
}

#[test]
fn write_fallback_recovers_truncated_superblock_file() {
    let mut file = vec![0xff; 100];
    let mut sb = Superblock::new(PAGE_SIZE as u32, CREATED_AT);
    sb.checkpoint_lsn = Lsn(1024);
    write(&mut file, &sb).unwrap();
    let read = Superblock::read(&file).unwrap().superblock;
    assert_eq!(read, sb);
}

#[test]
fn two_damaged_copies_cannot_be_read() {
    let (_, mut file) = Superblock::create(PAGE_SIZE as u32, CREATED_AT);
    file[100] ^= 1;
    file[SUPERBLOCK_SIZE] ^= 1;
    match Superblock::read(&file) {
        Err(StorageError::MetadataCorrupted(message)) => {
            assert!(message.contains("copy A: "), "{message}");
            assert!(message.contains("copy B: "), "{message}");
        }
        other => panic!("{other:?}"),
    }
}

#[test]
fn test_superblock_v1_to_v2_migration() {
    let mut file = encode_v1_copy(1024, 7, 3, CREATED_AT);
    file.extend(encode_v1_copy(2048, 9, 4, CREATED_AT));

    let sb = read(&mut file);
    assert_eq!(sb.version, SUPERBLOCK_VERSION);
    assert_eq!(sb.page_size, PAGE_SIZE as u32);
    assert_eq!(sb.checkpoint_lsn, Lsn(2048));
    assert_eq!(sb.next_page_id, PageId(9));
    assert_eq!(sb.next_txn_id, TxnId(4));
    assert_eq!(sb.next_oid, Oid::first_user());
    assert_eq!(sb.created_at, CREATED_AT);

    assert_v2_copy(&file[0..SUPERBLOCK_SIZE], Oid::first_user().0, CREATED_AT);
    assert_v2_copy(&file[SUPERBLOCK_SIZE..], Oid::first_user().0, CREATED_AT);

    let sb2 = read(&mut file);
    assert_eq!(sb2, sb);

    let mut sb3 = sb2;
    sb3.checkpoint_lsn = Lsn(4096);
    write(&mut file, &sb3).unwrap();
    let sb4 = read(&mut file);
    assert_eq!(sb4.checkpoint_lsn, Lsn(4096));
    assert_eq!(sb4.next_oid, Oid::first_user());
}

#[test]
fn fresh_database_creates_v2_superblock() {
    let (sb, file) = Superblock::create(PAGE_SIZE as u32, CREATED_AT);
    assert_eq!(sb.version, SUPERBLOCK_VERSION);
    assert_eq!(sb.next_oid, Oid::first_user());
    assert_v2_copy(
        &file[0..SUPERBLOCK_SIZE],
        Oid::first_user().0,
        sb.created_at,
    );
    assert_v2_copy(&file[SUPERBLOCK_SIZE..], Oid::first_user().0, sb.created_at);
    let found = Superblock::read(&file).unwrap();
    assert!(!found.needs_migration);
    assert_eq!(found.superblock, sb);
}

#[test]
fn v1_corrupt_copy_falls_back_to_valid_copy_and_migrates() {
    let mut file = encode_v1_copy(1024, 7, 3, CREATED_AT);
    let mut copy_b = encode_v1_copy(2048, 9, 4, CREATED_AT);
    copy_b[40] ^= 0xff;
    file.extend(copy_b);

    let sb = read(&mut file);
    assert_eq!(sb.version, SUPERBLOCK_VERSION);
    assert_eq!(sb.checkpoint_lsn, Lsn(1024));
    assert_eq!(sb.next_page_id, PageId(7));
    assert_eq!(sb.next_txn_id, TxnId(3));
    assert_eq!(sb.next_oid, Oid::first_user());
    assert_eq!(sb.created_at, CREATED_AT);

    assert_v2_copy(&file[0..SUPERBLOCK_SIZE], Oid::first_user().0, CREATED_AT);
    assert_v2_copy(&file[SUPERBLOCK_SIZE..], Oid::first_user().0, CREATED_AT);
}

#[test]
fn mixed_v1_and_v2_copies_converge_to_v2() {
    let (mut seed, mut seed_file) = Superblock::create(PAGE_SIZE as u32, 77);
    seed.checkpoint_lsn = Lsn(2048);
    write(&mut seed_file, &seed).unwrap();

    let mut file = seed_file[SUPERBLOCK_SIZE..].to_vec();
    file.extend(encode_v1_copy(1024, 7, 3, CREATED_AT));

    let sb = read(&mut file);
    assert_eq!(sb.version, SUPERBLOCK_VERSION);
    assert_eq!(sb.checkpoint_lsn, Lsn(2048));
    assert_eq!(sb.next_oid, Oid::first_user());
    assert_eq!(sb.created_at, seed.created_at);
    for copy in [&file[0..SUPERBLOCK_SIZE], &file[SUPERBLOCK_SIZE..]] {
        assert_v2_copy(copy, Oid::first_user().0, seed.created_at);
        assert_eq!(
            u64::from_le_bytes(copy[16..24].try_into().unwrap()),
            2048,
            "both copies must carry the newer checkpoint_lsn"
        );
    }
    assert_eq!(read(&mut file), sb);
}

#[test]
fn superblock_lies_in_the_data_directory() {
    assert_eq!(Superblock::path("/var/db"), "/var/db/superblock");
}
