use dsvn::object::ObjectId;
use dsvn::packfile::{PackReader, PackWriter, PACK_VERSION};

fn roundtrip(writer: &PackWriter) -> PackReader {
    let (bytes, _index) = writer.encode().unwrap();
    assert!(PackReader::is_readable(&bytes));
    PackReader::from_bytes(bytes).unwrap()
}

#[test]
fn test_packfile_write_and_read() {
    let mut writer = PackWriter::create().unwrap();

    let id1 = ObjectId::from_data(b"hello world");
    let data1 = b"hello world".to_vec();
    writer.add_object(id1, data1);

    let id2 = ObjectId::from_data(b"test data");
    let data2 = b"test data".to_vec();
    writer.add_object(id2, data2);

    let (bytes, index) = writer.encode().unwrap();
    assert_eq!(index.entries.len(), 2);

    let reader = PackReader::from_bytes(bytes).unwrap();
    let retrieved1 = reader.get_object(id1).unwrap().unwrap();
    assert_eq!(retrieved1, b"hello world");
    let retrieved2 = reader.get_object(id2).unwrap().unwrap();
    assert_eq!(retrieved2, b"test data");
}

#[test]
fn test_packfile_get_nonexistent() {
    let mut writer = PackWriter::create().unwrap();
    let id = ObjectId::from_data(b"test");
    writer.add_object(id, b"test".to_vec());
    let reader = roundtrip(&writer);
    let nonexistent = ObjectId::from_data(b"nonexistent");
    let result = reader.get_object(nonexistent).unwrap();
    assert!(result.is_none());
}

#[test]
fn test_packfile_object_ids() {
    let mut writer = PackWriter::create().unwrap();
    let id1 = ObjectId::from_data(b"object1");
    writer.add_object(id1, b"object1".to_vec());
    let id2 = ObjectId::from_data(b"object2");
    writer.add_object(id2, b"object2".to_vec());
    let reader = roundtrip(&writer);
    let ids = reader.object_ids();
    assert_eq!(ids.len(), 2);
    assert!(ids.contains(&id1));
    assert!(ids.contains(&id2));
}

#[test]
fn test_packfile_compression() {
    let mut writer = PackWriter::create().unwrap();
    let large_data = vec![b'A'; 10_000];
    let id = ObjectId::from_data(&large_data);
    writer.add_object(id, large_data.clone());
    let (bytes, _) = writer.encode().unwrap();
    assert!((bytes.len() as u64) < large_data.len() as u64 + 100);
    let reader = PackReader::from_bytes(bytes).unwrap();
    let retrieved = reader.get_object(id).unwrap().unwrap();
    assert_eq!(retrieved, large_data);
}

#[test]
fn test_packfile_empty() {
    let writer = PackWriter::create().unwrap();
    let (bytes, index) = writer.encode().unwrap();
    assert_eq!(index.entries.len(), 0);
    let reader = PackReader::from_bytes(bytes).unwrap();
    assert_eq!(reader.object_ids().len(), 0);
}

#[test]
fn pack_layout_and_index_offsets() {
    let mut writer = PackWriter::create().unwrap();
    let id = ObjectId::new([7u8; 32]);
    writer.add_object(id, b"abc".to_vec());
    let (bytes, index) = writer.encode().unwrap();
    assert_eq!(&bytes[0..4], &PACK_VERSION.to_le_bytes());
    assert_eq!(&bytes[4..8], &1u32.to_le_bytes());
    assert_eq!(bytes[8], 1);
    assert_eq!(&bytes[9..13], &3u32.to_le_bytes());
    assert_eq!(&bytes[13..45], &[7u8; 32]);
    assert_eq!(index.entries[0].offset, 8);
    assert_eq!(index.entries[0].size, 3);
}

#[test]
fn pack_add_same_id_replaces_data() {
    let mut writer = PackWriter::create().unwrap();
    let id = ObjectId::new([1u8; 32]);
    writer.add_object(id, b"one".to_vec());
    writer.add_object(id, b"two".to_vec());
    let reader = roundtrip(&writer);
    assert_eq!(reader.object_ids().len(), 1);
    assert_eq!(reader.get_object(id).unwrap().unwrap(), b"two");
}

#[test]
fn pack_unknown_version_is_refused() {
    let mut bytes = vec![9u8, 0, 0, 0, 0, 0, 0, 0];
    assert!(PackReader::is_readable(&bytes));
    let r = PackReader::from_bytes(bytes.clone());
    assert_eq!(r.err().unwrap(), "Unknown pack version: 9");
    bytes[0] = 2;
    bytes[4] = 1;
    assert!(!PackReader::is_readable(&bytes));
    assert!(!PackReader::is_readable(&[2u8, 0, 0]));
}
