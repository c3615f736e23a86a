use uorustlibs::mul_reader::{simple_from_vecs, MulReader, MulWriter, MulWriterMode};

// A small skills container: the streams that a reader is opened on.
fn skills_streams() -> (Vec<u8>, Vec<u8>) {
    let mut writer = MulWriter::new(vec![], vec![], MulWriterMode::Truncate);
    for name in ["Alchemy", "Anatomy", "Animal Lore"] {
        let mut record = vec![0u8];
        record.extend_from_slice(name.as_bytes());
        record.push(0);
        writer.append(&record, None, None).unwrap();
    }
    writer.into_streams()
}

#[test]
fn test_load_mulreader() {
    let (idx, data) = skills_streams();
    let mul_reader = MulReader::from_readables(idx, data);
    assert_eq!(mul_reader.len(), 3);
}

#[test]
fn test_read_first_entry() {
    let (idx, data) = skills_streams();
    let mul_reader = MulReader::from_readables(idx, data);
    let record = mul_reader.read(0);
    match record {
        Ok(record) => {
            assert_eq!(record.data, b"\0Alchemy\0".to_vec());
        }
        Err(err) => {
            panic!("{:?}", err)
        }
    }
}

#[test]
fn mul_reader_test_read_impossible_entry() {
    let (idx, data) = skills_streams();
    let mul_reader = MulReader::from_readables(idx, data);
    let record = mul_reader.read(999999);
    match record {
        Ok(_record) => {
            panic!("Unexpectedly read a result from a known impossible address")
        }
        Err(_) => {
            //Passed
        }
    }
}

#[test]
fn mul_reader_test_write_simple_mul() {
    let mut mul_writer = MulWriter::new(vec![], vec![], MulWriterMode::Truncate);
    let mut out_buffer = "Bakery".as_bytes().to_vec();
    out_buffer.push(0);
    out_buffer.insert(0, 1);
    assert!(mul_writer.append(&out_buffer, None, None).is_ok());
    let (idx, data) = mul_writer.into_streams();
    let reader = MulReader::from_readables(idx, data);
    assert_eq!(reader.read(0).unwrap().data, out_buffer);
}

#[test]
fn helper_container_of_no_records_has_none() {
    let reader = simple_from_vecs(vec![], 1, 2);
    assert_eq!(reader.len(), 0);
    assert!(reader.read(0).is_err());
}
