use stacks_atlas_signer::bits::{
    check_node_id, clear_backptr, count_children, get_node_byte_len, get_path_byte_len,
    get_ptrs_byte_len, node_id_to_ptr_count, path_from_bytes, ptrs_from_bytes,
    read_block_identifier, read_hash_bytes, read_node_hash_bytes, read_nodetype,
    read_nodetype_at_head, write_nodetype_bytes, write_path_to_bytes, ByteReader, Corruption,
    Error, TrieHash, TrieNodeType, TriePtr,
};

#[test]
fn path_byte_len_counts_the_length_byte() {
    assert_eq!(get_path_byte_len(&vec![]), 1);
    assert_eq!(get_path_byte_len(&vec![7u8; 32]), 33);
    assert_eq!(get_path_byte_len(&vec![7u8; 254]), 255);
}

#[test]
fn a_path_is_written_behind_its_length() {
    let mut w = vec![0xaa];
    assert!(write_path_to_bytes(&[1, 2, 3], &mut w).is_ok());
    assert_eq!(w, vec![0xaa, 3, 1, 2, 3]);
    let mut w = Vec::new();
    assert!(write_path_to_bytes(&[], &mut w).is_ok());
    assert_eq!(w, vec![0]);
}

#[test]
fn a_written_path_reads_back() {
    let path: Vec<u8> = (0u8..32).collect();
    let mut w = Vec::new();
    write_path_to_bytes(&path, &mut w).unwrap();
    w.push(0xff);
    let mut r = ByteReader::new(w);
    assert_eq!(path_from_bytes(&mut r), Ok(path));
    assert_eq!(r.pos, 33);
}

#[test]
fn path_errors() {
    let mut r = ByteReader::new(vec![]);
    assert_eq!(
        path_from_bytes(&mut r),
        Err(Error::CorruptionError(Corruption::MissingPathLength))
    );
    let mut r = ByteReader::new(vec![33]);
    assert_eq!(
        path_from_bytes(&mut r),
        Err(Error::CorruptionError(Corruption::PathTooLong { got: 33 }))
    );
    let mut r = ByteReader::new(vec![4, 1, 2, 3]);
    assert_eq!(
        path_from_bytes(&mut r),
        Err(Error::CorruptionError(Corruption::ShortPath { expected: 4 }))
    );
    let mut r = ByteReader::new(vec![32]);
    assert_eq!(
        path_from_bytes(&mut r),
        Err(Error::CorruptionError(Corruption::ShortPath { expected: 32 }))
    );
}

#[test]
fn node_ids() {
    for id in 0u8..=5 {
        assert!(check_node_id(id));
        assert!(check_node_id(id | 0x80));
    }
    assert!(!check_node_id(6));
    assert!(!check_node_id(0x7f));
    assert!(!check_node_id(0x86));
    assert_eq!(clear_backptr(0x83), 3);
    assert_eq!(clear_backptr(0x03), 3);
    assert_eq!(node_id_to_ptr_count(1), 1);
    assert_eq!(node_id_to_ptr_count(2), 4);
    assert_eq!(node_id_to_ptr_count(3), 16);
    assert_eq!(node_id_to_ptr_count(4), 48);
    assert_eq!(node_id_to_ptr_count(5), 256);
    assert_eq!(node_id_to_ptr_count(0x82), 4);
}

#[test]
fn ptrs_byte_len() {
    assert_eq!(get_ptrs_byte_len(&vec![]), 1);
    assert_eq!(get_ptrs_byte_len(&vec![TriePtr::default(); 4]), 41);
}

fn encoded_ptr(id: u8, chr: u8, ptr: u32, back_block: u32) -> Vec<u8> {
    let mut out = vec![id, chr];
    out.extend_from_slice(&ptr.to_be_bytes());
    out.extend_from_slice(&back_block.to_be_bytes());
    out
}

#[test]
fn ptrs_are_decoded_in_order() {
    let mut bytes = vec![2u8];
    bytes.extend(encoded_ptr(1, b'a', 0x01020304, 0));
    bytes.extend(encoded_ptr(2, b'b', 7, 9));
    bytes.extend(encoded_ptr(0, 0, 0, 0));
    bytes.extend(encoded_ptr(0x81, b'd', 0xffffffff, 0x80000000));
    let mut r = ByteReader::new(bytes);
    let marker = TriePtr { id: 9, chr: 9, ptr: 9, back_block: 9 };
    let mut ptrs = vec![marker; 5];
    assert_eq!(ptrs_from_bytes(2, &mut r, &mut ptrs), Ok(2));
    assert_eq!(ptrs[0], TriePtr { id: 1, chr: b'a', ptr: 0x01020304, back_block: 0 });
    assert_eq!(ptrs[1], TriePtr { id: 2, chr: b'b', ptr: 7, back_block: 9 });
    assert_eq!(ptrs[2], TriePtr { id: 0, chr: 0, ptr: 0, back_block: 0 });
    assert_eq!(
        ptrs[3],
        TriePtr { id: 0x81, chr: b'd', ptr: 0xffffffff, back_block: 0x80000000 }
    );
    assert_eq!(ptrs[4], marker);
    assert_eq!(r.pos, 41);
    assert_eq!(count_children(&ptrs), 4);
    assert_eq!(count_children(&ptrs[..3].to_vec()), 2);
}

#[test]
fn ptrs_errors() {
    let mut ptrs = vec![TriePtr::default(); 4];
    let mut r = ByteReader::new(vec![2]);
    assert_eq!(
        ptrs_from_bytes(6, &mut r, &mut ptrs),
        Err(Error::CorruptionError(Corruption::BadNodeId { id: 6 }))
    );
    let mut r = ByteReader::new(vec![]);
    assert_eq!(
        ptrs_from_bytes(2, &mut r, &mut ptrs),
        Err(Error::CorruptionError(Corruption::MissingNodeId))
    );
    let mut r = ByteReader::new(vec![3]);
    assert_eq!(
        ptrs_from_bytes(2, &mut r, &mut ptrs),
        Err(Error::CorruptionError(Corruption::UnexpectedNodeId))
    );
    let mut r = ByteReader::new(vec![0x82, 1, 2, 3]);
    assert_eq!(
        ptrs_from_bytes(2, &mut r, &mut ptrs),
        Err(Error::CorruptionError(Corruption::ShortPtrs { needed: 40 }))
    );
    assert_eq!(ptrs, vec![TriePtr::default(); 4]);
}

#[test]
fn the_id_byte_read_keeps_its_flag() {
    let mut bytes = vec![0x81u8];
    bytes.extend(encoded_ptr(1, 2, 3, 4));
    let mut r = ByteReader::new(bytes);
    let mut ptrs = vec![TriePtr::default(); 1];
    assert_eq!(ptrs_from_bytes(1, &mut r, &mut ptrs), Ok(0x81));
    assert_eq!(ptrs[0], TriePtr { id: 1, chr: 2, ptr: 3, back_block: 4 });
}

#[test]
fn hashes_and_block_identifiers() {
    let mut bytes: Vec<u8> = (0u8..40).collect();
    let mut r = ByteReader::new(bytes.clone());
    let h = read_hash_bytes(&mut r).unwrap();
    assert_eq!(h.to_vec(), bytes[..32].to_vec());
    assert_eq!(read_block_identifier(&mut r), Ok(u32::from_le_bytes([32, 33, 34, 35])));
    assert_eq!(r.pos, 36);
    assert_eq!(
        read_hash_bytes(&mut r),
        Err(Error::CorruptionError(Corruption::ShortHash))
    );
    let mut r = ByteReader::new(vec![1, 2, 3]);
    assert_eq!(
        read_block_identifier(&mut r),
        Err(Error::CorruptionError(Corruption::ShortBlockIdentifier))
    );
    bytes.truncate(36);
    let mut r = ByteReader::new(bytes.clone());
    let ptr = TriePtr { id: 1, chr: 0, ptr: 4, back_block: 0 };
    assert_eq!(read_node_hash_bytes(&mut r, &ptr).unwrap().to_vec(), bytes[4..36].to_vec());
    let ptr = TriePtr { id: 1, chr: 0, ptr: 5, back_block: 0 };
    assert_eq!(
        read_node_hash_bytes(&mut r, &ptr),
        Err(Error::CorruptionError(Corruption::ShortHash))
    );
}

#[test]
fn a_reader_stops_at_its_end() {
    let mut r = ByteReader::new(vec![1, 2, 3]);
    assert_eq!(r.read_exact(2), Some(vec![1, 2]));
    assert_eq!(r.read_exact(2), None);
    assert_eq!(r.pos, 3);
    assert_eq!(r.read_exact(0), Some(vec![]));
    r.seek(1);
    assert_eq!(r.read_exact(2), Some(vec![2, 3]));
    r.seek(100);
    assert_eq!(r.pos, 3);
}

#[test]
fn a_written_node_reads_back() {
    let ptrs = vec![
        TriePtr { id: 1, chr: b'x', ptr: 100, back_block: 0 },
        TriePtr { id: 0, chr: 0, ptr: 0, back_block: 0 },
        TriePtr { id: 0x82, chr: b'y', ptr: 0x01020304, back_block: 5 },
        TriePtr { id: 0, chr: 0, ptr: 0, back_block: 0 },
    ];
    let node = TrieNodeType::Node4 { path: vec![9, 8, 7], ptrs: ptrs.clone() };
    let hash = TrieHash([0x11; 32]);
    let mut out = vec![0xee];
    assert_eq!(write_nodetype_bytes(&mut out, &node, hash), Ok(32 + 1 + 40 + 1 + 3));
    assert_eq!(get_node_byte_len(&node), 32 + 1 + 40 + 1 + 3);
    assert_eq!(out.len(), 1 + 77);
    assert_eq!(out[0], 0xee);
    assert_eq!(out[1..33].to_vec(), vec![0x11u8; 32]);
    assert_eq!(out[33], 2);
    assert_eq!(out[34..44].to_vec(), vec![1, b'x', 0, 0, 0, 100, 0, 0, 0, 0]);
    let mut r = ByteReader::new(out);
    let ptr = TriePtr { id: 2, chr: 0, ptr: 1, back_block: 0 };
    match read_nodetype(&mut r, &ptr) {
        Ok((TrieNodeType::Node4 { path, ptrs: read }, h)) => {
            assert_eq!(path, vec![9, 8, 7]);
            assert_eq!(read, ptrs);
            assert_eq!(h.0, [0x11; 32]);
        }
        other => panic!("unexpected: {:?}", other),
    }
}

#[test]
fn a_written_leaf_reads_back() {
    let data: Vec<u8> = (0u8..40).collect();
    let node = TrieNodeType::Leaf { path: vec![1; 32], data: data.clone() };
    let mut out = Vec::new();
    assert_eq!(write_nodetype_bytes(&mut out, &node, TrieHash([3; 32])), Ok(32 + 1 + 33 + 40));
    let mut r = ByteReader::new(out);
    match read_nodetype_at_head(&mut r, 1) {
        Ok((TrieNodeType::Leaf { path, data: read }, h)) => {
            assert_eq!(path, vec![1; 32]);
            assert_eq!(read, data);
            assert_eq!(h.0, [3; 32]);
        }
        other => panic!("unexpected: {:?}", other),
    }
}

#[test]
fn node_errors() {
    let mut r = ByteReader::new(vec![0; 31]);
    assert!(matches!(
        read_nodetype_at_head(&mut r, 2),
        Err(Error::CorruptionError(Corruption::ShortHash))
    ));
    let mut r = ByteReader::new(vec![0; 40]);
    assert!(matches!(
        read_nodetype_at_head(&mut r, 0),
        Err(Error::CorruptionError(Corruption::StoredEmptyNode))
    ));
    let mut r = ByteReader::new(vec![0; 40]);
    assert!(matches!(
        read_nodetype_at_head(&mut r, 0x82),
        Err(Error::CorruptionError(Corruption::BadNodeId { id: 0x82 }))
    ));
    let mut bytes = vec![0u8; 32];
    bytes.extend_from_slice(&[1, 2, 5, 5]);
    let mut r = ByteReader::new(bytes);
    assert!(matches!(
        read_nodetype_at_head(&mut r, 1),
        Err(Error::CorruptionError(Corruption::ShortLeafValue))
    ));
    let mut bytes = vec![0u8; 32];
    bytes.push(2);
    let mut r = ByteReader::new(bytes);
    assert!(matches!(
        read_nodetype_at_head(&mut r, 1),
        Err(Error::CorruptionError(Corruption::UnexpectedNodeId))
    ));
}
