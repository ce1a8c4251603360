use ow_protocol::chain::{
    commitment_to_blobhash, queue_head_data, queue_head_log, queue_head_log_block, select_sidecar, BlobSidecarData,
    NewBlobLog,
};
use ow_protocol::errors::OwValidatorNodeError;
use ow_protocol::hex::{blob_string_is_sliceable, blob_vec_from_string};
use ow_protocol::messages::{extract_message_data, MessageDataError};
use ow_protocol::BYTES_PER_BLOB;
use sha2::Digest;

fn hex_of(bytes: &[u8], upper: bool) -> String {
    let mut s = String::from("0x");
    for b in bytes {
        if upper {
            s.push_str(&format!("{b:02X}"));
        } else {
            s.push_str(&format!("{b:02x}"));
        }
    }
    s
}

fn pattern_blob() -> [u8; BYTES_PER_BLOB] {
    let mut blob = [0u8; BYTES_PER_BLOB];
    for (i, b) in blob.iter_mut().enumerate() {
        *b = (i * 7 % 256) as u8;
    }
    blob
}

#[test]
fn hex_string_roundtrip() {
    let blob = pattern_blob();
    assert_eq!(blob_vec_from_string(hex_of(&blob, false)).unwrap(), blob);
    assert_eq!(blob_vec_from_string(hex_of(&blob, true)).unwrap(), blob);
}

#[test]
fn hex_prefix_is_not_checked_and_plus_sign_is_read() {
    let mut s = hex_of(&[0u8; BYTES_PER_BLOB], false);
    s.replace_range(0..2, "zz");
    s.replace_range(2..4, "+f");
    let blob = blob_vec_from_string(s).unwrap();
    assert_eq!(blob[0], 15);
    assert!(blob[1..].iter().all(|b| *b == 0));
}

#[test]
fn hex_wrong_length() {
    match blob_vec_from_string("0x00".to_string()) {
        Err(OwValidatorNodeError::InvalidBlobLength(n)) => assert_eq!(n, 4),
        _ => panic!("expected InvalidBlobLength"),
    }
}

#[test]
fn hex_bad_window_is_reported() {
    let mut s = hex_of(&[0u8; BYTES_PER_BLOB], false);
    s.replace_range(12..14, "g1");
    s.replace_range(20..22, "zz");
    match blob_vec_from_string(s) {
        Err(OwValidatorNodeError::InvalidHexStringValue(h)) => assert_eq!(h, "g1"),
        _ => panic!("expected InvalidHexStringValue"),
    }
    let mut s = hex_of(&[0u8; BYTES_PER_BLOB], false);
    s.replace_range(4..6, "-1");
    match blob_vec_from_string(s) {
        Err(OwValidatorNodeError::InvalidHexStringValue(h)) => assert_eq!(h, "-1"),
        _ => panic!("expected InvalidHexStringValue"),
    }
}

#[test]
fn hex_non_ascii_window() {
    let mut s = hex_of(&[0u8; BYTES_PER_BLOB], false);
    s.replace_range(6..8, "é");
    assert!(blob_string_is_sliceable(&s));
    match blob_vec_from_string(s) {
        Err(OwValidatorNodeError::InvalidHexStringValue(h)) => assert_eq!(h, "é"),
        _ => panic!("expected InvalidHexStringValue"),
    }
    let mut s = hex_of(&[0u8; BYTES_PER_BLOB], false);
    s.replace_range(3..5, "é");
    assert!(!blob_string_is_sliceable(&s));
    assert!(blob_string_is_sliceable("0x00"));
}

#[test]
fn blobhash_is_versioned_sha256() {
    let commitment = [5u8; 48];
    let hash = commitment_to_blobhash(&commitment);
    let mut expected: [u8; 32] = sha2::Sha256::digest(commitment).into();
    expected[0] = 1;
    assert_eq!(hash, expected);
}

#[test]
fn queue_head_log_matching() {
    let commitment = vec![9u8; 48];
    let head = commitment_to_blobhash(&commitment);
    let log = NewBlobLog { commitment: commitment.clone(), block_number: Some(77) };
    assert_eq!(queue_head_log_block(&log, &head).unwrap(), Some(77));
    let other = NewBlobLog { commitment: vec![1u8; 48], block_number: Some(78) };
    assert_eq!(queue_head_log_block(&other, &head).unwrap(), None);
    let unknown = NewBlobLog { commitment, block_number: None };
    assert!(matches!(queue_head_log_block(&unknown, &head), Err(OwValidatorNodeError::BlockNotFoundInLog())));
}

#[test]
fn queue_head_log_takes_the_first_match() {
    let commitment = vec![9u8; 48];
    let head = commitment_to_blobhash(&commitment);
    let other = |b: u8| NewBlobLog { commitment: vec![b; 48], block_number: Some(b as u64) };
    let logs = vec![
        other(1),
        NewBlobLog { commitment: commitment.clone(), block_number: Some(10) },
        other(2),
        NewBlobLog { commitment: commitment.clone(), block_number: Some(11) },
    ];
    assert_eq!(queue_head_log(&logs, &head).unwrap(), Some((1, 10)));
    assert_eq!(queue_head_log(&vec![other(1), other(2)], &head).unwrap(), None);
    assert_eq!(queue_head_log(&vec![], &head).unwrap(), None);
    let unknown_first = vec![
        other(1),
        NewBlobLog { commitment: commitment.clone(), block_number: None },
        NewBlobLog { commitment, block_number: Some(12) },
    ];
    assert!(matches!(queue_head_log(&unknown_first, &head), Err(OwValidatorNodeError::BlockNotFoundInLog())));
}

#[test]
fn queue_head_needs_root_and_commitment() {
    assert!(matches!(queue_head_data(vec![], [1u8; 32]), Err(OwValidatorNodeError::QueueHeadNotFound())));
    assert!(matches!(queue_head_data(vec![1], [0u8; 32]), Err(OwValidatorNodeError::QueueHeadNotFound())));
    let d = queue_head_data(vec![1, 2], [3u8; 32]).unwrap();
    assert_eq!(d.commitment, vec![1, 2]);
    assert_eq!(d.parent_beacon_block_root, [3u8; 32]);
}

fn sidecar(blob: &str, c: u8) -> BlobSidecarData {
    BlobSidecarData { blob: blob.to_string(), kzg_commitment: vec![c; 48] }
}

#[test]
fn sidecar_selection_needs_exactly_one_match() {
    let chosen = select_sidecar(vec![sidecar("a", 1), sidecar("b", 2), sidecar("c", 3)], &[2u8; 48]).unwrap();
    assert_eq!(chosen.blob, "b");
    assert!(select_sidecar(vec![sidecar("a", 1)], &[2u8; 48]).is_none());
    assert!(select_sidecar(vec![sidecar("a", 2), sidecar("b", 2)], &[2u8; 48]).is_none());
    assert!(select_sidecar(vec![], &[2u8; 48]).is_none());
}

fn ddex(isrc: &str, grid: &str, cid: Option<&str>) -> Vec<u8> {
    let cid_part = match cid {
        Some(c) => format!("<MessageHeader><ImageIpfsCid>{c}</ImageIpfsCid></MessageHeader>"),
        None => "<MessageHeader></MessageHeader>".to_string(),
    };
    format!(
        "<?xml version=\"1.0\"?><NewReleaseMessage>{cid_part}<SoundRecording><ISRC>{isrc}</ISRC></SoundRecording><Release><ReleaseId><GRid>{grid}</GRid></ReleaseId></Release></NewReleaseMessage>"
    )
    .into_bytes()
}

#[test]
fn message_data_extraction() {
    let decoded = vec![ddex("USRC17607839", "A1-2425G-ABC1234002-M", Some("QmImage1")), ddex("GBAYE0601477", "A1-0000", None)];
    let data = extract_message_data(&decoded).unwrap();
    assert_eq!(data.len(), 2);
    assert_eq!(data[0].emittable_data.isrc, "USRC17607839");
    assert_eq!(data[0].emittable_data.release_id, "A1-2425G-ABC1234002-M");
    assert_eq!(data[0].image_ipfs_cid, "QmImage1");
    assert_eq!(data[1].emittable_data.isrc, "GBAYE0601477");
    assert_eq!(data[1].emittable_data.release_id, "A1-0000");
    // the CID of the previous message carries over
    assert_eq!(data[1].image_ipfs_cid, "QmImage1");
}

#[test]
fn message_without_tags_yields_empty_values() {
    let data = extract_message_data(&vec![b"<a>text</a>".to_vec()]).unwrap();
    assert_eq!(data[0].emittable_data.isrc, "");
    assert_eq!(data[0].emittable_data.release_id, "");
    assert_eq!(data[0].image_ipfs_cid, "");
    assert!(extract_message_data(&vec![]).unwrap().is_empty());
}

#[test]
fn extraction_of_joined_lists_joins_the_ids() {
    let a = vec![ddex("USRC17607839", "A1-0001", Some("QmA")), ddex("GBAYE0601477", "A1-0002", None)];
    let b = vec![ddex("FRZ039800212", "A1-0003", None), ddex("DEA123456789", "A1-0004", Some("QmB"))];
    let ids = |msgs: &Vec<Vec<u8>>| {
        extract_message_data(msgs)
            .unwrap()
            .into_iter()
            .map(|x| (x.emittable_data.isrc, x.emittable_data.release_id))
            .collect::<Vec<_>>()
    };
    let joined: Vec<Vec<u8>> = [a.clone(), b.clone()].concat();
    assert_eq!(ids(&joined), [ids(&a), ids(&b)].concat());
    // the image CID, unlike the ids, carries over from the first list
    assert_eq!(extract_message_data(&joined).unwrap()[2].image_ipfs_cid, "QmA");
    assert_eq!(extract_message_data(&b).unwrap()[0].image_ipfs_cid, "");
}

#[test]
fn message_extraction_errors() {
    match extract_message_data(&vec![ddex("X", "Y", None), b"<a></b>".to_vec()]) {
        Err(MessageDataError::InvalidXml(OwValidatorNodeError::InvalidHexStringValue(s))) => assert_eq!(s, "duer"),
        _ => panic!("expected InvalidXml"),
    }
    let mut bad = b"<ISRC>".to_vec();
    bad.push(0xff);
    bad.extend_from_slice(b"</ISRC>");
    assert!(matches!(extract_message_data(&vec![bad]), Err(MessageDataError::InvalidUtf8)));
}

#[test]
fn validator_error_messages() {
    assert_eq!(OwValidatorNodeError::BlockNotFound(1234).to_string(), "Could not fetch the block info for block no: 1234");
    assert_eq!(OwValidatorNodeError::BlockNotFound(0).to_string(), "Could not fetch the block info for block no: 0");
    assert_eq!(OwValidatorNodeError::BlockNotFoundInLog().to_string(), "Failed to extract block number from log");
    assert_eq!(OwValidatorNodeError::QueueHeadNotFound().to_string(), "Details about the queue head could not be found");
    assert_eq!(
        OwValidatorNodeError::FailedToFindBlobSidecar("0xab".to_string()).to_string(),
        "Failed to find BlobSidecar in the beacon chain for the commitment: 0xab"
    );
    assert_eq!(
        OwValidatorNodeError::InvalidBlobLength(17).to_string(),
        "Invalid blob length: expected 262146 ( = 131072 * 2 + 2), got: 17"
    );
    assert_eq!(OwValidatorNodeError::InvalidHexStringValue("zz".to_string()).to_string(), "Invalid hex value in blob String: zz");
    assert_eq!(OwValidatorNodeError::ImageFileNotFoundInIpfs("Qm".to_string()).to_string(), "Image file not found in IPFS node: Qm");
    assert_eq!(OwValidatorNodeError::BlockNotFound(u64::MAX).to_string(), format!("Could not fetch the block info for block no: {}", u64::MAX));
}
