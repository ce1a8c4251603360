use ow_protocol::blob::{append_to_blob, blob_from_dir, blob_from_file, is_xml_file, validate_xml, DirEntryData};
use ow_protocol::decoder::blob_to_vecs;
use ow_protocol::encoder::{file_to_vec, frame_compressed};
use ow_protocol::errors::OwCodecError;
use ow_protocol::path::extract_file_extension;
use ow_protocol::{BYTES_PER_BLOB, BYTES_PER_FIELD_ELEMENT};

fn sample_xml(tag: &str, items: usize) -> Vec<u8> {
    let mut s = String::from("<?xml version=\"1.0\" encoding=\"UTF-8\"?>\n<NewReleaseMessage>\n");
    for i in 0..items {
        s.push_str(&format!("  <{tag}>This is item number {i}</{tag}>\n"));
    }
    s.push_str("</NewReleaseMessage>\n");
    s.into_bytes()
}

fn xml_entry(path: &str, contents: Vec<u8>) -> DirEntryData {
    DirEntryData { path: path.to_string(), is_file: true, contents: Some(contents) }
}

#[test]
fn constants_match_c_kzg() {
    assert_eq!(BYTES_PER_BLOB, c_kzg::BYTES_PER_BLOB);
    assert_eq!(BYTES_PER_FIELD_ELEMENT, c_kzg::BYTES_PER_FIELD_ELEMENT);
}

#[test]
fn encoded_file_is_smaller() {
    let file_buffer = sample_xml("Title", 200);
    let encoded = file_to_vec(&file_buffer);
    assert!(encoded.len() < file_buffer.len());
}

#[test]
fn frame_marks_last_chunk_and_pads() {
    let data: Vec<u8> = (1..=40u8).collect();
    let framed = frame_compressed(&data);
    assert_eq!(framed.len(), 64);
    assert_eq!(framed[0], 0);
    assert_eq!(&framed[1..32], &data[0..31]);
    assert_eq!(framed[32], 1);
    assert_eq!(&framed[33..42], &data[31..40]);
    assert!(framed[42..64].iter().all(|b| *b == 0));
    assert!(frame_compressed(&[]).is_empty());
    let exact: Vec<u8> = vec![7u8; 31];
    let framed = frame_compressed(&exact);
    assert_eq!(framed.len(), 32);
    assert_eq!(framed[0], 1);
}

#[test]
fn encoded_file_inflates_back() {
    let xml = sample_xml("ISRC", 10);
    let encoded = file_to_vec(&xml);
    assert_eq!(encoded.len() % 32, 0);
    let mut stream = Vec::new();
    for chunk in encoded.chunks(32) {
        stream.extend_from_slice(&chunk[1..]);
    }
    assert_eq!(miniz_oxide::inflate::decompress_to_vec(&stream).unwrap(), xml);
    let markers: Vec<u8> = encoded.chunks(32).map(|c| c[0]).collect();
    let (last, rest) = markers.split_last().unwrap();
    assert_eq!(*last, 1);
    assert!(rest.iter().all(|m| *m == 0));
}

#[test]
#[should_panic]
fn panic_for_empty_dir() {
    // The assets directory: two sub-directories without an extension and a
    // text file.
    let entries = vec![
        DirEntryData { path: "./tests/assets/pierogi".to_string(), is_file: false, contents: None },
        DirEntryData { path: "./tests/assets/empty".to_string(), is_file: false, contents: None },
        DirEntryData { path: "./tests/assets/test.txt".to_string(), is_file: true, contents: None },
    ];
    blob_from_dir("./tests/assets", true, &entries).unwrap();
}

#[test]
#[should_panic]
fn panic_for_non_dir() {
    blob_from_dir("./tests/assets/pierogi", false, &Vec::new()).unwrap();
}

#[test]
#[should_panic]
fn panic_for_non_xml_file() {
    blob_from_file("./tests/assets/test.txt", true, &None).unwrap();
}

#[test]
#[should_panic]
fn panic_for_wrong_path() {
    blob_from_file("./tests/kapusta", false, &None).unwrap();
}

#[test]
fn errors_name_the_path() {
    match blob_from_dir("./tests/assets", true, &Vec::new()) {
        Err(OwCodecError::NoXmlInFolder(p)) => assert_eq!(p, "./tests/assets"),
        _ => panic!("expected NoXmlInFolder"),
    }
    match blob_from_dir("./tests/assets/pierogi", false, &Vec::new()) {
        Err(OwCodecError::NotADirectory(p)) => assert_eq!(p, "./tests/assets/pierogi"),
        _ => panic!("expected NotADirectory"),
    }
    match blob_from_file("./tests/assets/test.txt", true, &None) {
        Err(OwCodecError::NotAnXmlFile(p)) => assert_eq!(p, "./tests/assets/test.txt"),
        _ => panic!("expected NotAnXmlFile"),
    }
    match blob_from_file("./tests/kapusta", false, &None) {
        Err(OwCodecError::FileExtensionExtraction(p)) => assert_eq!(p, "./tests/kapusta"),
        _ => panic!("expected FileExtensionExtraction"),
    }
}

#[test]
fn dir_entry_without_extension_fails() {
    let entries = vec![
        xml_entry("./d/a.xml", sample_xml("ISRC", 2)),
        DirEntryData { path: "./d/README".to_string(), is_file: true, contents: None },
    ];
    match blob_from_dir("./d", true, &entries) {
        Err(OwCodecError::FileExtensionExtraction(p)) => assert_eq!(p, "./d/README"),
        _ => panic!("expected FileExtensionExtraction"),
    }
}

#[test]
fn encode_file_into_blob_from_valid_xml() {
    let path = "./tests/assets/valid_xml/ERN_example_1.xml";
    let blob = blob_from_file(path, true, &Some(sample_xml("ISRC", 5))).unwrap();
    assert_ne!(blob, [0; BYTES_PER_BLOB]);
}

#[test]
fn encode_dir_files_into_blob() {
    let entries = vec![
        xml_entry("./tests/assets/valid_xml/ERN_example_1.xml", sample_xml("ISRC", 3)),
        xml_entry("./tests/assets/valid_xml/ERN_example_2.xml", sample_xml("GRid", 4)),
    ];
    let blob = blob_from_dir("./tests/assets/valid_xml", true, &entries).unwrap();
    assert_ne!(blob, [0; BYTES_PER_BLOB]);
}

#[test]
fn single_file_roundtrip() {
    let file_buffer = sample_xml("ISRC", 50);
    let blob = blob_from_file("./tests/assets/valid_xml/ERN_example_1.xml", true, &Some(file_buffer.clone())).unwrap();
    let recovered = blob_to_vecs(blob).unwrap();
    assert_eq!(recovered.len(), 1);
    assert_eq!(file_buffer, recovered[0]);
}

#[test]
fn dir_roundtrip() {
    let raw_files = vec![sample_xml("ISRC", 3), sample_xml("GRid", 40), sample_xml("Title", 7)];
    let entries = vec![
        xml_entry("./v/ERN_example_1.xml", raw_files[0].clone()),
        DirEntryData { path: "./v/notes.txt".to_string(), is_file: true, contents: None },
        xml_entry("./v/ERN_example_2.xml", raw_files[1].clone()),
        DirEntryData { path: "./v/sub.xml".to_string(), is_file: false, contents: None },
        xml_entry("./v/ERN_example_3.xml", raw_files[2].clone()),
    ];
    let blob = blob_from_dir("./v", true, &entries).unwrap();
    let recovered = blob_to_vecs(blob).unwrap();
    assert_eq!(raw_files, recovered);
}

#[test]
fn packed_blob_markers_are_zero_or_one() {
    let entries = vec![
        xml_entry("./v/a.xml", sample_xml("ISRC", 30)),
        xml_entry("./v/b.xml", sample_xml("GRid", 3)),
    ];
    let blob = blob_from_dir("./v", true, &entries).unwrap();
    let markers: Vec<u8> = blob.chunks(BYTES_PER_FIELD_ELEMENT).map(|c| c[0]).collect();
    assert!(markers.iter().all(|m| *m == 0 || *m == 1));
    assert_eq!(markers.iter().filter(|m| **m == 1).count(), 2);
}

#[test]
#[should_panic]
fn panic_for_blob_overflow() {
    let mut s = String::from("<?xml version=\"1.0\" encoding=\"UTF-8\"?><root>");
    for i in 0..100000u64 {
        s.push_str(&format!("<item>This is item number {i}</item>"));
    }
    s.push_str("</root>");
    blob_from_file("./tests/temp/file.xml", true, &Some(s.into_bytes())).unwrap();
}

#[test]
fn overflow_leaves_blob_and_cursor() {
    let mut blob = [0u8; BYTES_PER_BLOB];
    let mut cursor = BYTES_PER_BLOB - 10;
    let res = append_to_blob(&mut blob, "big.xml", &sample_xml("ISRC", 3), &mut cursor);
    match res {
        Err(OwCodecError::BlobOverflowError(p)) => assert_eq!(p, "big.xml"),
        _ => panic!("expected BlobOverflowError"),
    }
    assert_eq!(cursor, BYTES_PER_BLOB - 10);
    assert_eq!(blob, [0u8; BYTES_PER_BLOB]);
    let mut cursor = 64;
    append_to_blob(&mut blob, "ok.xml", &sample_xml("ISRC", 3), &mut cursor).unwrap();
    let expected = file_to_vec(&sample_xml("ISRC", 3));
    assert_eq!(cursor, 64 + expected.len());
    assert_eq!(&blob[64..cursor], &expected[..]);
    assert!(blob[..64].iter().all(|b| *b == 0));
}

#[test]
#[should_panic]
fn panic_for_empty_file() {
    validate_xml("./tests/assets/corrupted_xml/empty.xml", b"").unwrap();
}

#[test]
#[should_panic]
fn panic_for_corrupted_xml() {
    validate_xml("./tests/assets/corrupted_xml/corrupted.xml", b"<root><a>text</b></root>").unwrap();
}

#[test]
fn pass_for_valid_xml() {
    validate_xml("./tests/assets/valid_xml/ERN_example_1.xml", &sample_xml("ISRC", 1)).unwrap();
    validate_xml("./tests/assets/valid_xml/ERN_example_2.xml", &sample_xml("GRid", 2)).unwrap();
    validate_xml("./tests/assets/valid_xml/ERN_example_3.xml", &sample_xml("Title", 3)).unwrap();
}

#[test]
fn validation_errors() {
    match validate_xml("e.xml", b"") {
        Err(OwCodecError::EmptyFile(p)) => assert_eq!(p, "e.xml"),
        _ => panic!("expected EmptyFile"),
    }
    match validate_xml("c.xml", b"<root><a>text</b></root>") {
        Err(OwCodecError::CorruptedXmlFile(p)) => assert_eq!(p, "c.xml"),
        _ => panic!("expected CorruptedXmlFile"),
    }
}

#[test]
fn corrupted_file_in_dir_is_reported() {
    let entries = vec![xml_entry("./d/bad.xml", b"<a></b>".to_vec())];
    match blob_from_dir("./d", true, &entries) {
        Err(OwCodecError::CorruptedXmlFile(p)) => assert_eq!(p, "./d/bad.xml"),
        _ => panic!("expected CorruptedXmlFile"),
    }
}

#[test]
fn decode_reports_first_bad_stream() {
    let mut blob = [0u8; BYTES_PER_BLOB];
    let good = file_to_vec(&sample_xml("ISRC", 2));
    blob[..good.len()].copy_from_slice(&good);
    blob[good.len()] = 1;
    for b in blob[good.len() + 1..good.len() + 32].iter_mut() {
        *b = 0xff;
    }
    let err = blob_to_vecs(blob).err().unwrap();
    assert_eq!(err.message_index, 1);
    assert!(blob_to_vecs([0u8; BYTES_PER_BLOB]).unwrap().is_empty());
}

#[test]
fn extension_matches_std_path() {
    let cases = [
        "a/b.xml", "b.xml", ".bashrc", "a.tar.gz", "foo.", "noext", "dir/", "a.xml/", "a.xml/.",
        "a/..", "..", ".", "./", "/", "", "./x.xml", "a//b.XML", "x/.hidden.xml", "a.b/c", "é.xml",
        "a/./b.txt", "..xml", "a/.../b", "...",
    ];
    for p in cases {
        let expected = std::path::Path::new(p).extension().and_then(|e| e.to_str());
        let got = extract_file_extension(p).ok();
        assert_eq!(got, expected, "path {p:?}");
    }
    assert!(is_xml_file("a/b.xml", true));
    assert!(!is_xml_file("a/b.xml", false));
    assert!(!is_xml_file("a/b.XML", true));
    assert!(!is_xml_file("a/xml", true));
}

#[test]
fn codec_error_messages() {
    let p = "x/y.xml".to_string();
    assert_eq!(OwCodecError::FileExtensionExtraction(p.clone()).to_string(), "Error while extracting extension from the file: x/y.xml");
    assert_eq!(OwCodecError::BlobOverflowError(p.clone()).to_string(), "Blob overflow error at: x/y.xml");
    assert_eq!(OwCodecError::NoXmlInFolder(p.clone()).to_string(), "No xml files found at: x/y.xml");
    assert_eq!(OwCodecError::NotADirectory(p.clone()).to_string(), "x/y.xml is not a directory");
    assert_eq!(OwCodecError::NotAnXmlFile(p.clone()).to_string(), "x/y.xml is not an xml file");
    assert_eq!(OwCodecError::EmptyFile(p.clone()).to_string(), "x/y.xml is an empty file");
    assert_eq!(OwCodecError::CorruptedXmlFile(p).to_string(), "x/y.xml is corrupted xml");
}

#[test]
fn single_entry_dir_packs_like_the_file() {
    let xml = sample_xml("ISRC", 12);
    let from_dir = blob_from_dir("./one", true, &vec![xml_entry("./one/m.xml", xml.clone())]).unwrap();
    let from_file = blob_from_file("./one/m.xml", true, &Some(xml)).unwrap();
    assert_eq!(from_dir, from_file);
    match blob_from_dir("./one", true, &vec![xml_entry("./one/e.xml", Vec::new())]) {
        Err(OwCodecError::EmptyFile(p)) => assert_eq!(p, "./one/e.xml"),
        _ => panic!("expected EmptyFile"),
    }
    match blob_from_file("./one/e.xml", true, &Some(Vec::new())) {
        Err(OwCodecError::EmptyFile(p)) => assert_eq!(p, "./one/e.xml"),
        _ => panic!("expected EmptyFile"),
    }
}

#[test]
fn packed_blob_layout() {
    let a = sample_xml("ISRC", 3);
    let b = sample_xml("GRid", 9);
    let entries = vec![xml_entry("./p/a.xml", a.clone()), xml_entry("./p/b.xml", b.clone())];
    let blob = blob_from_dir("./p", true, &entries).unwrap();
    let mut expected = file_to_vec(&a);
    expected.extend_from_slice(&file_to_vec(&b));
    assert_eq!(&blob[..expected.len()], &expected[..]);
    assert!(blob[expected.len()..].iter().all(|x| *x == 0));
}

#[test]
fn padded_stream_shape() {
    for len in [1usize, 30, 31, 32, 61, 62, 63, 100] {
        let data: Vec<u8> = (0..len).map(|i| (i % 251) as u8 + 1).collect();
        let framed = frame_compressed(&data);
        let chunks = (len + 30) / 31;
        assert_eq!(framed.len(), 32 * chunks);
        let mut gathered = Vec::new();
        for (k, chunk) in framed.chunks(32).enumerate() {
            assert_eq!(chunk[0], if k + 1 == chunks { 1 } else { 0 });
            gathered.extend_from_slice(&chunk[1..]);
        }
        assert_eq!(gathered.len() % 31, 0);
        assert!(gathered.len() < len + 31);
        assert_eq!(&gathered[..len], &data[..]);
        assert!(gathered[len..].iter().all(|x| *x == 0));
    }
}
