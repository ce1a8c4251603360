use ow_protocol::blob::{blob_from_dir, blob_from_file, DirEntryData};
use ow_protocol::errors::OwDataProviderCliError;
use ow_protocol::kzg::{prove_blob, BlobProofError};
use ow_protocol::provider::{attach_cid, select_processed_folders, AssetDirProcessingContext, Config};
use ow_protocol::BYTES_PER_BLOB;

fn args(v: &[&str]) -> Vec<String> {
    v.iter().map(|s| s.to_string()).collect()
}

#[test]
fn config_from_args_and_env() {
    let c = Config::build(args(&["cli", "./dir"]), Some("http://rpc".to_string()), Some("SECRET-REDACTED".to_string())).unwrap();
    assert_eq!(c.folder_path, "./dir");
    assert_eq!(c.rpc_url, "http://rpc");
    assert_eq!(c.private_key, "SECRET-REDACTED");
    match Config::build(args(&["cli"]), Some("r".to_string()), Some("k".to_string())) {
        Err(OwDataProviderCliError::MissingCliArg(a)) => assert_eq!(a, "folder path"),
        _ => panic!("expected MissingCliArg"),
    }
    match Config::build(args(&["cli", "d"]), None, None) {
        Err(OwDataProviderCliError::MissingEnvVar(v)) => assert_eq!(v, "RPC_URL"),
        _ => panic!("expected MissingEnvVar"),
    }
    match Config::build(args(&["cli", "d"]), Some("r".to_string()), None) {
        Err(OwDataProviderCliError::MissingEnvVar(v)) => assert_eq!(v, "PRIVATE_KEY"),
        _ => panic!("expected MissingEnvVar"),
    }
}

const PNG_HEADER: [u8; 16] = [0x89, 0x50, 0x4E, 0x47, 0x0D, 0x0A, 0x1A, 0x0A, 0, 0, 0, 13, 0x49, 0x48, 0x44, 0x52];

#[test]
fn asset_folder_context() {
    let mut ctx = AssetDirProcessingContext::new();
    assert!(ctx.empty);
    assert!(!ctx.observe_file("f/unknown.bin", &[1, 2, 3]));
    assert!(ctx.observe_file("f/cover.png", &PNG_HEADER));
    assert_eq!(ctx.input_image_path, "f/cover.png");
    assert!(!ctx.observe_file("f/msg.xml", b"<?xml version=\"1.0\"?><a/>"));
    assert_eq!(ctx.input_xml_path, "f/msg.xml");
    assert!(!ctx.finish(3));
    assert!(ctx.empty);
    ctx.record_image_cid("QmCid".to_string());
    assert!(ctx.finish(3));
    assert!(!ctx.empty);
    assert_eq!(ctx.output_xml_path, "./output_files/3.xml");
    assert_eq!(ctx.image_cid, "QmCid");
}

#[test]
fn processed_folder_selection() {
    let mut full = AssetDirProcessingContext::new();
    full.empty = false;
    let picked = select_processed_folders("./in", true, vec![AssetDirProcessingContext::new(), full]).unwrap();
    assert_eq!(picked.len(), 1);
    assert!(!picked[0].empty);
    match select_processed_folders("./in", true, vec![AssetDirProcessingContext::new()]) {
        Err(OwDataProviderCliError::EmptySourcePathFolder(p)) => assert_eq!(p, "./in"),
        _ => panic!("expected EmptySourcePathFolder"),
    }
    match select_processed_folders("./in", false, vec![]) {
        Err(OwDataProviderCliError::SourcePathIsNotDir(p)) => assert_eq!(p, "./in"),
        _ => panic!("expected SourcePathIsNotDir"),
    }
}

#[test]
fn cid_is_inserted_after_message_header() {
    let xml = b"<?xml version=\"1.0\"?><NewReleaseMessage><MessageHeader><Id>1</Id></MessageHeader><!-- c --><Empty/></NewReleaseMessage>";
    let out = attach_cid(xml, "Qm<&>");
    assert!(out.complete);
    assert_eq!(
        String::from_utf8(out.xml).unwrap(),
        "<NewReleaseMessage><MessageHeader><ImageIpfsCid>Qm&lt;&amp;&gt;</ImageIpfsCid><Id>1</Id></MessageHeader></NewReleaseMessage>"
    );
    let broken = attach_cid(b"<MessageHeader><a></b>", "Qm");
    assert!(!broken.complete);
    assert_eq!(String::from_utf8(broken.xml).unwrap(), "<MessageHeader><ImageIpfsCid>Qm</ImageIpfsCid><a>");
}

#[test]
fn provider_error_messages() {
    assert_eq!(OwDataProviderCliError::MissingEnvVar("RPC_URL".to_string()).to_string(), "Missing variable in .env file: RPC_URL");
    assert_eq!(OwDataProviderCliError::MissingCliArg("folder path".to_string()).to_string(), "Missing command line argument: folder path");
    assert_eq!(OwDataProviderCliError::InvalidBlobProof().to_string(), "c_kzg error during proof validation");
    assert_eq!(OwDataProviderCliError::SourcePathIsNotDir("p".to_string()).to_string(), "Provided folder_path is not a directory: p");
    assert_eq!(OwDataProviderCliError::EmptySourcePathFolder("p".to_string()).to_string(), "Folder under provided folder_path is empty: p");
}

#[test]
fn pass_kzg_verification_file() {
    let xml = b"<?xml version=\"1.0\"?><NewReleaseMessage><ISRC>X</ISRC></NewReleaseMessage>".to_vec();
    let blob = blob_from_file("./tests/assets/valid_xml/ERN_example_1.xml", true, &Some(xml)).unwrap();
    let proof = match prove_blob(&blob) {
        Ok(p) => p,
        Err(BlobProofError::Kzg(e)) => panic!("kzg error {e:?}"),
        Err(BlobProofError::InvalidProof(e)) => panic!("invalid proof {e:?}"),
    };
    let settings = c_kzg::ethereum_kzg_settings();
    let kzg_blob = c_kzg::Blob::new(blob);
    let commitment = c_kzg::KzgCommitment::blob_to_kzg_commitment(&kzg_blob, settings).unwrap();
    assert_eq!(commitment.to_bytes().into_inner(), proof.commitment);
    let is_valid = c_kzg::KzgProof::verify_blob_kzg_proof(
        &kzg_blob,
        &c_kzg::Bytes48::from(proof.commitment),
        &c_kzg::Bytes48::from(proof.proof),
        settings,
    )
    .unwrap();
    assert!(is_valid);
    assert_eq!(BYTES_PER_BLOB, 131072);
}

#[test]
fn pass_kzg_verification_dir() {
    let entries = vec![
        DirEntryData { path: "./v/a.xml".to_string(), is_file: true, contents: Some(b"<a><ISRC>1</ISRC></a>".to_vec()) },
        DirEntryData { path: "./v/b.xml".to_string(), is_file: true, contents: Some(b"<b><GRid>2</GRid></b>".to_vec()) },
    ];
    let blob = blob_from_dir("./v", true, &entries).unwrap();
    let proof = match prove_blob(&blob) {
        Ok(p) => p,
        Err(_) => panic!("expected a verified proof"),
    };
    let is_valid = c_kzg::KzgProof::verify_blob_kzg_proof(
        &c_kzg::Blob::new(blob),
        &c_kzg::Bytes48::from(proof.commitment),
        &c_kzg::Bytes48::from(proof.proof),
        c_kzg::ethereum_kzg_settings(),
    )
    .unwrap();
    assert!(is_valid);
}

#[test]
fn non_canonical_blob_is_refused_by_kzg() {
    let blob = [0xffu8; BYTES_PER_BLOB];
    assert!(matches!(prove_blob(&blob), Err(BlobProofError::Kzg(_))));
    let mut small = [0u8; BYTES_PER_BLOB];
    small[0] = 0x72;
    small[5] = 0xff;
    assert!(prove_blob(&small).is_ok());
}
