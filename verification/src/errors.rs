//! The error types of the codec, the data provider and the validator node,
//! with the messages they print.

use vstd::prelude::*;
use vstd::string::*;
use crate::text::{decimal, push_decimal};

verus! {

/// Errors of the blob codec. Each carries the path it concerns.
#[derive(Debug)]
pub enum OwCodecError {
    FileExtensionExtraction(String),
    BlobOverflowError(String),
    NoXmlInFolder(String),
    NotADirectory(String),
    NotAnXmlFile(String),
    EmptyFile(String),
    CorruptedXmlFile(String),
}

/// An [`OwCodecError`] as a mathematical value: its variant and the
/// characters of its path.
pub enum CodecErrorView {
    FileExtensionExtraction(Seq<char>),
    BlobOverflowError(Seq<char>),
    NoXmlInFolder(Seq<char>),
    NotADirectory(Seq<char>),
    NotAnXmlFile(Seq<char>),
    EmptyFile(Seq<char>),
    CorruptedXmlFile(Seq<char>),
}

impl View for OwCodecError {
    type V = CodecErrorView;

    open spec fn view(&self) -> CodecErrorView {
        match self {
            OwCodecError::FileExtensionExtraction(p) => CodecErrorView::FileExtensionExtraction(p@),
            OwCodecError::BlobOverflowError(p) => CodecErrorView::BlobOverflowError(p@),
            OwCodecError::NoXmlInFolder(p) => CodecErrorView::NoXmlInFolder(p@),
            OwCodecError::NotADirectory(p) => CodecErrorView::NotADirectory(p@),
            OwCodecError::NotAnXmlFile(p) => CodecErrorView::NotAnXmlFile(p@),
            OwCodecError::EmptyFile(p) => CodecErrorView::EmptyFile(p@),
            OwCodecError::CorruptedXmlFile(p) => CodecErrorView::CorruptedXmlFile(p@),
        }
    }
}

impl CodecErrorView {
    /// The text that describes the error.
    pub open spec fn message(self) -> Seq<char> {
        match self {
            CodecErrorView::FileExtensionExtraction(p) =>
                "Error while extracting extension from the file: "@ + p,
            CodecErrorView::BlobOverflowError(p) => "Blob overflow error at: "@ + p,
            CodecErrorView::NoXmlInFolder(p) => "No xml files found at: "@ + p,
            CodecErrorView::NotADirectory(p) => p + " is not a directory"@,
            CodecErrorView::NotAnXmlFile(p) => p + " is not an xml file"@,
            CodecErrorView::EmptyFile(p) => p + " is an empty file"@,
            CodecErrorView::CorruptedXmlFile(p) => p + " is corrupted xml"@,
        }
    }
}

fn prefixed(prefix: &str, p: &String) -> (s: String)
    ensures
        s@ == prefix@ + p@,
{
    let mut s = String::from_str(prefix);
    s.append(p.as_str());
    s
}

fn suffixed(p: &String, suffix: &str) -> (s: String)
    ensures
        s@ == p@ + suffix@,
{
    let mut s = p.clone();
    s.append(suffix);
    s
}

impl OwCodecError {
    /// The text that describes the error.
    pub fn to_string(&self) -> (s: String)
        ensures
            s@ == self@.message(),
    {
        match self {
            OwCodecError::FileExtensionExtraction(p) =>
                prefixed("Error while extracting extension from the file: ", p),
            OwCodecError::BlobOverflowError(p) => prefixed("Blob overflow error at: ", p),
            OwCodecError::NoXmlInFolder(p) => prefixed("No xml files found at: ", p),
            OwCodecError::NotADirectory(p) => suffixed(p, " is not a directory"),
            OwCodecError::NotAnXmlFile(p) => suffixed(p, " is not an xml file"),
            OwCodecError::EmptyFile(p) => suffixed(p, " is an empty file"),
            OwCodecError::CorruptedXmlFile(p) => suffixed(p, " is corrupted xml"),
        }
    }
}

/// Errors of the data provider.
#[derive(Debug)]
pub enum OwDataProviderCliError {
    MissingEnvVar(String),
    MissingCliArg(String),
    InvalidBlobProof(),
    SourcePathIsNotDir(String),
    EmptySourcePathFolder(String),
}

/// An [`OwDataProviderCliError`] as a mathematical value.
pub enum ProviderErrorView {
    MissingEnvVar(Seq<char>),
    MissingCliArg(Seq<char>),
    InvalidBlobProof,
    SourcePathIsNotDir(Seq<char>),
    EmptySourcePathFolder(Seq<char>),
}

impl View for OwDataProviderCliError {
    type V = ProviderErrorView;

    open spec fn view(&self) -> ProviderErrorView {
        match self {
            OwDataProviderCliError::MissingEnvVar(v) => ProviderErrorView::MissingEnvVar(v@),
            OwDataProviderCliError::MissingCliArg(a) => ProviderErrorView::MissingCliArg(a@),
            OwDataProviderCliError::InvalidBlobProof() => ProviderErrorView::InvalidBlobProof,
            OwDataProviderCliError::SourcePathIsNotDir(p) => ProviderErrorView::SourcePathIsNotDir(p@),
            OwDataProviderCliError::EmptySourcePathFolder(p) =>
                ProviderErrorView::EmptySourcePathFolder(p@),
        }
    }
}

impl ProviderErrorView {
    /// The text that describes the error.
    pub open spec fn message(self) -> Seq<char> {
        match self {
            ProviderErrorView::MissingEnvVar(v) => "Missing variable in .env file: "@ + v,
            ProviderErrorView::MissingCliArg(a) => "Missing command line argument: "@ + a,
            ProviderErrorView::InvalidBlobProof => "c_kzg error during proof validation"@,
            ProviderErrorView::SourcePathIsNotDir(p) =>
                "Provided folder_path is not a directory: "@ + p,
            ProviderErrorView::EmptySourcePathFolder(p) =>
                "Folder under provided folder_path is empty: "@ + p,
        }
    }
}

impl OwDataProviderCliError {
    /// The text that describes the error.
    pub fn to_string(&self) -> (s: String)
        ensures
            s@ == self@.message(),
    {
        match self {
            OwDataProviderCliError::MissingEnvVar(v) => prefixed("Missing variable in .env file: ", v),
            OwDataProviderCliError::MissingCliArg(a) => prefixed("Missing command line argument: ", a),
            OwDataProviderCliError::InvalidBlobProof() =>
                String::from_str("c_kzg error during proof validation"),
            OwDataProviderCliError::SourcePathIsNotDir(p) =>
                prefixed("Provided folder_path is not a directory: ", p),
            OwDataProviderCliError::EmptySourcePathFolder(p) =>
                prefixed("Folder under provided folder_path is empty: ", p),
        }
    }
}

/// Errors of the validator node.
#[derive(Debug)]
pub enum OwValidatorNodeError {
    BlockNotFound(u64),
    BlockNotFoundInLog(),
    QueueHeadNotFound(),
    FailedToFindBlobSidecar(String),
    InvalidBlobLength(usize),
    InvalidHexStringValue(String),
    ImageFileNotFoundInIpfs(String),
}

/// An [`OwValidatorNodeError`] as a mathematical value.
pub enum ValidatorErrorView {
    BlockNotFound(u64),
    BlockNotFoundInLog,
    QueueHeadNotFound,
    FailedToFindBlobSidecar(Seq<char>),
    InvalidBlobLength(usize),
    InvalidHexStringValue(Seq<char>),
    ImageFileNotFoundInIpfs(Seq<char>),
}

impl View for OwValidatorNodeError {
    type V = ValidatorErrorView;

    open spec fn view(&self) -> ValidatorErrorView {
        match self {
            OwValidatorNodeError::BlockNotFound(n) => ValidatorErrorView::BlockNotFound(*n),
            OwValidatorNodeError::BlockNotFoundInLog() => ValidatorErrorView::BlockNotFoundInLog,
            OwValidatorNodeError::QueueHeadNotFound() => ValidatorErrorView::QueueHeadNotFound,
            OwValidatorNodeError::FailedToFindBlobSidecar(c) =>
                ValidatorErrorView::FailedToFindBlobSidecar(c@),
            OwValidatorNodeError::InvalidBlobLength(n) => ValidatorErrorView::InvalidBlobLength(*n),
            OwValidatorNodeError::InvalidHexStringValue(h) =>
                ValidatorErrorView::InvalidHexStringValue(h@),
            OwValidatorNodeError::ImageFileNotFoundInIpfs(c) =>
                ValidatorErrorView::ImageFileNotFoundInIpfs(c@),
        }
    }
}

impl ValidatorErrorView {
    /// The text that describes the error.
    pub open spec fn message(self) -> Seq<char> {
        match self {
            ValidatorErrorView::BlockNotFound(n) =>
                "Could not fetch the block info for block no: "@ + decimal(n as nat),
            ValidatorErrorView::BlockNotFoundInLog => "Failed to extract block number from log"@,
            ValidatorErrorView::QueueHeadNotFound =>
                "Details about the queue head could not be found"@,
            ValidatorErrorView::FailedToFindBlobSidecar(c) =>
                "Failed to find BlobSidecar in the beacon chain for the commitment: "@ + c,
            ValidatorErrorView::InvalidBlobLength(n) =>
                "Invalid blob length: expected 262146 ( = 131072 * 2 + 2), got: "@
                    + decimal(n as nat),
            ValidatorErrorView::InvalidHexStringValue(h) => "Invalid hex value in blob String: "@ + h,
            ValidatorErrorView::ImageFileNotFoundInIpfs(c) =>
                "Image file not found in IPFS node: "@ + c,
        }
    }
}

impl OwValidatorNodeError {
    /// The text that describes the error.
    pub fn to_string(&self) -> (s: String)
        ensures
            s@ == self@.message(),
    {
        match self {
            OwValidatorNodeError::BlockNotFound(n) => {
                let mut s = String::from_str("Could not fetch the block info for block no: ");
                push_decimal(&mut s, *n);
                s
            },
            OwValidatorNodeError::BlockNotFoundInLog() =>
                String::from_str("Failed to extract block number from log"),
            OwValidatorNodeError::QueueHeadNotFound() =>
                String::from_str("Details about the queue head could not be found"),
            OwValidatorNodeError::FailedToFindBlobSidecar(c) =>
                prefixed("Failed to find BlobSidecar in the beacon chain for the commitment: ", c),
            OwValidatorNodeError::InvalidBlobLength(n) => {
                let mut s = String::from_str(
                    "Invalid blob length: expected 262146 ( = 131072 * 2 + 2), got: ",
                );
                push_decimal(&mut s, *n as u64);
                s
            },
            OwValidatorNodeError::InvalidHexStringValue(h) =>
                prefixed("Invalid hex value in blob String: ", h),
            OwValidatorNodeError::ImageFileNotFoundInIpfs(c) =>
                prefixed("Image file not found in IPFS node: ", c),
        }
    }
}

} // verus!
