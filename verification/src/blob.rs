//! Packing XML files into one blob.

use vstd::prelude::*;
use vstd::string::*;
use crate::BYTES_PER_BLOB;
use crate::encoder::{encoded_file, file_to_vec, inflates_back, zeros};
use crate::decoder::blob_streams;
use crate::deflate::inflated;
use crate::laws::{law_dir_contents_roundtrip, law_file_contents_roundtrip, packed_contents};
use crate::errors::{CodecErrorView, OwCodecError};
use crate::path::{extension, extract_file_extension};
use crate::xml::{read_xml_events, xml_events};

verus! {

/// The extension that marks the files the codec packs.
pub open spec fn xml_ext() -> Seq<char> {
    seq!['x', 'm', 'l']
}

fn is_xml_ext(ext: &str) -> (r: bool)
    ensures
        r == (ext@ == xml_ext()),
{
    let n = ext.unicode_len();
    if n == 3 {
        let a = ext.get_char(0);
        let b = ext.get_char(1);
        let c = ext.get_char(2);
        if a == 'x' && b == 'm' && c == 'l' {
            assert(ext@ == xml_ext());
            true
        } else {
            false
        }
    } else {
        false
    }
}

/// Whether an entry at `path` is one that the codec packs: a file whose
/// extension is `xml`.
pub open spec fn spec_is_xml_file(path: Seq<char>, is_file: bool) -> bool {
    is_file && extension(path) == Some(xml_ext())
}

/// Tells whether the codec packs an entry at `path`: it is a file and its
/// extension is `xml`. The caller reads the contents of these entries only.
pub fn is_xml_file(path: &str, is_file: bool) -> (r: bool)
    ensures
        r == spec_is_xml_file(path@, is_file),
{
    if !is_file {
        return false;
    }
    match extract_file_extension(path) {
        Ok(ext) => is_xml_ext(ext),
        Err(_) => false,
    }
}

/// The check that the codec makes of an XML file before packing it: the
/// file is not empty, and `quick_xml` reads it to its end without an error.
pub open spec fn spec_validate_xml(path: Seq<char>, contents: Seq<u8>) -> Result<(), CodecErrorView> {
    if contents.len() == 0 {
        Err(CodecErrorView::EmptyFile(path))
    } else if !xml_events(contents).1 {
        Err(CodecErrorView::CorruptedXmlFile(path))
    } else {
        Ok(())
    }
}

/// Checks an XML file before it is packed: `EmptyFile` when it is empty,
/// `CorruptedXmlFile` when `quick_xml` reports an error before its end.
pub fn validate_xml(path: &str, contents: &[u8]) -> (res: Result<(), OwCodecError>)
    ensures
        match res {
            Ok(()) => spec_validate_xml(path@, contents@) == Ok::<(), CodecErrorView>(()),
            Err(e) => spec_validate_xml(path@, contents@) == Err::<(), CodecErrorView>(e@),
        },
{
    if contents.len() == 0 {
        return Err(OwCodecError::EmptyFile(path.to_owned()));
    }
    let readout = read_xml_events(contents);
    if !readout.complete {
        return Err(OwCodecError::CorruptedXmlFile(path.to_owned()));
    }
    Ok(())
}

/// `blob` with `bytes` written from position `at` on.
pub open spec fn splice(blob: Seq<u8>, at: int, bytes: Seq<u8>) -> Seq<u8> {
    blob.take(at) + bytes + blob.skip(at + bytes.len())
}

/// Adding one file to a blob filled up to `cursor`: the new blob and cursor,
/// or `BlobOverflowError` when the encoded file does not fit.
pub open spec fn spec_append(blob: Seq<u8>, cursor: nat, path: Seq<char>, contents: Seq<u8>)
    -> Result<(Seq<u8>, nat), CodecErrorView>
{
    let enc = encoded_file(contents);
    if cursor + enc.len() > BYTES_PER_BLOB {
        Err(CodecErrorView::BlobOverflowError(path))
    } else {
        Ok((splice(blob, cursor as int, enc), cursor + enc.len()))
    }
}

/// Encodes `contents` and writes it into the blob at `cursor`, advancing the
/// cursor past it. When it does not fit, returns `BlobOverflowError` with the
/// path and leaves the blob and the cursor as they were.
pub fn append_to_blob(
    kzg_blob: &mut [u8; BYTES_PER_BLOB],
    path: &str,
    contents: &[u8],
    cursor: &mut usize,
) -> (res: Result<(), OwCodecError>)
    ensures
        inflates_back(contents@),
        match spec_append(old(kzg_blob)@, *old(cursor) as nat, path@, contents@) {
            Ok((b, c)) => res is Ok && final(kzg_blob)@ == b && *final(cursor) == c,
            Err(e) => res matches Err(r) && r@ == e
                && final(kzg_blob)@ == old(kzg_blob)@ && *final(cursor) == *old(cursor),
        },
{
    let compressed_xml = file_to_vec(contents);
    let len = compressed_xml.len();
    if *cursor > BYTES_PER_BLOB || len > BYTES_PER_BLOB - *cursor {
        return Err(OwCodecError::BlobOverflowError(path.to_owned()));
    }
    let start = *cursor;
    let ghost before = kzg_blob@;
    let mut k: usize = 0;
    while k < len
        invariant
            k <= len,
            len == compressed_xml@.len(),
            start + len <= BYTES_PER_BLOB,
            kzg_blob@.len() == BYTES_PER_BLOB,
            before.len() == BYTES_PER_BLOB,
            forall|i: int| 0 <= i < start ==> #[trigger] kzg_blob@[i] == before[i],
            forall|i: int| start <= i < start + k ==> #[trigger] kzg_blob@[i] == compressed_xml@[i - start],
            forall|i: int| start + k <= i < BYTES_PER_BLOB ==> #[trigger] kzg_blob@[i] == before[i],
        decreases len - k,
    {
        kzg_blob[start + k] = compressed_xml[k];
        k = k + 1;
    }
    assert(kzg_blob@ =~= splice(before, start as int, compressed_xml@));
    *cursor = start + len;
    Ok(())
}

/// Validating and adding one XML file.
pub open spec fn spec_add_file(blob: Seq<u8>, cursor: nat, path: Seq<char>, contents: Seq<u8>)
    -> Result<(Seq<u8>, nat), CodecErrorView>
{
    match spec_validate_xml(path, contents) {
        Err(e) => Err(e),
        Ok(()) => spec_append(blob, cursor, path, contents),
    }
}

/// The view of optional file contents.
pub open spec fn bytes_view(contents: Option<Vec<u8>>) -> Option<Seq<u8>> {
    match contents {
        Some(c) => Some(c@),
        None => None,
    }
}

/// An empty blob.
pub open spec fn empty_blob() -> Seq<u8> {
    zeros(BYTES_PER_BLOB as nat)
}

fn new_blob() -> (blob: [u8; BYTES_PER_BLOB])
    ensures
        blob@ == empty_blob(),
{
    let blob = [0u8; BYTES_PER_BLOB];
    assert(blob@ =~= empty_blob());
    blob
}

/// Packing a single file: it must have an extension, be a file and have the
/// extension `xml`, be a valid XML file, and fit.
pub open spec fn spec_blob_from_file(path: Seq<char>, is_file: bool, contents: Option<Seq<u8>>)
    -> Result<Seq<u8>, CodecErrorView>
{
    match extension(path) {
        None => Err(CodecErrorView::FileExtensionExtraction(path)),
        Some(ext) => if is_file && ext == xml_ext() {
            match spec_add_file(empty_blob(), 0, path, contents.unwrap()) {
                Ok((b, _)) => Ok(b),
                Err(e) => Err(e),
            }
        } else {
            Err(CodecErrorView::NotAnXmlFile(path))
        },
    }
}

/// Packs the single XML file at `path` into a blob. `is_file` tells whether
/// the path names a file, and `contents` holds its bytes, which the caller
/// reads where [`is_xml_file`] holds.
pub fn blob_from_file(path: &str, is_file: bool, contents: &Option<Vec<u8>>)
    -> (res: Result<[u8; BYTES_PER_BLOB], OwCodecError>)
    requires
        spec_is_xml_file(path@, is_file) ==> contents is Some,
    ensures
        match res {
            Ok(b) => spec_blob_from_file(path@, is_file, bytes_view(*contents)) == Ok::<
                Seq<u8>,
                CodecErrorView,
            >(b@),
            Err(e) => spec_blob_from_file(path@, is_file, bytes_view(*contents)) == Err::<
                Seq<u8>,
                CodecErrorView,
            >(e@),
        },
        res matches Ok(b) ==> blob_streams(b@).len() == 1
            && inflated(blob_streams(b@)[0]) == bytes_view(*contents),
{
    let mut kzg_blob = new_blob();
    let mut blob_cursor: usize = 0;
    let file_extension = match extract_file_extension(path) {
        Ok(ext) => ext,
        Err(e) => return Err(e),
    };
    if is_file && is_xml_ext(file_extension) {
        let bytes = match contents {
            Some(c) => c.as_slice(),
            None => return Err(OwCodecError::NotAnXmlFile(path.to_owned())),
        };
        match validate_xml(path, bytes) {
            Ok(()) => {},
            Err(e) => return Err(e),
        }
        match append_to_blob(&mut kzg_blob, path, bytes, &mut blob_cursor) {
            Ok(()) => {},
            Err(e) => return Err(e),
        }
        proof {
            law_file_contents_roundtrip(path@, is_file, bytes@);
        }
        Ok(kzg_blob)
    } else {
        Err(OwCodecError::NotAnXmlFile(path.to_owned()))
    }
}

/// One entry of a directory: its path, whether it is a file, and its
/// contents where the codec packs it (see [`is_xml_file`]).
pub struct DirEntryData {
    pub path: String,
    pub is_file: bool,
    pub contents: Option<Vec<u8>>,
}

/// A [`DirEntryData`] as a mathematical value.
pub struct DirEntryView {
    pub path: Seq<char>,
    pub is_file: bool,
    pub contents: Option<Seq<u8>>,
}

impl View for DirEntryData {
    type V = DirEntryView;

    open spec fn view(&self) -> DirEntryView {
        DirEntryView { path: self.path@, is_file: self.is_file, contents: bytes_view(self.contents) }
    }
}

/// The entries of a directory, each as its view.
pub open spec fn entries_view(entries: Seq<DirEntryData>) -> Seq<DirEntryView> {
    entries.map_values(|e: DirEntryData| e@)
}

/// The state of packing a directory: the blob so far, its cursor, and
/// whether an XML file was packed.
pub type DirState = Result<(Seq<u8>, nat, bool), CodecErrorView>;

/// Processing one entry: every entry must have an extension; the XML files
/// among them are validated and added in turn; the first failure stops it.
pub open spec fn spec_dir_step(state: DirState, e: DirEntryView) -> DirState {
    match state {
        Err(err) => Err(err),
        Ok((blob, cursor, found)) => match extension(e.path) {
            None => Err(CodecErrorView::FileExtensionExtraction(e.path)),
            Some(ext) => if e.is_file && ext == xml_ext() {
                match spec_add_file(blob, cursor, e.path, e.contents.unwrap()) {
                    Ok((b, c)) => Ok((b, c, true)),
                    Err(err) => Err(err),
                }
            } else {
                Ok((blob, cursor, found))
            },
        },
    }
}

/// Processing the first `n` entries, starting from an empty blob.
pub open spec fn spec_dir_fold(entries: Seq<DirEntryView>, n: nat) -> DirState
    decreases n,
{
    if n == 0 {
        Ok((empty_blob(), 0, false))
    } else {
        spec_dir_step(spec_dir_fold(entries, (n - 1) as nat), entries[n - 1])
    }
}

/// Packing a directory: it must be a directory, every entry must have an
/// extension, and at least one XML file must be packed.
pub open spec fn spec_blob_from_dir(dir: Seq<char>, is_dir: bool, entries: Seq<DirEntryView>)
    -> Result<Seq<u8>, CodecErrorView>
{
    if !is_dir {
        Err(CodecErrorView::NotADirectory(dir))
    } else {
        match spec_dir_fold(entries, entries.len()) {
            Err(e) => Err(e),
            Ok((blob, _, found)) => if found {
                Ok(blob)
            } else {
                Err(CodecErrorView::NoXmlInFolder(dir))
            },
        }
    }
}

/// Once packing has failed, later entries do not change the failure.
pub proof fn lemma_dir_fold_error_stays(entries: Seq<DirEntryView>, m: nat, n: nat)
    requires
        m <= n,
        spec_dir_fold(entries, m) is Err,
    ensures
        spec_dir_fold(entries, n) == spec_dir_fold(entries, m),
    decreases n - m,
{
    if m < n {
        lemma_dir_fold_error_stays(entries, m, (n - 1) as nat);
    }
}

/// Packs the XML files among the entries of the directory `dir_path`, in
/// order, into one blob. `is_dir` tells whether the path names a directory;
/// each entry carries its contents where [`is_xml_file`] holds of it.
pub fn blob_from_dir(dir_path: &str, is_dir: bool, entries: &Vec<DirEntryData>)
    -> (res: Result<[u8; BYTES_PER_BLOB], OwCodecError>)
    requires
        forall|i: int| 0 <= i < entries.len()
            ==> spec_is_xml_file(entries@[i].path@, #[trigger] entries@[i].is_file)
            ==> entries@[i].contents is Some,
    ensures
        match res {
            Ok(b) => spec_blob_from_dir(dir_path@, is_dir, entries_view(entries@)) == Ok::<
                Seq<u8>,
                CodecErrorView,
            >(b@),
            Err(e) => spec_blob_from_dir(dir_path@, is_dir, entries_view(entries@)) == Err::<
                Seq<u8>,
                CodecErrorView,
            >(e@),
        },
        res matches Ok(b) ==> ({
            let fs = packed_contents(entries_view(entries@));
            &&& blob_streams(b@).len() == fs.len()
            &&& forall|j: int| 0 <= j < fs.len() ==> inflated(#[trigger] blob_streams(b@)[j]) == Some(fs[j])
        }),
{
    if !is_dir {
        return Err(OwCodecError::NotADirectory(dir_path.to_owned()));
    }
    let ghost views = entries_view(entries@);
    let mut kzg_blob = new_blob();
    let mut blob_cursor: usize = 0;
    let mut empty_folder = true;
    let n = entries.len();
    let mut i: usize = 0;
    while i < n
        invariant
            is_dir,
            n == entries.len(),
            i <= n,
            views == entries_view(entries@),
            forall|j: int| 0 <= j < entries.len()
                ==> spec_is_xml_file(entries@[j].path@, #[trigger] entries@[j].is_file)
                ==> entries@[j].contents is Some,
            spec_dir_fold(views, i as nat) == Ok::<(Seq<u8>, nat, bool), CodecErrorView>(
                (kzg_blob@, blob_cursor as nat, !empty_folder),
            ),
            forall|j: int| 0 <= j < packed_contents(views.take(i as int)).len()
                ==> #[trigger] inflates_back(packed_contents(views.take(i as int))[j]),
        decreases n - i,
    {
        let entry = &entries[i];
        assert(views[i as int] == entry@);
        let ghost before = packed_contents(views.take(i as int));
        assert(views.take(i + 1).drop_last() =~= views.take(i as int));
        assert(views.take(i + 1).last() == entry@);
        let file_extension = match extract_file_extension(entry.path.as_str()) {
            Ok(ext) => ext,
            Err(e) => {
                proof { lemma_dir_fold_error_stays(views, (i + 1) as nat, n as nat); }
                return Err(e);
            },
        };
        if entry.is_file && is_xml_ext(file_extension) {
            let bytes = match &entry.contents {
                Some(c) => c.as_slice(),
                None => {
                    assert(false);
                    return Err(OwCodecError::NotAnXmlFile(entry.path.clone()));
                },
            };
            assert(entry@.contents == Some(bytes@));
            match validate_xml(entry.path.as_str(), bytes) {
                Ok(()) => {},
                Err(e) => {
                    proof { lemma_dir_fold_error_stays(views, (i + 1) as nat, n as nat); }
                    return Err(e);
                },
            }
            match append_to_blob(&mut kzg_blob, entry.path.as_str(), bytes, &mut blob_cursor) {
                Ok(()) => {},
                Err(e) => {
                    proof { lemma_dir_fold_error_stays(views, (i + 1) as nat, n as nat); }
                    return Err(e);
                },
            }
            empty_folder = false;
            assert(packed_contents(views.take(i + 1)) == before.push(bytes@));
            assert forall|j: int| 0 <= j < packed_contents(views.take(i + 1)).len()
                implies #[trigger] inflates_back(packed_contents(views.take(i + 1))[j]) by {
                if j < before.len() {
                    assert(packed_contents(views.take(i + 1))[j] == before[j]);
                }
            }
        } else {
            assert(packed_contents(views.take(i + 1)) == before);
        }
        i = i + 1;
    }
    if empty_folder {
        return Err(OwCodecError::NoXmlInFolder(dir_path.to_owned()));
    }
    proof {
        assert(views.take(n as int) =~= views);
        law_dir_contents_roundtrip(dir_path@, is_dir, views);
    }
    Ok(kzg_blob)
}

} // verus!
