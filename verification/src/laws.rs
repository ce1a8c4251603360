//! What decoding gives back of what the codec packed.

use vstd::prelude::*;
use crate::BYTES_PER_BLOB;
use crate::blob::{
    empty_blob, spec_append, spec_blob_from_dir, spec_blob_from_file, spec_dir_fold, spec_is_xml_file,
    spec_validate_xml, splice, xml_ext, DirEntryView,
};
use crate::errors::CodecErrorView;
use crate::decoder::{blob_streams, field_elements, marker, payload, payload_concat, split_streams};
use crate::deflate::{deflated, inflated};
use crate::encoder::{encoded_file, inflates_back, spec_frame, zeros, COMPRESSION_LEVEL};
use crate::kzg::leading_bytes_small;
use crate::path::extension;

verus! {

/// A compressed stream as the decoder gathers it back from its field
/// elements: the stream followed by the zeros that pad its last chunk to 31
/// bytes.
pub open spec fn padded(s: Seq<u8>) -> Seq<u8>
    decreases s.len(),
{
    if s.len() <= 31 {
        s + zeros((31 - s.len()) as nat)
    } else {
        s.take(31) + padded(s.skip(31))
    }
}

/// Number of field elements that the framing of `s` fills.
pub open spec fn frame_elems(s: Seq<u8>) -> nat
    decreases s.len(),
{
    if s.len() == 0 {
        0
    } else if s.len() <= 31 {
        1
    } else {
        1 + frame_elems(s.skip(31))
    }
}

/// The framing of `s` fills whole field elements.
pub proof fn lemma_frame_len(s: Seq<u8>)
    ensures
        spec_frame(s).len() == 32 * frame_elems(s),
    decreases s.len(),
{
    if s.len() > 31 {
        lemma_frame_len(s.skip(31));
    }
}

/// The streams of the XML files that packing a directory adds, in order.
pub open spec fn packed_contents(es: Seq<DirEntryView>) -> Seq<Seq<u8>>
    decreases es.len(),
{
    if es.len() == 0 {
        seq![]
    } else {
        let prev = packed_contents(es.drop_last());
        let e = es.last();
        if spec_is_xml_file(e.path, e.is_file) {
            prev.push(e.contents.unwrap())
        } else {
            prev
        }
    }
}

/// The encodings of `fs`, one after the other.
pub open spec fn encoded_all(fs: Seq<Seq<u8>>) -> Seq<u8>
    decreases fs.len(),
{
    if fs.len() == 0 {
        seq![]
    } else {
        encoded_all(fs.drop_last()) + encoded_file(fs.last())
    }
}

/// Number of field elements that the encodings of `fs` fill.
pub open spec fn total_elems(fs: Seq<Seq<u8>>) -> nat
    decreases fs.len(),
{
    if fs.len() == 0 {
        0
    } else {
        total_elems(fs.drop_last()) + frame_elems(deflated(fs.last(), COMPRESSION_LEVEL))
    }
}

proof fn lemma_encoded_all_len(fs: Seq<Seq<u8>>)
    ensures
        encoded_all(fs).len() == 32 * total_elems(fs),
    decreases fs.len(),
{
    if fs.len() > 0 {
        lemma_encoded_all_len(fs.drop_last());
        lemma_frame_len(deflated(fs.last(), COMPRESSION_LEVEL));
    }
}

/// After a directory's first `n` entries, the blob holds the encodings of
/// the XML files among them, followed by zeros.
proof fn lemma_dir_fold_shape(es: Seq<DirEntryView>, n: nat)
    requires
        n <= es.len(),
    ensures
        spec_dir_fold(es, n) matches Ok((b, c, found)) ==> {
            let fs = packed_contents(es.take(n as int));
            &&& c == encoded_all(fs).len()
            &&& c <= BYTES_PER_BLOB
            &&& b == encoded_all(fs) + zeros((BYTES_PER_BLOB - c) as nat)
            &&& found == (fs.len() > 0)
        },
    decreases n,
{
    if n == 0 {
        assert(es.take(0) =~= Seq::<DirEntryView>::empty());
        assert(empty_blob() =~= Seq::<u8>::empty() + zeros(BYTES_PER_BLOB as nat));
    } else {
        lemma_dir_fold_shape(es, (n - 1) as nat);
        assert(es.take(n as int).drop_last() =~= es.take(n - 1));
        assert(es.take(n as int).last() == es[n - 1]);
        if let Ok((b, c, found)) = spec_dir_fold(es, n) {
            let fs0 = packed_contents(es.take(n - 1));
            let e = es[n - 1];
            let (b0, c0, f0) = spec_dir_fold(es, (n - 1) as nat)->Ok_0;
            if e.is_file && extension(e.path) == Some(xml_ext()) {
                let enc = encoded_file(e.contents.unwrap());
                let fs = fs0.push(e.contents.unwrap());
                assert(fs.drop_last() =~= fs0);
                assert(b == splice(b0, c0 as int, enc));
                assert(b =~= encoded_all(fs) + zeros((BYTES_PER_BLOB - c) as nat));
            }
        }
    }
}

/// Reading the field elements that hold the framing of `s`, after `a`
/// elements that left `pend` gathered, completes one stream: `pend` followed
/// by `s` padded.
proof fn lemma_split_frame(blob: Seq<u8>, a: nat, s: Seq<u8>)
    requires
        s.len() > 0,
        32 * a + spec_frame(s).len() <= blob.len(),
        blob.subrange(32 * a as int, (32 * a + spec_frame(s).len()) as int) == spec_frame(s),
    ensures
        ({
            let (done, pend) = split_streams(blob, a);
            split_streams(blob, a + frame_elems(s)) == (done.push(pend + padded(s)), Seq::<u8>::empty())
        }),
    decreases s.len(),
{
    lemma_frame_len(s);
    let f = spec_frame(s);
    assert(marker(blob, a as int) == f[0]);
    assert(payload(blob, a as int) =~= f.subrange(1, 32));
    let (done, pend) = split_streams(blob, a);
    if s.len() <= 31 {
        assert(f.subrange(1, 32) =~= s + zeros((31 - s.len()) as nat));
        assert(pend + padded(s) =~= pend + payload(blob, a as int));
    } else {
        let rest = s.skip(31);
        lemma_frame_len(rest);
        assert(f.subrange(1, 32) =~= s.take(31));
        assert(split_streams(blob, a + 1) == (done, pend + s.take(31)));
        assert(blob.subrange(32 * (a + 1) as int, (32 * (a + 1) + spec_frame(rest).len()) as int)
            =~= spec_frame(rest)) by {
            assert(f.subrange(32, f.len() as int) =~= spec_frame(rest));
        }
        lemma_split_frame(blob, a + 1, rest);
        assert(pend + s.take(31) + padded(rest) =~= pend + padded(s));
    }
}

/// Field elements whose marker is not 1 complete no stream.
proof fn lemma_split_unmarked(blob: Seq<u8>, a: nat, n: nat)
    requires
        a <= n,
        forall|i: int| a <= i < n ==> #[trigger] marker(blob, i) != 1,
    ensures
        split_streams(blob, n).0 == split_streams(blob, a).0,
    decreases n - a,
{
    if a < n {
        lemma_split_unmarked(blob, a, (n - 1) as nat);
    }
}

/// A blob that begins with the encodings of `fs` carries, after their field
/// elements, exactly their streams, each padded.
proof fn lemma_split_encoded_all(blob: Seq<u8>, fs: Seq<Seq<u8>>)
    requires
        forall|i: int| 0 <= i < fs.len() ==> (#[trigger] deflated(fs[i], COMPRESSION_LEVEL)).len() > 0,
        encoded_all(fs).len() <= blob.len(),
        blob.take(encoded_all(fs).len() as int) == encoded_all(fs),
    ensures
        split_streams(blob, total_elems(fs)) == (
            fs.map_values(|f: Seq<u8>| padded(deflated(f, COMPRESSION_LEVEL))),
            Seq::<u8>::empty(),
        ),
    decreases fs.len(),
{
    lemma_encoded_all_len(fs);
    if fs.len() == 0 {
        assert(fs.map_values(|f: Seq<u8>| padded(deflated(f, COMPRESSION_LEVEL))) =~= Seq::<Seq<u8>>::empty());
    } else {
        let prev = fs.drop_last();
        let d = deflated(fs.last(), COMPRESSION_LEVEL);
        lemma_encoded_all_len(prev);
        let plen = encoded_all(prev).len();
        assert(blob.take(plen as int) =~= encoded_all(prev)) by {
            assert(encoded_all(fs).take(plen as int) =~= encoded_all(prev));
        }
        assert forall|i: int| 0 <= i < prev.len() implies (#[trigger] deflated(prev[i], COMPRESSION_LEVEL)).len() > 0 by {
            assert(prev[i] == fs[i]);
        }
        lemma_split_encoded_all(blob, prev);
        assert(d.len() > 0) by {
            assert(fs.last() == fs[fs.len() - 1]);
        }
        assert(blob.subrange(32 * total_elems(prev) as int, (32 * total_elems(prev) + spec_frame(d).len()) as int)
            =~= spec_frame(d)) by {
            assert(encoded_all(fs).subrange(plen as int, encoded_all(fs).len() as int) =~= spec_frame(d));
        }
        lemma_split_frame(blob, total_elems(prev), d);
        assert(fs.map_values(|f: Seq<u8>| padded(deflated(f, COMPRESSION_LEVEL)))
            =~= prev.map_values(|f: Seq<u8>| padded(deflated(f, COMPRESSION_LEVEL))).push(padded(d)));
        assert(Seq::<u8>::empty() + padded(d) =~= padded(d));
    }
}

/// The streams of a blob that holds the encodings of `fs` followed by zeros.
proof fn lemma_streams_of_encoded(fs: Seq<Seq<u8>>, blob: Seq<u8>)
    requires
        forall|i: int| 0 <= i < fs.len() ==> (#[trigger] deflated(fs[i], COMPRESSION_LEVEL)).len() > 0,
        encoded_all(fs).len() <= BYTES_PER_BLOB,
        blob == encoded_all(fs) + zeros((BYTES_PER_BLOB - encoded_all(fs).len()) as nat),
    ensures
        blob_streams(blob) == fs.map_values(|f: Seq<u8>| padded(deflated(f, COMPRESSION_LEVEL))),
{
    let e = encoded_all(fs);
    lemma_encoded_all_len(fs);
    assert(blob.take(e.len() as int) =~= e);
    lemma_split_encoded_all(blob, fs);
    assert forall|i: int| total_elems(fs) <= i < field_elements() implies #[trigger] marker(blob, i) != 1 by {
        assert(blob[32 * i] == 0u8);
    }
    lemma_split_unmarked(blob, total_elems(fs), field_elements());
}

/// Law: decoding gives back what packing a directory put in. When packing
/// the XML files of a directory succeeds, the blob carries exactly one
/// stream per packed file, in the order of the entries: the file's DEFLATE
/// stream, padded with zeros to whole chunks. [`crate::decoder::blob_to_vecs`]
/// hands back what the decompressor makes of each of these streams.
pub proof fn law_dir_roundtrip(dir: Seq<char>, is_dir: bool, es: Seq<DirEntryView>)
    requires
        spec_blob_from_dir(dir, is_dir, es) is Ok,
        forall|i: int| 0 <= i < packed_contents(es).len()
            ==> (#[trigger] deflated(packed_contents(es)[i], COMPRESSION_LEVEL)).len() > 0,
    ensures
        blob_streams(spec_blob_from_dir(dir, is_dir, es)->Ok_0)
            == packed_contents(es).map_values(|f: Seq<u8>| padded(deflated(f, COMPRESSION_LEVEL))),
        packed_contents(es).len() > 0,
{
    lemma_dir_fold_shape(es, es.len());
    assert(es.take(es.len() as int) =~= es);
    let fs = packed_contents(es);
    lemma_streams_of_encoded(fs, spec_blob_from_dir(dir, is_dir, es)->Ok_0);
}

/// Law: decoding gives back what packing a single file put in. When packing
/// one XML file succeeds, the blob carries exactly one stream: the file's
/// DEFLATE stream, padded with zeros to whole chunks.
pub proof fn law_file_roundtrip(path: Seq<char>, is_file: bool, contents: Seq<u8>)
    requires
        spec_blob_from_file(path, is_file, Some(contents)) is Ok,
        deflated(contents, COMPRESSION_LEVEL).len() > 0,
    ensures
        blob_streams(spec_blob_from_file(path, is_file, Some(contents))->Ok_0)
            == seq![padded(deflated(contents, COMPRESSION_LEVEL))],
{
    let fs = seq![contents];
    assert(fs.drop_last() =~= Seq::<Seq<u8>>::empty());
    let enc = encoded_file(contents);
    assert(encoded_all(fs.drop_last()) == Seq::<u8>::empty());
    assert(fs.last() == contents);
    assert(encoded_all(fs) =~= enc);
    let b = spec_blob_from_file(path, is_file, Some(contents))->Ok_0;
    assert(b =~= splice(empty_blob(), 0, enc));
    assert(b =~= encoded_all(fs) + zeros((BYTES_PER_BLOB - encoded_all(fs).len()) as nat));
    lemma_streams_of_encoded(fs, b);
    assert(fs.map_values(|f: Seq<u8>| padded(deflated(f, COMPRESSION_LEVEL)))
        =~= seq![padded(deflated(contents, COMPRESSION_LEVEL))]);
}

/// Law: a padded stream is the stream followed by fewer than 31 zeros, so
/// that its length is a whole number of 31-byte chunks.
pub proof fn law_padded_shape(s: Seq<u8>)
    requires
        s.len() > 0,
    ensures
        padded(s).len() % 31 == 0,
        padded(s).len() < s.len() + 31,
        padded(s) == s + zeros((padded(s).len() - s.len()) as nat),
    decreases s.len(),
{
    if s.len() <= 31 {
        assert(padded(s) =~= s + zeros((31 - s.len()) as nat));
    } else {
        let rest = s.skip(31);
        law_padded_shape(rest);
        let k = (padded(rest).len() - rest.len()) as nat;
        assert(s.take(31) + (rest + zeros(k)) =~= s + zeros(k));
    }
}

/// Law: the layout of a packed blob. When packing a directory succeeds, the
/// blob holds the encodings of its XML files, in the order of the entries,
/// one right after the other from the start, followed by zeros.
pub proof fn law_dir_blob_layout(dir: Seq<char>, is_dir: bool, es: Seq<DirEntryView>)
    requires
        spec_blob_from_dir(dir, is_dir, es) is Ok,
    ensures
        ({
            let e = encoded_all(packed_contents(es));
            &&& e.len() <= BYTES_PER_BLOB
            &&& spec_blob_from_dir(dir, is_dir, es)->Ok_0 == e + zeros((BYTES_PER_BLOB - e.len()) as nat)
        }),
{
    lemma_dir_fold_shape(es, es.len());
    assert(es.take(es.len() as int) =~= es);
}

/// Law: a directory whose only entry is an XML file packs exactly as that
/// file does alone, with the same blob or the same error.
pub proof fn law_single_file_dir(dir: Seq<char>, e: DirEntryView)
    requires
        spec_is_xml_file(e.path, e.is_file),
    ensures
        spec_blob_from_dir(dir, true, seq![e]) == spec_blob_from_file(e.path, e.is_file, e.contents),
{
    let es = seq![e];
    assert(es[0] == e);
    assert(spec_dir_fold(es, 1) == crate::blob::spec_dir_step(spec_dir_fold(es, 0), e));
}

/// A padded stream of a file whose stream inflates back gives the file back.
proof fn lemma_padded_inflates(f: Seq<u8>)
    requires
        inflates_back(f),
    ensures
        inflated(padded(deflated(f, COMPRESSION_LEVEL))) == Some(f),
{
    let d = deflated(f, COMPRESSION_LEVEL);
    law_padded_shape(d);
    let k = (padded(d).len() - d.len()) as nat;
    assert(k <= 30);
    assert(inflated(d + zeros(k)) == Some(f));
}

/// Law: decoding gives back the files that packing a directory put in. When
/// packing succeeds and each packed file's stream inflates back (as the
/// compressor's contract states for every file it compresses), the blob
/// carries one stream per packed file, in order, and each inflates to the
/// file's bytes; so [`crate::decoder::blob_to_vecs`] returns the files.
pub proof fn law_dir_contents_roundtrip(dir: Seq<char>, is_dir: bool, es: Seq<DirEntryView>)
    requires
        spec_blob_from_dir(dir, is_dir, es) is Ok,
        forall|i: int| 0 <= i < packed_contents(es).len() ==> #[trigger] inflates_back(packed_contents(es)[i]),
    ensures
        ({
            let fs = packed_contents(es);
            let streams = blob_streams(spec_blob_from_dir(dir, is_dir, es)->Ok_0);
            &&& streams.len() == fs.len()
            &&& forall|j: int| 0 <= j < fs.len() ==> inflated(#[trigger] streams[j]) == Some(fs[j])
        }),
{
    let fs = packed_contents(es);
    assert forall|i: int| 0 <= i < fs.len() implies (#[trigger] deflated(fs[i], COMPRESSION_LEVEL)).len() > 0 by {
        assert(inflates_back(fs[i]));
    }
    law_dir_roundtrip(dir, is_dir, es);
    let streams = blob_streams(spec_blob_from_dir(dir, is_dir, es)->Ok_0);
    assert forall|j: int| 0 <= j < fs.len() implies inflated(#[trigger] streams[j]) == Some(fs[j]) by {
        assert(inflates_back(fs[j]));
        lemma_padded_inflates(fs[j]);
    }
}

/// Law: decoding gives back the file that packing it alone put in. When
/// packing succeeds and the file's stream inflates back, the blob carries
/// exactly one stream, and it inflates to the file's bytes.
pub proof fn law_file_contents_roundtrip(path: Seq<char>, is_file: bool, contents: Seq<u8>)
    requires
        spec_blob_from_file(path, is_file, Some(contents)) is Ok,
        inflates_back(contents),
    ensures
        blob_streams(spec_blob_from_file(path, is_file, Some(contents))->Ok_0).len() == 1,
        inflated(blob_streams(spec_blob_from_file(path, is_file, Some(contents))->Ok_0)[0]) == Some(contents),
{
    law_file_roundtrip(path, is_file, contents);
    lemma_padded_inflates(contents);
}

/// Every one of the first `n` field elements of `b` has marker 0 or 1.
pub open spec fn markers_binary(b: Seq<u8>, n: nat) -> bool {
    forall|k: int| 0 <= k < n ==> #[trigger] marker(b, k) == 0u8 || marker(b, k) == 1u8
}

proof fn lemma_frame_markers(s: Seq<u8>)
    ensures
        markers_binary(spec_frame(s), frame_elems(s)),
    decreases s.len(),
{
    lemma_frame_len(s);
    if s.len() > 31 {
        let rest = s.skip(31);
        lemma_frame_markers(rest);
        let head = seq![0u8] + s.take(31);
        assert(spec_frame(s) == head + spec_frame(rest));
        assert forall|k: int| 0 <= k < frame_elems(s) implies
            #[trigger] marker(spec_frame(s), k) == 0u8 || marker(spec_frame(s), k) == 1u8 by {
            if k > 0 {
                assert(marker(spec_frame(s), k) == marker(spec_frame(rest), k - 1));
            }
        }
    }
}

proof fn lemma_markers_concat(a: Seq<u8>, na: nat, b: Seq<u8>, nb: nat)
    requires
        a.len() == 32 * na,
        b.len() >= 32 * nb,
        markers_binary(a, na),
        markers_binary(b, nb),
    ensures
        markers_binary(a + b, na + nb),
{
    assert forall|k: int| 0 <= k < na + nb implies
        #[trigger] marker(a + b, k) == 0u8 || marker(a + b, k) == 1u8 by {
        if k < na {
            assert(marker(a + b, k) == marker(a, k));
        } else {
            assert(marker(a + b, k) == marker(b, k - na));
        }
    }
}

proof fn lemma_encoded_all_markers(fs: Seq<Seq<u8>>)
    ensures
        markers_binary(encoded_all(fs), total_elems(fs)),
    decreases fs.len(),
{
    if fs.len() > 0 {
        let d = deflated(fs.last(), COMPRESSION_LEVEL);
        lemma_encoded_all_markers(fs.drop_last());
        lemma_encoded_all_len(fs.drop_last());
        lemma_frame_markers(d);
        lemma_frame_len(d);
        lemma_markers_concat(encoded_all(fs.drop_last()), total_elems(fs.drop_last()), spec_frame(d), frame_elems(d));
    }
}

/// Law: a packed blob is a valid sequence of framed field elements. When
/// packing a directory succeeds, the marker byte of every field element of
/// the blob is 0 or 1; so every field element is below the BLS12-381
/// modulus, and `c_kzg` commits to the blob and proves it.
pub proof fn law_dir_blob_markers(dir: Seq<char>, is_dir: bool, es: Seq<DirEntryView>)
    requires
        spec_blob_from_dir(dir, is_dir, es) is Ok,
    ensures
        spec_blob_from_dir(dir, is_dir, es)->Ok_0.len() == BYTES_PER_BLOB,
        markers_binary(spec_blob_from_dir(dir, is_dir, es)->Ok_0, field_elements()),
        leading_bytes_small(spec_blob_from_dir(dir, is_dir, es)->Ok_0),
{
    law_dir_blob_layout(dir, is_dir, es);
    let fs = packed_contents(es);
    let e = encoded_all(fs);
    let z = zeros((BYTES_PER_BLOB - e.len()) as nat);
    lemma_encoded_all_markers(fs);
    lemma_encoded_all_len(fs);
    let n = total_elems(fs);
    let nz = (field_elements() - n) as nat;
    assert(markers_binary(z, nz)) by {
        assert forall|k: int| 0 <= k < nz implies #[trigger] marker(z, k) == 0u8 || marker(z, k) == 1u8 by {
            assert(32 * k < z.len());
        }
    }
    lemma_markers_concat(e, n, z, nz);
}

/// Law: the blob of a single packed file is a valid sequence of framed
/// field elements: the marker byte of every field element is 0 or 1, so
/// every field element is below the BLS12-381 modulus.
pub proof fn law_file_blob_markers(path: Seq<char>, is_file: bool, contents: Option<Seq<u8>>)
    requires
        spec_blob_from_file(path, is_file, contents) is Ok,
    ensures
        spec_blob_from_file(path, is_file, contents)->Ok_0.len() == BYTES_PER_BLOB,
        markers_binary(spec_blob_from_file(path, is_file, contents)->Ok_0, field_elements()),
        leading_bytes_small(spec_blob_from_file(path, is_file, contents)->Ok_0),
{
    let e = DirEntryView { path, is_file, contents };
    law_single_file_dir(path, e);
    law_dir_blob_markers(path, true, seq![e]);
}

proof fn lemma_frame_payloads(s: Seq<u8>)
    requires
        s.len() > 0,
    ensures
        frame_elems(s) > 0,
        payload_concat(spec_frame(s), frame_elems(s)) == padded(s),
        forall|k: int| 0 <= k < frame_elems(s) ==> (#[trigger] marker(spec_frame(s), k) == 1u8 <==> k == frame_elems(s) - 1),
    decreases s.len(),
{
    lemma_frame_len(s);
    let f = spec_frame(s);
    if s.len() <= 31 {
        assert(payload(f, 0) =~= padded(s));
        assert(payload_concat(f.skip(32), 0) =~= Seq::<u8>::empty());
        assert(payload_concat(f, 1) =~= padded(s));
    } else {
        let rest = s.skip(31);
        lemma_frame_payloads(rest);
        lemma_frame_len(rest);
        let head = seq![0u8] + s.take(31);
        assert(f == head + spec_frame(rest));
        assert(f.skip(32) =~= spec_frame(rest));
        assert(payload(f, 0) =~= s.take(31));
        assert forall|k: int| 0 <= k < frame_elems(s) implies
            (#[trigger] marker(f, k) == 1u8 <==> k == frame_elems(s) - 1) by {
            if k > 0 {
                assert(marker(f, k) == marker(spec_frame(rest), k - 1));
            }
        }
    }
}

/// Law: what a file's encoding carries. The encoding fills whole field
/// elements; only the marker of its last field element is 1 (the others are
/// 0); and the payloads of its field elements, one after the other, are the
/// file's DEFLATE stream followed by the zeros that pad its last chunk, which
/// inflate back to the file. [`crate::encoder::file_to_vec`] gives
/// `inflates_back` for every file it encodes.
pub proof fn law_file_encoding(contents: Seq<u8>)
    requires
        inflates_back(contents),
    ensures
        ({
            let e = encoded_file(contents);
            let n = e.len() / 32;
            &&& n > 0
            &&& e.len() == 32 * n
            &&& payload_concat(e, n) == padded(deflated(contents, COMPRESSION_LEVEL))
            &&& inflated(payload_concat(e, n)) == Some(contents)
            &&& markers_binary(e, n)
            &&& forall|k: int| 0 <= k < n ==> (#[trigger] marker(e, k) == 1u8 <==> k == n - 1)
        }),
{
    let d = deflated(contents, COMPRESSION_LEVEL);
    lemma_frame_payloads(d);
    lemma_frame_markers(d);
    lemma_frame_len(d);
    lemma_padded_inflates(contents);
}

/// Law: appending a file fits exactly when the cursor plus the length of the
/// file's encoding stays within the blob, whatever the size of the file
/// itself; then the blob holds the encoding from the cursor on, is unchanged
/// elsewhere, and the cursor moves past the encoding. Otherwise the error is
/// `BlobOverflowError` with the path.
pub proof fn law_append_fits(blob: Seq<u8>, cursor: nat, path: Seq<char>, contents: Seq<u8>)
    requires
        blob.len() == BYTES_PER_BLOB,
        cursor <= BYTES_PER_BLOB,
    ensures
        ({
            let enc = encoded_file(contents);
            &&& (spec_append(blob, cursor, path, contents) is Ok <==> cursor + enc.len() <= BYTES_PER_BLOB)
            &&& (spec_append(blob, cursor, path, contents) is Err
                ==> spec_append(blob, cursor, path, contents) == Err::<(Seq<u8>, nat), CodecErrorView>(
                    CodecErrorView::BlobOverflowError(path)))
            &&& (spec_append(blob, cursor, path, contents) matches Ok((b, c)) ==> {
                &&& c == cursor + enc.len()
                &&& b.len() == BYTES_PER_BLOB
                &&& forall|i: int| 0 <= i < BYTES_PER_BLOB ==> #[trigger] b[i]
                    == if cursor <= i < c { enc[i - cursor] } else { blob[i] }
            })
        }),
{
}

proof fn lemma_packed_prefix_len(es: Seq<DirEntryView>, n: nat, m: nat)
    requires
        n <= m <= es.len(),
    ensures
        encoded_all(packed_contents(es.take(n as int))).len() <= encoded_all(packed_contents(es.take(m as int))).len(),
    decreases m - n,
{
    if n < m {
        lemma_packed_prefix_len(es, n, (m - 1) as nat);
        let t = es.take(m as int);
        assert(t.drop_last() =~= es.take(m - 1));
        let prev = packed_contents(es.take(m - 1));
        if spec_is_xml_file(t.last().path, t.last().is_file) {
            let fs = prev.push(t.last().contents.unwrap());
            assert(fs.drop_last() =~= prev);
        }
    }
}

proof fn lemma_dir_fold_ok(es: Seq<DirEntryView>, n: nat)
    requires
        n <= es.len(),
        forall|i: int| 0 <= i < es.len() ==> (#[trigger] extension(es[i].path)) is Some,
        forall|i: int| 0 <= i < es.len() && spec_is_xml_file(es[i].path, es[i].is_file) ==> {
            &&& (#[trigger] es[i].contents) is Some
            &&& spec_validate_xml(es[i].path, es[i].contents.unwrap()) is Ok
        },
        encoded_all(packed_contents(es)).len() <= BYTES_PER_BLOB,
    ensures
        spec_dir_fold(es, n) is Ok,
    decreases n,
{
    if n > 0 {
        lemma_dir_fold_ok(es, (n - 1) as nat);
        lemma_dir_fold_shape(es, (n - 1) as nat);
        lemma_dir_fold_shape(es, n);
        lemma_packed_prefix_len(es, n, es.len());
        assert(es.take(es.len() as int) =~= es);
        let e = es[n - 1];
        assert(extension(e.path) is Some);
        let t = es.take(n as int);
        assert(t.drop_last() =~= es.take(n - 1));
        assert(t.last() == e);
        if spec_is_xml_file(e.path, e.is_file) {
            let prev = packed_contents(es.take(n - 1));
            let fs = prev.push(e.contents.unwrap());
            assert(fs.drop_last() =~= prev);
            assert(e.contents is Some);
        }
    }
}

/// Law: packing a directory succeeds on every set of entries that have
/// extensions and whose XML files are valid and have encodings that fit
/// together in a blob, as long as there is at least one XML file; the size
/// of the files themselves plays no part.
pub proof fn law_dir_fits(dir: Seq<char>, es: Seq<DirEntryView>)
    requires
        forall|i: int| 0 <= i < es.len() ==> (#[trigger] extension(es[i].path)) is Some,
        forall|i: int| 0 <= i < es.len() && spec_is_xml_file(es[i].path, es[i].is_file) ==> {
            &&& (#[trigger] es[i].contents) is Some
            &&& spec_validate_xml(es[i].path, es[i].contents.unwrap()) is Ok
        },
        encoded_all(packed_contents(es)).len() <= BYTES_PER_BLOB,
        packed_contents(es).len() > 0,
    ensures
        spec_blob_from_dir(dir, true, es) is Ok,
{
    lemma_dir_fold_ok(es, es.len());
    lemma_dir_fold_shape(es, es.len());
    assert(es.take(es.len() as int) =~= es);
}

/// Law: packing a single file succeeds exactly when it is a file with the
/// extension `xml`, is valid, and its encoding fits in a blob.
pub proof fn law_file_fits(path: Seq<char>, is_file: bool, contents: Seq<u8>)
    ensures
        spec_blob_from_file(path, is_file, Some(contents)) is Ok <==> {
            &&& spec_is_xml_file(path, is_file)
            &&& spec_validate_xml(path, contents) is Ok
            &&& encoded_file(contents).len() <= BYTES_PER_BLOB
        },
{
    assert(empty_blob().len() == BYTES_PER_BLOB);
}

} // verus!
