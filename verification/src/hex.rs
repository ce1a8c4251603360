//! Reading a blob from the `0x`-prefixed hex string that a beacon node
//! serves.

use vstd::prelude::*;
use vstd::string::*;
use vstd::utf8::{decode_utf8, encode_utf8, is_char_boundary, valid_utf8};
use crate::BYTES_PER_BLOB;
use crate::errors::{OwValidatorNodeError, ValidatorErrorView};
use crate::text::string_from_utf8;

verus! {

broadcast use vstd::utf8::group_utf8_lib;

/// Length in bytes of a blob written as a prefixed hex string.
pub open spec fn hex_blob_len() -> nat {
    (BYTES_PER_BLOB * 2 + 2) as nat
}

/// The value of a hexadecimal digit (either case).
pub open spec fn hex_digit(c: u8) -> Option<u8> {
    if 48 <= c <= 57 {
        Some((c - 48) as u8)
    } else if 97 <= c <= 102 {
        Some((c - 87) as u8)
    } else if 65 <= c <= 70 {
        Some((c - 55) as u8)
    } else {
        None
    }
}

/// What `u8::from_str_radix(_, 16)` makes of a two-byte string: an optional
/// `+` followed by hexadecimal digits only.
pub open spec fn hex_pair(a: u8, b: u8) -> Option<u8> {
    if a == 43 {
        hex_digit(b)
    } else {
        match (hex_digit(a), hex_digit(b)) {
            (Some(x), Some(y)) => Some((16 * x + y) as u8),
            _ => None,
        }
    }
}

/// Where reading the first `n` two-byte windows after the prefix stands.
pub enum HexScan {
    /// The bytes read so far.
    Bytes(Seq<u8>),
    /// The window at this index is not a hexadecimal byte.
    BadWindow(nat),
    /// A window would be cut inside a character, where string slicing panics.
    Unsliceable,
}

/// Reading the windows of `s` (the bytes of a string) one after the other,
/// as string slicing does: the prefix must end on a character
/// boundary, each window must end on one, and reading stops at the first
/// window that is not a hexadecimal byte.
pub open spec fn hex_scan(s: Seq<u8>, n: nat) -> HexScan
    decreases n,
{
    if n == 0 {
        if is_char_boundary(s, 2) {
            HexScan::Bytes(seq![])
        } else {
            HexScan::Unsliceable
        }
    } else {
        match hex_scan(s, (n - 1) as nat) {
            HexScan::Bytes(acc) => {
                let w = n - 1;
                if !is_char_boundary(s, 2 * w + 4) {
                    HexScan::Unsliceable
                } else {
                    match hex_pair(s[2 * w + 2], s[2 * w + 3]) {
                        Some(v) => HexScan::Bytes(acc.push(v)),
                        None => HexScan::BadWindow(w as nat),
                    }
                }
            },
            other => other,
        }
    }
}

/// Whether reading a blob from `s` can go without cutting a character: its
/// length is not that of a blob, or every window it reads ends on a
/// character boundary.
pub open spec fn hex_sliceable(s: Seq<u8>) -> bool {
    s.len() != hex_blob_len() || !(hex_scan(s, BYTES_PER_BLOB as nat) is Unsliceable)
}

/// The blob written in `s` (the bytes of a string), or the error that
/// reading it reports. (Where a window would be cut inside a character,
/// reading panics; [`blob_vec_from_string`] is not called on such strings,
/// and the value given here for them is never reached.)
pub open spec fn spec_blob_from_hex(s: Seq<u8>) -> Result<Seq<u8>, ValidatorErrorView> {
    if s.len() != hex_blob_len() {
        Err(ValidatorErrorView::InvalidBlobLength(s.len() as usize))
    } else {
        match hex_scan(s, BYTES_PER_BLOB as nat) {
            HexScan::Bytes(b) => Ok(b),
            HexScan::BadWindow(w) => Err(ValidatorErrorView::InvalidHexStringValue(
                decode_utf8(s.subrange(2 * w + 2 as int, 2 * w + 4 as int)),
            )),
            HexScan::Unsliceable => Err(ValidatorErrorView::InvalidBlobLength(0)),
        }
    }
}

fn exec_hex_digit(c: u8) -> (r: Option<u8>)
    ensures
        r == hex_digit(c),
{
    if 48 <= c && c <= 57 {
        Some(c - 48)
    } else if 97 <= c && c <= 102 {
        Some(c - 87)
    } else if 65 <= c && c <= 70 {
        Some(c - 55)
    } else {
        None
    }
}

fn exec_hex_pair(a: u8, b: u8) -> (r: Option<u8>)
    ensures
        r == hex_pair(a, b),
{
    if a == 43 {
        exec_hex_digit(b)
    } else {
        match (exec_hex_digit(a), exec_hex_digit(b)) {
            (Some(x), Some(y)) => Some(16 * x + y),
            _ => None,
        }
    }
}

/// Once reading stops, later windows do not change how it ended.
proof fn lemma_hex_scan_stops(s: Seq<u8>, m: nat, n: nat)
    requires
        m <= n,
        !(hex_scan(s, m) is Bytes),
    ensures
        hex_scan(s, n) == hex_scan(s, m),
    decreases n - m,
{
    if m < n {
        lemma_hex_scan_stops(s, m, (n - 1) as nat);
    }
}

/// While reading goes on, it has read one byte per window and stands on a
/// character boundary.
proof fn lemma_hex_scan_bytes(s: Seq<u8>, n: nat)
    ensures
        hex_scan(s, n) matches HexScan::Bytes(acc) ==> acc.len() == n && is_char_boundary(s, 2 * n + 2 as int),
    decreases n,
{
    if n > 0 {
        lemma_hex_scan_bytes(s, (n - 1) as nat);
    }
}

/// Tells whether [`blob_vec_from_string`] can read `prefixed_blob` without
/// cutting a character (see [`hex_sliceable`]); where it cannot, slicing the
/// string panics.
pub fn blob_string_is_sliceable(prefixed_blob: &str) -> (r: bool)
    ensures
        r == hex_sliceable(prefixed_blob.spec_bytes()),
{
    let bytes = prefixed_blob.as_bytes();
    if bytes.len() != BYTES_PER_BLOB * 2 + 2 {
        return true;
    }
    if !prefixed_blob.is_char_boundary(2) {
        proof { lemma_hex_scan_stops(bytes@, 0, BYTES_PER_BLOB as nat); }
        return false;
    }
    let mut i: usize = 0;
    while i < BYTES_PER_BLOB
        invariant
            i <= BYTES_PER_BLOB,
            bytes@ == prefixed_blob.spec_bytes(),
            bytes@.len() == hex_blob_len(),
            hex_scan(bytes@, i as nat) is Bytes,
        decreases BYTES_PER_BLOB - i,
    {
        if !prefixed_blob.is_char_boundary(2 * i + 4) {
            proof { lemma_hex_scan_stops(bytes@, (i + 1) as nat, BYTES_PER_BLOB as nat); }
            return false;
        }
        match exec_hex_pair(bytes[2 * i + 2], bytes[2 * i + 3]) {
            Some(_) => {},
            None => {
                proof { lemma_hex_scan_stops(bytes@, (i + 1) as nat, BYTES_PER_BLOB as nat); }
                return true;
            },
        }
        i = i + 1;
    }
    true
}

/// The characters of the window at `w`, which ends on a character boundary.
fn window_string(s: &str, w: usize) -> (r: String)
    requires
        2 * w + 4 <= s.spec_bytes().len(),
        is_char_boundary(s.spec_bytes(), 2 * w + 2),
        is_char_boundary(s.spec_bytes(), 2 * w + 4),
    ensures
        r@ == decode_utf8(s.spec_bytes().subrange(2 * w + 2, 2 * w + 4)),
{
    let bytes = s.as_bytes();
    let ghost all = s.spec_bytes();
    let n = bytes.len();
    assert(bytes@ == all);
    let ghost window = all.subrange(2 * w + 2, 2 * w + 4);
    proof {
        let rest = all.subrange(2 * w + 2, all.len() as int);
        assert(valid_utf8(all));
        vstd::utf8::valid_utf8_split(all, 2 * w + 2);
        assert(valid_utf8(rest));
        if 2 * w + 4 < all.len() {
            assert(rest[2] == all[2 * w + 4]);
            vstd::utf8::is_char_boundary_iff_not_is_continuation_byte(all, 2 * w + 4);
            vstd::utf8::is_char_boundary_iff_not_is_continuation_byte(rest, 2);
        } else {
            vstd::utf8::is_char_boundary_start_end_of_seq(rest);
        }
        vstd::utf8::valid_utf8_split(rest, 2);
        assert(rest.subrange(0, 2) =~= window);
    }
    let mut v: Vec<u8> = Vec::new();
    v.push(bytes[2 * w + 2]);
    v.push(bytes[2 * w + 3]);
    assert(v@ =~= window);
    match string_from_utf8(v) {
        Some(r) => r,
        None => {
            assert(false);
            String::new()
        },
    }
}

/// Reads the blob that `prefixed_blob` writes in hex after a two-character
/// prefix. `InvalidBlobLength` when the string's length in bytes is not that
/// of a blob; `InvalidHexStringValue` with the first window that is not a
/// hexadecimal byte (as `u8::from_str_radix` reads it).
pub fn blob_vec_from_string(prefixed_blob: String) -> (res: Result<[u8; BYTES_PER_BLOB], OwValidatorNodeError>)
    requires
        hex_sliceable(encode_utf8(prefixed_blob@)),
    ensures
        match res {
            Ok(b) => spec_blob_from_hex(encode_utf8(prefixed_blob@))
                == Ok::<Seq<u8>, ValidatorErrorView>(b@),
            Err(e) => spec_blob_from_hex(encode_utf8(prefixed_blob@))
                == Err::<Seq<u8>, ValidatorErrorView>(e@),
        },
{
    let s = prefixed_blob.as_str();
    let bytes = s.as_bytes();
    if bytes.len() != BYTES_PER_BLOB * 2 + 2 {
        return Err(OwValidatorNodeError::InvalidBlobLength(bytes.len()));
    }
    proof {
        if !is_char_boundary(bytes@, 2) {
            lemma_hex_scan_stops(bytes@, 0, BYTES_PER_BLOB as nat);
        }
    }
    let mut byte_array = [0u8; BYTES_PER_BLOB];
    assert(byte_array@.take(0) =~= Seq::<u8>::empty());
    let mut i: usize = 0;
    while i < BYTES_PER_BLOB
        invariant
            i <= BYTES_PER_BLOB,
            bytes@ == s.spec_bytes(),
            s.spec_bytes() == encode_utf8(prefixed_blob@),
            bytes@.len() == hex_blob_len(),
            hex_sliceable(bytes@),
            byte_array@.len() == BYTES_PER_BLOB,
            hex_scan(bytes@, i as nat) matches HexScan::Bytes(acc)
                && acc == byte_array@.take(i as int),
        decreases BYTES_PER_BLOB - i,
    {
        proof {
            lemma_hex_scan_bytes(bytes@, i as nat);
            if !(hex_scan(bytes@, (i + 1) as nat) is Bytes) {
                lemma_hex_scan_stops(bytes@, (i + 1) as nat, BYTES_PER_BLOB as nat);
            }
        }
        match exec_hex_pair(bytes[2 * i + 2], bytes[2 * i + 3]) {
            Some(v) => {
                let ghost before = byte_array@;
                byte_array[i] = v;
                assert(byte_array@.take(i + 1) =~= before.take(i as int).push(v));
            },
            None => {
                proof {
                    lemma_hex_scan_stops(bytes@, (i + 1) as nat, BYTES_PER_BLOB as nat);
                }
                let window = window_string(s, i);
                return Err(OwValidatorNodeError::InvalidHexStringValue(window));
            },
        }
        i = i + 1;
    }
    assert(byte_array@.take(BYTES_PER_BLOB as int) =~= byte_array@);
    Ok(byte_array)
}

/// The hexadecimal digit for `d < 16`, in upper or lower case.
pub open spec fn hex_char(d: nat, upper: bool) -> u8 {
    if d < 10 {
        (48 + d) as u8
    } else if upper {
        (55 + d) as u8
    } else {
        (87 + d) as u8
    }
}

/// The bytes written in hex, two digits per byte, in upper or lower case.
pub open spec fn hex_encode(b: Seq<u8>, upper: bool) -> Seq<u8>
    decreases b.len(),
{
    if b.len() == 0 {
        seq![]
    } else {
        hex_encode(b.drop_last(), upper)
            + seq![hex_char((b.last() / 16) as nat, upper), hex_char((b.last() % 16) as nat, upper)]
    }
}

proof fn lemma_hex_encode_index(b: Seq<u8>, upper: bool)
    ensures
        hex_encode(b, upper).len() == 2 * b.len(),
        forall|i: int| 0 <= i < b.len() ==> {
            &&& #[trigger] hex_encode(b, upper)[2 * i] == hex_char((b[i] / 16) as nat, upper)
            &&& hex_encode(b, upper)[2 * i + 1] == hex_char((b[i] % 16) as nat, upper)
        },
    decreases b.len(),
{
    if b.len() > 0 {
        lemma_hex_encode_index(b.drop_last(), upper);
        assert forall|i: int| 0 <= i < b.len() implies {
            &&& #[trigger] hex_encode(b, upper)[2 * i] == hex_char((b[i] / 16) as nat, upper)
            &&& hex_encode(b, upper)[2 * i + 1] == hex_char((b[i] % 16) as nat, upper)
        } by {
            if i < b.len() - 1 {
                assert(b[i] == b.drop_last()[i]);
            }
        }
    }
}

/// A sequence of ASCII bytes is valid UTF-8 and has a character boundary
/// at every index.
proof fn lemma_ascii_boundaries(s: Seq<u8>)
    requires
        forall|i: int| 0 <= i < s.len() ==> #[trigger] s[i] < 128,
    ensures
        valid_utf8(s),
        forall|k: int| 0 <= k <= s.len() ==> #[trigger] is_char_boundary(s, k),
    decreases s.len(),
{
    if s.len() > 0 {
        let first = s[0];
        assert(first & 0x7f <= 0x7f) by (bit_vector);
        let rest = s.subrange(1, s.len() as int);
        assert forall|i: int| 0 <= i < rest.len() implies #[trigger] rest[i] < 128 by {
            assert(rest[i] == s[i + 1]);
        }
        lemma_ascii_boundaries(rest);
        assert(vstd::utf8::pop_first_scalar(s) == rest);
        assert forall|k: int| 0 <= k <= s.len() implies #[trigger] is_char_boundary(s, k) by {
            if k > 0 {
                assert(is_char_boundary(rest, k - 1));
            }
        }
    }
}

/// Law: reading back a blob written in hex. A blob written as two ASCII
/// characters followed by its bytes in hex, in either case, (as a beacon node
/// serves it, after `0x`) is read back exactly, without cutting a character.
pub proof fn law_hex_roundtrip(p0: u8, p1: u8, blob: Seq<u8>, upper: bool)
    requires
        p0 < 128,
        p1 < 128,
        blob.len() == BYTES_PER_BLOB,
    ensures
        hex_sliceable(seq![p0, p1] + hex_encode(blob, upper)),
        spec_blob_from_hex(seq![p0, p1] + hex_encode(blob, upper)) == Ok::<Seq<u8>, ValidatorErrorView>(blob),
{
    let s = seq![p0, p1] + hex_encode(blob, upper);
    lemma_hex_encode_index(blob, upper);
    assert forall|i: int| 0 <= i < s.len() implies #[trigger] s[i] < 128 by {
        if i >= 2 {
            let j = (i - 2) / 2;
            assert(hex_encode(blob, upper)[2 * j] == hex_char((blob[j] / 16) as nat, upper));
            if i % 2 == 0 {
                assert(i == 2 * j + 2);
                assert(s[i] == hex_encode(blob, upper)[2 * j]);
            } else {
                assert(i == 2 * j + 3);
                assert(s[i] == hex_encode(blob, upper)[2 * j + 1]);
            }
        }
    }
    lemma_ascii_boundaries(s);
    assert forall|i: int| 0 <= i < blob.len() implies {
        &&& #[trigger] s[2 * i + 2] == hex_char((blob[i] / 16) as nat, upper)
        &&& s[2 * i + 3] == hex_char((blob[i] % 16) as nat, upper)
    } by {
        assert(s[2 * i + 2] == hex_encode(blob, upper)[2 * i]);
        assert(s[2 * i + 3] == hex_encode(blob, upper)[2 * i + 1]);
    }
    lemma_hex_scan_reads(s, blob, BYTES_PER_BLOB as nat, upper);
    assert(blob.take(BYTES_PER_BLOB as int) =~= blob);
}

proof fn lemma_hex_scan_reads(s: Seq<u8>, blob: Seq<u8>, n: nat, upper: bool)
    requires
        n <= blob.len(),
        s.len() == 2 + 2 * blob.len(),
        forall|k: int| 0 <= k <= s.len() ==> #[trigger] is_char_boundary(s, k),
        forall|i: int| 0 <= i < blob.len() ==> {
            &&& #[trigger] s[2 * i + 2] == hex_char((blob[i] / 16) as nat, upper)
            &&& s[2 * i + 3] == hex_char((blob[i] % 16) as nat, upper)
        },
    ensures
        hex_scan(s, n) == HexScan::Bytes(blob.take(n as int)),
    decreases n,
{
    if n == 0 {
        assert(is_char_boundary(s, 2));
        assert(blob.take(0) =~= Seq::<u8>::empty());
    } else {
        lemma_hex_scan_reads(s, blob, (n - 1) as nat, upper);
        let w = n - 1;
        assert(is_char_boundary(s, 2 * w + 4));
        let v = blob[w];
        assert(s[2 * w + 2] == hex_char((v / 16) as nat, upper));
        assert(hex_pair(s[2 * w + 2], s[2 * w + 3]) == Some(v)) by {
            assert(hex_digit(hex_char((v / 16) as nat, upper)) == Some((v / 16) as u8));
            assert(hex_digit(hex_char((v % 16) as nat, upper)) == Some((v % 16) as u8));
            assert(16 * (v / 16) + v % 16 == v);
        }
        assert(blob.take(n as int) =~= blob.take(w).push(v));
    }
}

} // verus!
