//! Model download bookkeeping: progress records, repository metadata, disk
//! usage, byte-size formatting and query-parameter encoding.

use vstd::prelude::*;
use vstd::string::StringSliceAdditionalSpecFns;

use crate::numfmt::ascii_string_from_bytes;

verus! {

#[derive(Debug, Clone, Copy, PartialEq, Eq, Structural)]
pub enum DownloadStatus {
    Downloading,
    Complete,
    Failed,
    Cancelled,
}

/// The progress record of one repository download.
#[derive(Debug, Clone)]
pub struct DownloadState {
    pub id: String,
    pub hf_repo: String,
    pub progress_bytes: u64,
    pub total_bytes: u64,
    pub status: DownloadStatus,
    pub error: Option<String>,
    pub category_id: Option<String>,
    pub backend_type: String,
}

/// Disk usage of the filesystem holding the model directory.
#[derive(Debug, Clone, Copy, PartialEq, Eq, Structural)]
pub struct DiskUsage {
    pub total_bytes: u64,
    pub used_bytes: u64,
    pub free_bytes: u64,
}

/// Architecture metadata read from a weights-file header.
#[derive(Debug, Clone, Copy, PartialEq, Eq, Structural)]
pub struct GgufMetadata {
    pub context_length: Option<u32>,
    pub block_count: Option<u32>,
    pub embedding_length: Option<u32>,
    pub head_count: Option<u32>,
    pub head_count_kv: Option<u32>,
}

/// The unit a byte count is shown in, with its size.
pub open spec fn spec_size_unit(bytes: nat) -> (int, Seq<char>) {
    if bytes >= 0x10000000000 {
        (0x10000000000, " TB"@)
    } else if bytes >= 0x40000000 {
        (0x40000000, " GB"@)
    } else if bytes >= 0x100000 {
        (0x100000, " MB"@)
    } else {
        (0x400, " KB"@)
    }
}

/// A human-readable byte count: whole bytes below one kibibyte, otherwise
/// one decimal place in the largest unit reached, rounded to the nearest
/// tenth with ties up.
pub fn format_bytes(bytes: u64) -> (r: String)
    ensures
        bytes < 1024 ==> r@ == crate::numfmt::spec_dec(bytes as nat) + " B"@,
        bytes >= 1024 ==> ({
            let unit = spec_size_unit(bytes as nat).0;
            let tenths = (bytes * 10 + unit / 2) / unit;
            r@ == crate::numfmt::spec_dec((tenths / 10) as nat) + "."@ + crate::numfmt::spec_dec(
                (tenths % 10) as nat,
            ) + spec_size_unit(bytes as nat).1
        }),
{
    if bytes < 1024 {
        let mut s = crate::numfmt::u64_to_string(bytes);
        s.append(" B");
        return s;
    }
    let (unit, name): (u64, &'static str) = if bytes >= 0x10000000000 {
        (0x10000000000, " TB")
    } else if bytes >= 0x40000000 {
        (0x40000000, " GB")
    } else if bytes >= 0x100000 {
        (0x100000, " MB")
    } else {
        (0x400, " KB")
    };
    let tenths: u64 = (((bytes as u128) * 10 + (unit as u128) / 2) / (unit as u128)) as u64;
    proof {
        assert((bytes as u128) * 10 + (unit as u128) / 2 < 0x100000000000000000000u128) by (
        nonlinear_arith)
            requires
                bytes <= 0xFFFF_FFFF_FFFF_FFFFu64,
                unit <= 0x10000000000u64,
        ;
        assert(((bytes as int) * 10 + (unit as int) / 2) / (unit as int) <= (bytes as int) * 10)
            by (nonlinear_arith)
            requires
                unit >= 1,
                bytes >= 0,
        ;
    }
    let mut s = crate::numfmt::u64_to_string(tenths / 10);
    s.append(".");
    let frac = crate::numfmt::u64_to_string(tenths % 10);
    s.append(frac.as_str());
    s.append(name);
    proof {
        reveal_strlit(".");
    }
    s
}

/// A byte kept verbatim by percent-encoding: unreserved characters only.
pub open spec fn is_unreserved(b: u8) -> bool {
    (65 <= b && b <= 90) || (97 <= b && b <= 122) || (48 <= b && b <= 57) || b == 45 || b == 95
        || b == 46 || b == 126
}

pub open spec fn hex_upper_digit(d: int) -> u8 {
    if d < 10 {
        (48 + d) as u8
    } else {
        (55 + d) as u8
    }
}

/// The percent-encoding of one byte: kept verbatim when unreserved, a plus
/// for a space, and `%XX` with uppercase hex otherwise.
pub open spec fn spec_urlencode_byte(b: u8) -> Seq<u8> {
    if is_unreserved(b) {
        seq![b]
    } else if b == 32 {
        seq![43u8]
    } else {
        seq![37u8, hex_upper_digit(b as int / 16), hex_upper_digit(b as int % 16)]
    }
}

/// The percent-encoding of a byte sequence.
pub open spec fn spec_urlencode(s: Seq<u8>) -> Seq<u8>
    decreases s.len(),
{
    if s.len() == 0 {
        Seq::empty()
    } else {
        spec_urlencode(s.drop_last()) + spec_urlencode_byte(s.last())
    }
}

/// Percent-encodes a query parameter, byte for byte over its UTF-8 form.
pub fn urlencoded(s: &str) -> (r: String)
    ensures
        vstd::utf8::encode_utf8(r@) == spec_urlencode(s.spec_bytes()),
{
    let bytes = s.as_bytes();
    let n = bytes.len();
    let mut out: Vec<u8> = Vec::new();
    let mut i: usize = 0;
    while i < n
        invariant
            0 <= i <= n == bytes@.len(),
            bytes@ == s.spec_bytes(),
            out@ == spec_urlencode(bytes@.take(i as int)),
            forall|j: int| 0 <= j < out@.len() ==> #[trigger] out@[j] < 128,
        decreases n - i,
    {
        let b = bytes[i];
        proof {
            let pre = bytes@.take(i as int);
            let now = bytes@.take(i + 1 as int);
            assert(now.drop_last() =~= pre);
            assert(now.last() == b);
        }
        let ghost out_pre = out@;
        if (65 <= b && b <= 90) || (97 <= b && b <= 122) || (48 <= b && b <= 57) || b == 45 || b
            == 95 || b == 46 || b == 126 {
            out.push(b);
            proof {
                assert(out@ =~= out_pre + spec_urlencode_byte(b));
            }
        } else if b == 32 {
            out.push(43);
            proof {
                assert(out@ =~= out_pre + spec_urlencode_byte(b));
            }
        } else {
            out.push(37);
            let hi = b / 16;
            let lo = b % 16;
            let hid: u8 = if hi < 10 {
                48 + hi
            } else {
                55 + hi
            };
            let lod: u8 = if lo < 10 {
                48 + lo
            } else {
                55 + lo
            };
            out.push(hid);
            out.push(lod);
            proof {
                assert(out@ =~= out_pre + spec_urlencode_byte(b));
            }
        }
        i += 1;
    }
    proof {
        assert(bytes@.take(n as int) =~= bytes@);
        lemma_urlencode_ascii(bytes@);
    }
    let r = ascii_string_from_bytes(&out);
    proof {
        lemma_ascii_chars_encode(out@);
        assert(vstd::utf8::encode_utf8(r@) =~= out@);
    }
    r
}

/// Every byte of a percent-encoded sequence is ASCII.
proof fn lemma_urlencode_ascii(s: Seq<u8>)
    ensures
        forall|j: int| 0 <= j < spec_urlencode(s).len() ==> #[trigger] spec_urlencode(s)[j] < 128,
    decreases s.len(),
{
    if s.len() > 0 {
        lemma_urlencode_ascii(s.drop_last());
        let whole = spec_urlencode(s);
        let rest = spec_urlencode(s.drop_last());
        assert forall|j: int| 0 <= j < whole.len() implies #[trigger] whole[j] < 128 by {
            if j < rest.len() {
                assert(whole[j] == rest[j]);
            } else {
                assert(whole[j] == spec_urlencode_byte(s.last())[j - rest.len()]);
            }
        }
    }
}

/// Encoding ASCII characters back to bytes undoes the byte-to-char map.
proof fn lemma_ascii_chars_encode(v: Seq<u8>)
    requires
        forall|j: int| 0 <= j < v.len() ==> #[trigger] v[j] < 128,
    ensures
        vstd::utf8::encode_utf8(v.map_values(|b: u8| b as char)) =~= v,
    decreases v.len(),
{
    let chars = v.map_values(|b: u8| b as char);
    if v.len() > 0 {
        lemma_ascii_chars_encode(v.drop_first());
        assert(chars.drop_first() =~= v.drop_first().map_values(|b: u8| b as char));
        let c0: u32 = chars[0] as u32;
        assert(c0 == v[0] as u32);
        assert(c0 <= 0x7F);
        assert((c0 & 0x7F) == c0) by (bit_vector)
            requires
                c0 <= 0x7F,
        ;
        assert(vstd::utf8::encode_scalar(c0) =~= seq![v[0]]);
    }
}

} // verus!
