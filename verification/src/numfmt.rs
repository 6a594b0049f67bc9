//! Decimal and hexadecimal rendering of integers, human-readable byte sizes,
//! and percent-encoding of query parameters. All output is built from ASCII
//! bytes and decoded into `String`s through one trusted helper.

use vstd::prelude::*;

verus! {

/// The decimal digits of `n`, most significant first, as ASCII bytes.
pub open spec fn spec_dec_bytes(n: nat) -> Seq<u8>
    decreases n,
{
    if n < 10 {
        seq![(48 + n) as u8]
    } else {
        spec_dec_bytes(n / 10).push((48 + n % 10) as u8)
    }
}

/// The decimal digits of `n` as characters.
pub open spec fn spec_dec(n: nat) -> Seq<char> {
    spec_dec_bytes(n).map_values(|b: u8| b as char)
}

/// The decimal rendering of a signed value: a minus sign for negatives,
/// then the digits of the absolute value.
pub open spec fn spec_dec_i64(n: int) -> Seq<char> {
    if n < 0 {
        seq!['-'] + spec_dec((-n) as nat)
    } else {
        spec_dec(n as nat)
    }
}

pub proof fn lemma_spec_dec_bytes_ascii(n: nat)
    ensures
        forall|i: int|
            0 <= i < spec_dec_bytes(n).len() ==> 48 <= #[trigger] spec_dec_bytes(n)[i] < 58,
    decreases n,
{
    if n < 10 {
        assert(spec_dec_bytes(n) == seq![(48 + n) as u8]);
        assert(spec_dec_bytes(n)[0] == (48 + n) as u8);
    } else {
        lemma_spec_dec_bytes_ascii(n / 10);
        let rec = spec_dec_bytes(n / 10);
        let whole = spec_dec_bytes(n);
        assert(whole == rec.push((48 + n % 10) as u8));
        assert forall|i: int| 0 <= i < whole.len() implies 48 <= #[trigger] whole[i] < 58 by {
            if i < rec.len() {
                assert(whole[i] == rec[i]);
            } else {
                assert(whole[i] == (48 + n % 10) as u8);
            }
        }
    }
}

/// Relies on `String::from_utf8`: a sequence of ASCII bytes decodes to the
/// string whose characters are exactly those bytes.
#[verifier::external_body]
pub fn ascii_string_from_bytes(v: &Vec<u8>) -> (r: String)
    requires
        forall|i: int| 0 <= i < v@.len() ==> v@[i] < 128,
    ensures
        r@ == v@.map_values(|b: u8| b as char),
{
    String::from_utf8(v.clone()).unwrap_or_default()
}

/// The decimal digits of `n` as a byte vector.
pub fn u64_dec_bytes(n: u64) -> (v: Vec<u8>)
    ensures
        v@ == spec_dec_bytes(n as nat),
    decreases n,
{
    if n < 10 {
        let mut v: Vec<u8> = Vec::new();
        v.push(48 + n as u8);
        proof {
            assert(v@ =~= spec_dec_bytes(n as nat));
        }
        v
    } else {
        let mut v = u64_dec_bytes(n / 10);
        v.push(48 + (n % 10) as u8);
        v
    }
}

/// Renders `n` in decimal.
pub fn u64_to_string(n: u64) -> (r: String)
    ensures
        r@ == spec_dec(n as nat),
{
    let v = u64_dec_bytes(n);
    proof {
        lemma_spec_dec_bytes_ascii(n as nat);
    }
    ascii_string_from_bytes(&v)
}

/// Renders `n` in decimal, with a leading minus sign for negatives.
pub fn i64_to_string(n: i64) -> (r: String)
    ensures
        r@ == spec_dec_i64(n as int),
{
    if n >= 0 {
        u64_to_string(n as u64)
    } else {
        // i64::MIN is handled by negating in the wider u64 domain.
        let mag: u64 = (-(n as i128)) as u64;
        let v = u64_dec_bytes(mag);
        let mut w: Vec<u8> = Vec::new();
        w.push(45);
        let mut v2 = v;
        let mut i: usize = 0;
        let ghost vv = v2@;
        while i < v2.len()
            invariant
                0 <= i <= vv.len(),
                v2@ == vv,
                w@ == seq![45u8] + vv.subrange(0, i as int),
            decreases vv.len() - i,
        {
            w.push(v2[i]);
            proof {
                assert(w@ =~= seq![45u8] + vv.subrange(0, i + 1 as int));
            }
            i += 1;
        }
        proof {
            assert(vv.subrange(0, vv.len() as int) =~= vv);
            lemma_spec_dec_bytes_ascii(mag as nat);
        }
        let r = ascii_string_from_bytes(&w);
        proof {
            assert(r@ =~= spec_dec_i64(n as int));
        }
        r
    }
}

} // verus!
