//! The tag envelope.
//!
//! Each edge of the index carries its entry's ranking, and optionally an
//! opaque caller-supplied tag, inside the edge's tag bytes. The envelope is a
//! marker byte (0: no custom tag, 1: a custom tag follows), the ranking's
//! two's-complement bits as eight little-endian bytes, then the custom tag
//! bytes, if any. Decoding rejects a short payload, an unknown marker, and
//! trailing bytes after a tagless envelope; it never panics.
use crate::types::CodecError;
use crate::types::spec_opt_bytes;
use vstd::bytes::spec_u64_from_le_bytes;
use vstd::bytes::spec_u64_to_le_bytes;
use vstd::prelude::*;

verus! {

/// The two's-complement bits of `v`, read as an unsigned value.
pub open spec fn spec_u64_of_i64(v: i64) -> u64 {
    if v >= 0 {
        v as u64
    } else {
        (v + 0x1_0000_0000_0000_0000) as u64
    }
}

/// The signed value whose two's-complement bits are `u`.
pub open spec fn spec_i64_of_u64(u: u64) -> i64 {
    if u <= 0x7fff_ffff_ffff_ffff {
        u as i64
    } else {
        (u - 0x1_0000_0000_0000_0000) as i64
    }
}

/// The encoded envelope for an entry at `ranking` with the given custom tag.
pub open spec fn spec_encode_tag(ranking: i64, custom_tag: Option<Seq<u8>>) -> Seq<u8> {
    match custom_tag {
        None => seq![0u8] + spec_u64_to_le_bytes(spec_u64_of_i64(ranking)),
        Some(t) => seq![1u8] + spec_u64_to_le_bytes(spec_u64_of_i64(ranking)) + t,
    }
}

/// What decoding gives on any byte string: the ranking and custom tag of a
/// well-formed envelope, or the error naming the first malformation found.
pub open spec fn spec_decode_tag(bytes: Seq<u8>) -> Result<(i64, Option<Seq<u8>>), CodecError> {
    if bytes.len() < 9 {
        Err(CodecError::Truncated)
    } else {
        let r = spec_i64_of_u64(spec_u64_from_le_bytes(bytes.subrange(1, 9)));
        if bytes[0] == 0 {
            if bytes.len() == 9 {
                Ok((r, None))
            } else {
                Err(CodecError::TrailingBytes)
            }
        } else if bytes[0] == 1 {
            Ok((r, Some(bytes.skip(9))))
        } else {
            Err(CodecError::UnknownMarker)
        }
    }
}

/// A decoded pair, with the byte buffers replaced by their values, so that
/// the exec decoder's result can be compared against [`spec_decode_tag`].
pub open spec fn spec_decoded_view(r: Result<(i64, Option<Vec<u8>>), CodecError>) -> Result<
    (i64, Option<Seq<u8>>),
    CodecError,
> {
    match r {
        Ok((ranking, custom_tag)) => Ok((ranking, spec_opt_bytes(custom_tag))),
        Err(e) => Err(e),
    }
}

/// Signed and unsigned readings of the same bits are mutually inverse.
pub proof fn lemma_i64_u64_round_trip(v: i64)
    ensures
        spec_i64_of_u64(spec_u64_of_i64(v)) == v,
{
}

/// Decoding inverts encoding: the envelope loses nothing.
pub proof fn lemma_tag_round_trip(ranking: i64, custom_tag: Option<Seq<u8>>)
    ensures
        spec_decode_tag(spec_encode_tag(ranking, custom_tag)) == Ok::<_, CodecError>(
            (ranking, custom_tag),
        ),
{
    vstd::bytes::lemma_auto_spec_u64_to_from_le_bytes();
    let u = spec_u64_of_i64(ranking);
    let e = spec_encode_tag(ranking, custom_tag);
    assert(e.subrange(1, 9) =~= spec_u64_to_le_bytes(u));
    lemma_i64_u64_round_trip(ranking);
    match custom_tag {
        None => {
            assert(e.len() == 9);
            assert(e[0] == 0);
        },
        Some(t) => {
            assert(e[0] == 1);
            assert(e.skip(9) =~= t);
        },
    }
}

/// The bits of `v`, as executable code computes them.
fn i64_bits_to_u64(v: i64) -> (u: u64)
    ensures
        u == spec_u64_of_i64(v),
{
    if v >= 0 {
        v as u64
    } else {
        ((v as i128) + 0x1_0000_0000_0000_0000i128) as u64
    }
}

/// The signed value of the bits `u`, as executable code computes it.
fn u64_bits_to_i64(u: u64) -> (v: i64)
    ensures
        v == spec_i64_of_u64(u),
{
    if u <= 0x7fff_ffff_ffff_ffff {
        u as i64
    } else {
        ((u as i128) - 0x1_0000_0000_0000_0000i128) as i64
    }
}

/// Encodes an entry's ranking and optional custom tag into the envelope
/// stored as the edge's tag bytes.
pub fn ranking_to_tag(ranking: i64, custom_tag: Option<Vec<u8>>) -> (tag: Vec<u8>)
    ensures
        tag@ == spec_encode_tag(ranking, spec_opt_bytes(custom_tag)),
{
    let u = i64_bits_to_u64(ranking);
    let mut tag: Vec<u8> = Vec::new();
    match custom_tag {
        None => {
            tag.push(0);
            let mut le = vstd::bytes::u64_to_le_bytes(u);
            tag.append(&mut le);
            proof {
                assert(tag@ =~= spec_encode_tag(ranking, None));
            }
        },
        Some(t) => {
            tag.push(1);
            let mut le = vstd::bytes::u64_to_le_bytes(u);
            tag.append(&mut le);
            let mut rest = t;
            let ghost t0 = rest@;
            tag.append(&mut rest);
            proof {
                assert(tag@ =~= spec_encode_tag(ranking, Some(t0)));
            }
        },
    }
    tag
}

/// Decodes an edge's tag bytes back into the entry's ranking and custom tag,
/// exactly as [`spec_decode_tag`] describes.
pub fn tag_to_ranking(tag: &Vec<u8>) -> (r: Result<(i64, Option<Vec<u8>>), CodecError>)
    ensures
        spec_decoded_view(r) == spec_decode_tag(tag@),
{
    let n = tag.len();
    if n < 9 {
        return Err(CodecError::Truncated);
    }
    let marker = tag[0];
    let le = vstd::slice::slice_subrange(tag.as_slice(), 1, 9);
    let u = vstd::bytes::u64_from_le_bytes(le);
    let ranking = u64_bits_to_i64(u);
    if marker == 0 {
        if n == 9 {
            Ok((ranking, None))
        } else {
            Err(CodecError::TrailingBytes)
        }
    } else if marker == 1 {
        let mut custom: Vec<u8> = Vec::new();
        let mut i: usize = 9;
        while i < n
            invariant
                9 <= i <= n,
                n == tag@.len(),
                custom@ == tag@.subrange(9, i as int),
            decreases n - i,
        {
            custom.push(tag[i]);
            proof {
                assert(tag@.subrange(9, i + 1) =~= tag@.subrange(9, i as int).push(tag@[i as int]));
            }
            i = i + 1;
        }
        proof {
            assert(tag@.subrange(9, n as int) =~= tag@.skip(9));
        }
        Ok((ranking, Some(custom)))
    } else {
        Err(CodecError::UnknownMarker)
    }
}

} // verus!
