//! The raw record: the tag as the integer stored on the wire, and the
//! payload as a borrowed byte span. The spec functions here are the whole
//! wire format: what a record's bytes are, and what a buffer's header
//! declares.

use crate::wire::{
    field_bytes, field_value, lemma_field_bytes_len, lemma_field_bytes_of_value,
    lemma_field_value_bound, lemma_field_value_of_bytes, lemma_pow256_fits_u64, pow256,
    pow256_u64, push_bytes, read_uint, write_uint,
};
use crate::{TlvConfig, TlvError};
use vstd::prelude::*;

verus! {

/// The wire bytes of a record: tag field, length field, then the payload,
/// back to back, with no padding.
pub open spec fn spec_encoding(tag_raw: nat, payload: Seq<u8>, cfg: TlvConfig) -> Seq<u8> {
    field_bytes(tag_raw, cfg.tag_width as nat, cfg.big_endian) + field_bytes(
        payload.len(),
        cfg.len_width as nat,
        cfg.big_endian,
    ) + payload
}

/// The raw tag value a buffer's header holds.
pub open spec fn spec_decoded_tag(bytes: Seq<u8>, cfg: TlvConfig) -> nat {
    field_value(bytes.subrange(0, cfg.tag_width as int), cfg.big_endian)
}

/// The payload length a buffer's header declares.
pub open spec fn spec_decoded_len(bytes: Seq<u8>, cfg: TlvConfig) -> nat {
    field_value(
        bytes.subrange(cfg.tag_width as int, cfg.spec_header_len() as int),
        cfg.big_endian,
    )
}

/// The payload a buffer holds: exactly the declared number of bytes after
/// the header.
pub open spec fn spec_decoded_payload(bytes: Seq<u8>, cfg: TlvConfig) -> Seq<u8> {
    bytes.subrange(
        cfg.spec_header_len() as int,
        (cfg.spec_header_len() + spec_decoded_len(bytes, cfg)) as int,
    )
}

/// When decoding succeeds: a full header, a declared length that a host
/// size can hold, and at least that many payload bytes after the header.
pub open spec fn spec_decode_ok(bytes: Seq<u8>, cfg: TlvConfig) -> bool {
    &&& bytes.len() >= cfg.spec_header_len()
    &&& spec_decoded_len(bytes, cfg) <= usize::MAX
    &&& bytes.len() >= cfg.spec_header_len() + spec_decoded_len(bytes, cfg)
}

/// The error a failed decode returns: the exact shortfall of the step that
/// stopped it, or a length no host size can hold.
pub open spec fn spec_decode_err(bytes: Seq<u8>, cfg: TlvConfig) -> TlvError {
    if bytes.len() < cfg.spec_header_len() {
        TlvError::InsufficientData { missing: (cfg.spec_header_len() - bytes.len()) as usize }
    } else if spec_decoded_len(bytes, cfg) > usize::MAX {
        TlvError::LengthConversionFailed
    } else {
        TlvError::InsufficientData {
            missing: (cfg.spec_header_len() + spec_decoded_len(bytes, cfg) - bytes.len()) as usize,
        }
    }
}

/// Whether `len` payload bytes can be counted by a `width`-byte length field.
pub fn len_fits_field(len: usize, width: usize) -> (r: bool)
    requires
        1 <= width <= 8,
    ensures
        r <==> (len as nat) < pow256(width as nat),
{
    if width >= 8 {
        proof {
            assert(pow256(8) == 0x1_0000_0000_0000_0000) by {
                reveal_with_fuel(pow256, 9);
            };
        }
        true
    } else {
        (len as u64) < pow256_u64(width)
    }
}

/// Builds the wire bytes of a record whose tag and payload size fit their
/// header fields.
pub fn encode_record(tag_raw: u64, payload: &[u8], cfg: &TlvConfig) -> (r: Vec<u8>)
    requires
        cfg.wf(),
        (tag_raw as nat) < pow256(cfg.tag_width as nat),
        payload@.len() < pow256(cfg.len_width as nat),
        cfg.spec_header_len() + payload@.len() <= usize::MAX,
    ensures
        r@ == spec_encoding(tag_raw as nat, payload@, *cfg),
        r@.len() == cfg.spec_header_len() + payload@.len(),
{
    proof {
        lemma_field_bytes_len(tag_raw as nat, cfg.tag_width as nat, cfg.big_endian);
        lemma_field_bytes_len(payload@.len(), cfg.len_width as nat, cfg.big_endian);
        lemma_pow256_fits_u64(cfg.len_width as nat);
    }
    let len_val: u64 = payload.len() as u64;
    let mut out = write_uint(tag_raw, cfg.tag_width, cfg.big_endian);
    let mut len_field = write_uint(len_val, cfg.len_width, cfg.big_endian);
    out.append(&mut len_field);
    push_bytes(&mut out, payload);
    out
}

/// A TLV record before any tag mapping: the tag exactly as the wire holds
/// it, and the payload as a borrowed view into the decoded buffer, taken
/// without a copy. The length is never stored; it is recomputed from the
/// payload at encode time.
#[derive(Debug, Clone, Copy)]
pub struct RawTLV<'a> {
    pub tlv_type: u64,
    pub slice: &'a [u8],
}

impl<'a> RawTLV<'a> {
    /// The tag value fits the configured tag field.
    pub open spec fn wf(self, cfg: TlvConfig) -> bool {
        (self.tlv_type as nat) < pow256(cfg.tag_width as nat)
    }

    /// Decodes one record from the front of `from`: the header, then
    /// exactly the declared number of payload bytes. Returns the record and
    /// the count of bytes consumed; bytes past that are left to the caller.
    pub fn try_from_ctx(from: &'a [u8], cfg: &TlvConfig) -> (r: Result<
        (RawTLV<'a>, usize),
        TlvError,
    >)
        requires
            cfg.wf(),
        ensures
            r is Ok <==> spec_decode_ok(from@, *cfg),
            r matches Ok((tlv, consumed)) ==> {
                &&& tlv.tlv_type as nat == spec_decoded_tag(from@, *cfg)
                &&& tlv.slice@ == spec_decoded_payload(from@, *cfg)
                &&& consumed as nat == cfg.spec_header_len() + spec_decoded_len(from@, *cfg)
                &&& tlv.wf(*cfg)
            },
            r matches Err(e) ==> e == spec_decode_err(from@, *cfg),
    {
        let header = cfg.header_len();
        let avail = from.len();
        if avail < header {
            return Err(TlvError::InsufficientData { missing: header - avail });
        }
        let tag = read_uint(from, 0, cfg.tag_width, cfg.big_endian);
        let len64 = read_uint(from, cfg.tag_width, cfg.len_width, cfg.big_endian);
        if len64 > (usize::MAX as u64) {
            return Err(TlvError::LengthConversionFailed);
        }
        let len = len64 as usize;
        if avail - header < len {
            return Err(TlvError::InsufficientData { missing: len - (avail - header) });
        }
        let slice = vstd::slice::slice_subrange(from, header, header + len);
        Ok((RawTLV { tlv_type: tag, slice }, header + len))
    }

    /// Encodes into the front of `buf`, whose length is the capacity; bytes
    /// past the record keep their old values. When it fails, nothing at all
    /// is written.
    pub fn try_into_ctx(self, buf: &mut Vec<u8>, cfg: &TlvConfig) -> (r: Result<usize, TlvError>)
        requires
            cfg.wf(),
            self.wf(*cfg),
        ensures
            r is Ok <==> (self.slice@.len() < pow256(cfg.len_width as nat) && old(buf)@.len()
                >= cfg.spec_header_len() + self.slice@.len()),
            r matches Ok(n) ==> {
                &&& n as nat == cfg.spec_header_len() + self.slice@.len()
                &&& final(buf)@ == spec_encoding(self.tlv_type as nat, self.slice@, *cfg) + old(
                    buf,
                )@.skip(n as int)
                &&& final(buf)@.len() == old(buf)@.len()
            },
            r is Err ==> *final(buf) == *old(buf),
            r matches Err(e) ==> e == (if self.slice@.len() >= pow256(cfg.len_width as nat) {
                TlvError::LengthOverflow
            } else {
                TlvError::BufferTooSmall
            }),
    {
        if !len_fits_field(self.slice.len(), cfg.len_width) {
            return Err(TlvError::LengthOverflow);
        }
        let header = cfg.header_len();
        if buf.len() < header || buf.len() - header < self.slice.len() {
            return Err(TlvError::BufferTooSmall);
        }
        let total = header + self.slice.len();
        let enc = encode_record(self.tlv_type, self.slice, cfg);
        let mut i: usize = 0;
        while i < total
            invariant
                i <= total,
                total == enc@.len(),
                enc@.len() <= buf@.len(),
                buf@.len() == old(buf)@.len(),
                enc@ == spec_encoding(self.tlv_type as nat, self.slice@, *cfg),
                forall|j: int| 0 <= j < i ==> buf@[j] == enc@[j],
                forall|j: int| i <= j < buf@.len() ==> buf@[j] == old(buf)@[j],
            decreases total - i,
        {
            let b = enc[i];
            buf[i] = b;
            i = i + 1;
        }
        proof {
            assert(buf@ =~= spec_encoding(self.tlv_type as nat, self.slice@, *cfg) + old(
                buf,
            )@.skip(total as int));
        }
        Ok(total)
    }

    /// The record's encoded size: the header plus the payload.
    pub fn measure_with(&self, cfg: &TlvConfig) -> (n: usize)
        requires
            cfg.wf(),
            cfg.spec_header_len() + self.slice@.len() <= usize::MAX,
        ensures
            n as nat == cfg.spec_header_len() + self.slice@.len(),
    {
        cfg.header_len() + self.slice.len()
    }
}

/// Round-trip law at the wire level: the encoding of any record whose tag
/// and payload size fit their fields, followed by any trailing bytes,
/// decodes back to exactly that tag and payload, and consumes exactly the
/// encoding, leaving the trailing bytes alone.
pub proof fn lemma_round_trip(tag_raw: nat, payload: Seq<u8>, extra: Seq<u8>, cfg: TlvConfig)
    requires
        cfg.wf(),
        tag_raw < pow256(cfg.tag_width as nat),
        payload.len() < pow256(cfg.len_width as nat),
        payload.len() <= usize::MAX,
    ensures
        spec_decode_ok(spec_encoding(tag_raw, payload, cfg) + extra, cfg),
        spec_decoded_tag(spec_encoding(tag_raw, payload, cfg) + extra, cfg) == tag_raw,
        spec_decoded_len(spec_encoding(tag_raw, payload, cfg) + extra, cfg) == payload.len(),
        spec_decoded_payload(spec_encoding(tag_raw, payload, cfg) + extra, cfg) == payload,
        spec_encoding(tag_raw, payload, cfg).len() == cfg.spec_header_len() + payload.len(),
{
    let tw = cfg.tag_width as nat;
    let lw = cfg.len_width as nat;
    let big = cfg.big_endian;
    let tagf = field_bytes(tag_raw, tw, big);
    let lenf = field_bytes(payload.len(), lw, big);
    lemma_field_bytes_len(tag_raw, tw, big);
    lemma_field_bytes_len(payload.len(), lw, big);
    let bytes = spec_encoding(tag_raw, payload, cfg) + extra;
    assert(bytes.subrange(0, tw as int) =~= tagf);
    assert(bytes.subrange(tw as int, (tw + lw) as int) =~= lenf);
    lemma_field_value_of_bytes(tag_raw, tw, big);
    lemma_field_value_of_bytes(payload.len(), lw, big);
    assert(bytes.subrange((tw + lw) as int, (tw + lw + payload.len()) as int) =~= payload);
}

/// Re-encoding what was decoded reproduces the consumed bytes exactly; in
/// particular, a tag value the caller does not recognise is written back
/// unchanged, and a decoded record re-measures to the same length field.
pub proof fn lemma_encode_decoded(bytes: Seq<u8>, cfg: TlvConfig)
    requires
        cfg.wf(),
        spec_decode_ok(bytes, cfg),
    ensures
        spec_encoding(spec_decoded_tag(bytes, cfg), spec_decoded_payload(bytes, cfg), cfg)
            == bytes.subrange(0, (cfg.spec_header_len() + spec_decoded_len(bytes, cfg)) as int),
{
    let tw = cfg.tag_width as nat;
    let lw = cfg.len_width as nat;
    let big = cfg.big_endian;
    let tagf = bytes.subrange(0, tw as int);
    let lenf = bytes.subrange(tw as int, (tw + lw) as int);
    let pay = spec_decoded_payload(bytes, cfg);
    lemma_field_bytes_of_value(tagf, big);
    lemma_field_bytes_of_value(lenf, big);
    assert(pay.len() == spec_decoded_len(bytes, cfg));
    assert(spec_encoding(spec_decoded_tag(bytes, cfg), pay, cfg) =~= bytes.subrange(
        0,
        (cfg.spec_header_len() + spec_decoded_len(bytes, cfg)) as int,
    ));
}

/// The raw tag a well-formed buffer holds always fits the tag field (and so
/// a `u64`): decoding never fails on an unrecognised or oversized tag.
pub proof fn lemma_decoded_tag_bound(bytes: Seq<u8>, cfg: TlvConfig)
    requires
        cfg.wf(),
        bytes.len() >= cfg.spec_header_len(),
    ensures
        spec_decoded_tag(bytes, cfg) < pow256(cfg.tag_width as nat),
        spec_decoded_tag(bytes, cfg) < 0x1_0000_0000_0000_0000,
{
    lemma_field_value_bound(bytes.subrange(0, cfg.tag_width as int), cfg.big_endian);
    lemma_pow256_fits_u64(cfg.tag_width as nat);
}

} // verus!
