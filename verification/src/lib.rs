//! A verified codec for Type-Length-Value (TLV) binary records.
//!
//! A record on the wire is a fixed-width tag field, a fixed-width length
//! field, and exactly `length` payload bytes, with no padding and no
//! trailing delimiter. The widths of the two header fields and the byte
//! order are chosen once, when a [`TlvConfig`] is built, and hold for
//! every record of that stream.

pub mod raw_tlv;
pub mod wire;

use crate::raw_tlv::{
    encode_record, len_fits_field, spec_decode_err, spec_decode_ok, spec_decoded_len,
    spec_decoded_payload, spec_decoded_tag, spec_encoding, RawTLV,
};
use crate::wire::pow256;
use vstd::prelude::*;

verus! {

/// Header layout of a TLV stream: the widths of the tag and length fields
/// in bytes, and the byte order of both.
#[derive(Debug, Clone, Copy, PartialEq, Eq, Structural)]
pub struct TlvConfig {
    pub tag_width: usize,
    pub len_width: usize,
    pub big_endian: bool,
}

impl TlvConfig {
    /// Each header field is one to eight bytes wide.
    pub open spec fn wf(self) -> bool {
        &&& 1 <= self.tag_width <= 8
        &&& 1 <= self.len_width <= 8
    }

    /// The number of bytes the two header fields occupy together.
    pub open spec fn spec_header_len(self) -> nat {
        (self.tag_width + self.len_width) as nat
    }

    /// Builds a configuration, checking the widths: each field must be
    /// one to eight bytes wide.
    pub fn new(tag_width: usize, len_width: usize, big_endian: bool) -> (r: Option<TlvConfig>)
        ensures
            r is Some <==> (1 <= tag_width <= 8 && 1 <= len_width <= 8),
            r matches Some(cfg) ==> cfg == (TlvConfig { tag_width, len_width, big_endian })
                && cfg.wf(),
    {
        if 1 <= tag_width && tag_width <= 8 && 1 <= len_width && len_width <= 8 {
            Some(TlvConfig { tag_width, len_width, big_endian })
        } else {
            None
        }
    }

    /// The header length in bytes.
    pub fn header_len(&self) -> (n: usize)
        requires
            self.wf(),
        ensures
            n as nat == self.spec_header_len(),
    {
        self.tag_width + self.len_width
    }
}

/// A strongly-typed tag, readable from and writable to the raw integer the
/// wire tag field stores. The mapping must be total and lossless: every raw
/// value maps to some tag (an implementation keeps unrecognised raw values
/// in a variant of their own), and mapping a raw value to a tag and back
/// gives the raw value unchanged, so decoding never drops a tag it cannot
/// interpret.
pub trait RW: Sized {
    /// The raw wire value this tag stands for.
    spec fn raw_spec(&self) -> u64;

    /// The tag a raw wire value maps to.
    spec fn from_raw_spec(raw: u64) -> Self;

    /// The mapping never loses the raw value.
    proof fn lemma_from_raw_keeps_raw(raw: u64)
        ensures
            Self::from_raw_spec(raw).raw_spec() == raw,
    ;

    /// Maps a raw wire value to its tag; total, never an error.
    fn from_raw(raw: u64) -> (t: Self)
        ensures
            t == Self::from_raw_spec(raw),
    ;

    /// The raw wire value of this tag.
    fn raw(&self) -> (r: u64)
        ensures
            r == self.raw_spec(),
    ;
}

/// A tag is canonical when it is the tag its own raw value maps to.
/// Decoded tags are always canonical; a hand-built unrecognised-value tag
/// that shadows a recognised raw value is not, and encoding it loses the
/// distinction (never the raw value).
pub open spec fn tag_canonical<TLVType: RW>(tag: TLVType) -> bool {
    TLVType::from_raw_spec(tag.raw_spec()) == tag
}

/// The raw tag itself, for streams whose tags carry no further meaning:
/// every value maps to itself.
impl RW for u64 {
    open spec fn raw_spec(&self) -> u64 {
        *self
    }

    open spec fn from_raw_spec(raw: u64) -> u64 {
        raw
    }

    proof fn lemma_from_raw_keeps_raw(raw: u64) {
    }

    fn from_raw(raw: u64) -> u64 {
        raw
    }

    fn raw(&self) -> u64 {
        *self
    }
}

/// A small tag vocabulary with one recognised value: raw `0x03` is `Three`,
/// and every other raw value is kept, unchanged, in `Unknown`.
#[derive(Debug, Clone, Copy, PartialEq, Eq, Structural)]
pub enum DemoTag {
    Three,
    Unknown(u64),
}

impl RW for DemoTag {
    open spec fn raw_spec(&self) -> u64 {
        match *self {
            DemoTag::Three => 3,
            DemoTag::Unknown(raw) => raw,
        }
    }

    open spec fn from_raw_spec(raw: u64) -> DemoTag {
        if raw == 3 {
            DemoTag::Three
        } else {
            DemoTag::Unknown(raw)
        }
    }

    proof fn lemma_from_raw_keeps_raw(raw: u64) {
    }

    fn from_raw(raw: u64) -> DemoTag {
        if raw == 3 {
            DemoTag::Three
        } else {
            DemoTag::Unknown(raw)
        }
    }

    fn raw(&self) -> u64 {
        match *self {
            DemoTag::Three => 3,
            DemoTag::Unknown(raw) => raw,
        }
    }
}

/// What a payload must offer the codec: measure its serialized size, write
/// its bytes, and read itself back from exactly the bytes a record's length
/// field delimits. The opaque variant is `Vec<u8>`, which takes the bytes
/// as they are; a structured payload type runs its own decoder over exactly
/// the delimited span and its own error comes through unchanged.
pub trait PayloadCodec: Sized {
    /// The bytes this payload serializes to.
    spec fn bytes_spec(&self) -> Seq<u8>;

    /// Which byte spans read back as a payload of this type.
    spec fn parses_spec(bytes: Seq<u8>) -> bool;

    /// What a payload writes, it reads back: its own bytes always parse.
    proof fn lemma_own_bytes_parse(&self)
        ensures
            Self::parses_spec(self.bytes_spec()),
    ;

    /// Reads a payload from exactly the given bytes.
    fn read_from_bytes(bytes: &[u8]) -> (r: Result<Self, TlvError>)
        ensures
            r is Ok <==> Self::parses_spec(bytes@),
            r matches Ok(p) ==> p.bytes_spec() == bytes@,
    ;

    /// The payload's serialized bytes.
    fn write_bytes(&self) -> (r: Vec<u8>)
        ensures
            r@ == self.bytes_spec(),
    ;

    /// The payload's serialized size.
    fn measure(&self) -> (n: usize)
        ensures
            n as nat == self.bytes_spec().len(),
    ;
}

/// The opaque payload: a byte buffer, written and read unchanged. Reading
/// never fails, whatever the bytes hold.
impl PayloadCodec for Vec<u8> {
    open spec fn bytes_spec(&self) -> Seq<u8> {
        self@
    }

    open spec fn parses_spec(bytes: Seq<u8>) -> bool {
        true
    }

    proof fn lemma_own_bytes_parse(&self) {
    }

    fn read_from_bytes(bytes: &[u8]) -> (r: Result<Vec<u8>, TlvError>) {
        Ok(vstd::slice::slice_to_vec(bytes))
    }

    fn write_bytes(&self) -> (r: Vec<u8>) {
        vstd::slice::slice_to_vec(self.as_slice())
    }

    fn measure(&self) -> (n: usize) {
        self.len()
    }
}

/// Why a decode or encode stopped; always returned to the caller, never
/// recovered from silently.
#[derive(Debug, Clone, Copy, PartialEq, Eq, Structural)]
pub enum TlvError {
    /// Fewer bytes were available than the header or the declared payload
    /// length required; `missing` is the exact shortfall of the step that
    /// failed.
    InsufficientData { missing: usize },
    /// The wire length value cannot be represented as a host size.
    LengthConversionFailed,
    /// The payload size cannot be represented in the length field.
    LengthOverflow,
    /// The destination buffer cannot hold the full encoded record.
    BufferTooSmall,
}

/// A TLV record: a strongly-typed tag and a payload. The length is never
/// stored: it is recomputed from the payload's serialized size at encode
/// time, so the two can never fall out of step.
#[derive(Debug, Clone)]
pub struct TLV<TLVType, Payload> {
    pub tlv_type: TLVType,
    pub data: Payload,
}

impl<TLVType: RW, Payload: PayloadCodec> TLV<TLVType, Payload> {
    /// The tag's raw value fits the configured tag field.
    pub open spec fn wf(self, cfg: TlvConfig) -> bool {
        (self.tlv_type.raw_spec() as nat) < pow256(cfg.tag_width as nat)
    }

    /// Decodes one record from the front of `from` and returns it with the
    /// count of bytes consumed; bytes past the record are left to the
    /// caller. The raw tag is mapped to `TLVType` (an unrecognised value is
    /// no error: the mapping keeps it), and the payload is read from
    /// exactly the bytes the length field delimits; a structured payload's
    /// own error is passed through unchanged.
    pub fn try_from_ctx(from: &[u8], cfg: &TlvConfig) -> (r: Result<
        (TLV<TLVType, Payload>, usize),
        TlvError,
    >)
        requires
            cfg.wf(),
        ensures
            r is Ok <==> (spec_decode_ok(from@, *cfg) && Payload::parses_spec(
                spec_decoded_payload(from@, *cfg),
            )),
            r matches Ok((tlv, consumed)) ==> {
                &&& tlv.tlv_type == TLVType::from_raw_spec(spec_decoded_tag(from@, *cfg) as u64)
                &&& tlv.data.bytes_spec() == spec_decoded_payload(from@, *cfg)
                &&& consumed as nat == cfg.spec_header_len() + spec_decoded_len(from@, *cfg)
                &&& tlv.wf(*cfg)
            },
            r is Err && !spec_decode_ok(from@, *cfg) ==> (r matches Err(e) && e
                == spec_decode_err(from@, *cfg)),
    {
        match RawTLV::try_from_ctx(from, cfg) {
            Ok((raw, consumed)) => {
                proof {
                    TLVType::lemma_from_raw_keeps_raw(raw.tlv_type);
                }
                match Payload::read_from_bytes(raw.slice) {
                    Ok(data) => Ok(
                        (TLV { tlv_type: TLVType::from_raw(raw.tlv_type), data }, consumed),
                    ),
                    Err(e) => Err(e),
                }
            },
            Err(e) => Err(e),
        }
    }

    /// Decodes one record from the front of `bytes`, dropping the count of
    /// consumed bytes.
    pub fn from_bytes(bytes: &[u8], cfg: &TlvConfig) -> (r: Result<TLV<TLVType, Payload>, TlvError>)
        requires
            cfg.wf(),
        ensures
            r is Ok <==> (spec_decode_ok(bytes@, *cfg) && Payload::parses_spec(
                spec_decoded_payload(bytes@, *cfg),
            )),
            r matches Ok(tlv) ==> {
                &&& tlv.tlv_type == TLVType::from_raw_spec(spec_decoded_tag(bytes@, *cfg) as u64)
                &&& tlv.data.bytes_spec() == spec_decoded_payload(bytes@, *cfg)
                &&& tlv.wf(*cfg)
            },
            r is Err && !spec_decode_ok(bytes@, *cfg) ==> (r matches Err(e) && e
                == spec_decode_err(bytes@, *cfg)),
    {
        match Self::try_from_ctx(bytes, cfg) {
            Ok((tlv, _)) => Ok(tlv),
            Err(e) => Err(e),
        }
    }

    /// Encodes into the front of `buf`, whose length is the capacity; bytes
    /// past the record keep their old values. When it fails, nothing at all
    /// is written.
    pub fn try_into_ctx(self, buf: &mut Vec<u8>, cfg: &TlvConfig) -> (r: Result<usize, TlvError>)
        requires
            cfg.wf(),
            self.wf(*cfg),
        ensures
            r is Ok <==> (self.data.bytes_spec().len() < pow256(cfg.len_width as nat) && old(
                buf,
            )@.len() >= cfg.spec_header_len() + self.data.bytes_spec().len()),
            r matches Ok(n) ==> {
                &&& n as nat == cfg.spec_header_len() + self.data.bytes_spec().len()
                &&& final(buf)@ == spec_encoding(
                    self.tlv_type.raw_spec() as nat,
                    self.data.bytes_spec(),
                    *cfg,
                ) + old(buf)@.skip(n as int)
                &&& final(buf)@.len() == old(buf)@.len()
            },
            r is Err ==> *final(buf) == *old(buf),
            r matches Err(e) ==> e == (if self.data.bytes_spec().len() >= pow256(
                cfg.len_width as nat,
            ) {
                TlvError::LengthOverflow
            } else {
                TlvError::BufferTooSmall
            }),
    {
        let payload = self.data.write_bytes();
        let raw = RawTLV { tlv_type: self.tlv_type.raw(), slice: payload.as_slice() };
        raw.try_into_ctx(buf, cfg)
    }

    /// Serializes into the caller's buffer; the same contract as
    /// [`TLV::try_into_ctx`].
    pub fn into_bytes(self, buf: &mut Vec<u8>, cfg: &TlvConfig) -> (r: Result<usize, TlvError>)
        requires
            cfg.wf(),
            self.wf(*cfg),
        ensures
            r is Ok <==> (self.data.bytes_spec().len() < pow256(cfg.len_width as nat) && old(
                buf,
            )@.len() >= cfg.spec_header_len() + self.data.bytes_spec().len()),
            r matches Ok(n) ==> {
                &&& n as nat == cfg.spec_header_len() + self.data.bytes_spec().len()
                &&& final(buf)@ == spec_encoding(
                    self.tlv_type.raw_spec() as nat,
                    self.data.bytes_spec(),
                    *cfg,
                ) + old(buf)@.skip(n as int)
                &&& final(buf)@.len() == old(buf)@.len()
            },
            r is Err ==> *final(buf) == *old(buf),
            r matches Err(e) ==> e == (if self.data.bytes_spec().len() >= pow256(
                cfg.len_width as nat,
            ) {
                TlvError::LengthOverflow
            } else {
                TlvError::BufferTooSmall
            }),
    {
        self.try_into_ctx(buf, cfg)
    }

    /// Serializes into a fresh buffer of at most `cap` bytes, a bounded
    /// stand-in for a fixed-capacity vector: a record that would not fit in
    /// `cap` is refused, never truncated.
    pub fn into_bytes_capped(self, cap: usize, cfg: &TlvConfig) -> (r: Result<Vec<u8>, TlvError>)
        requires
            cfg.wf(),
            self.wf(*cfg),
        ensures
            r is Ok <==> (self.data.bytes_spec().len() < pow256(cfg.len_width as nat)
                && cfg.spec_header_len() + self.data.bytes_spec().len() <= cap),
            r matches Ok(v) ==> {
                &&& v@ == spec_encoding(self.tlv_type.raw_spec() as nat, self.data.bytes_spec(), *cfg)
                &&& v@.len() <= cap
            },
            r matches Err(e) ==> e == (if self.data.bytes_spec().len() >= pow256(
                cfg.len_width as nat,
            ) {
                TlvError::LengthOverflow
            } else {
                TlvError::BufferTooSmall
            }),
    {
        let payload = self.data.write_bytes();
        if !len_fits_field(payload.len(), cfg.len_width) {
            return Err(TlvError::LengthOverflow);
        }
        let header = cfg.header_len();
        if cap < header || cap - header < payload.len() {
            return Err(TlvError::BufferTooSmall);
        }
        Ok(encode_record(self.tlv_type.raw(), payload.as_slice(), cfg))
    }

    /// Serializes into a freshly allocated buffer of exactly the record's
    /// encoded size.
    pub fn to_bytes_dynamic(&self, cfg: &TlvConfig) -> (r: Result<Vec<u8>, TlvError>)
        requires
            cfg.wf(),
            self.wf(*cfg),
            cfg.spec_header_len() + self.data.bytes_spec().len() <= usize::MAX,
        ensures
            r is Ok <==> self.data.bytes_spec().len() < pow256(cfg.len_width as nat),
            r matches Ok(v) ==> {
                &&& v@ == spec_encoding(self.tlv_type.raw_spec() as nat, self.data.bytes_spec(), *cfg)
                &&& v@.len() == cfg.spec_header_len() + self.data.bytes_spec().len()
            },
            r matches Err(e) ==> e == TlvError::LengthOverflow,
    {
        let payload = self.data.write_bytes();
        if !len_fits_field(payload.len(), cfg.len_width) {
            return Err(TlvError::LengthOverflow);
        }
        Ok(encode_record(self.tlv_type.raw(), payload.as_slice(), cfg))
    }

    /// The record's encoded size: the header plus the payload.
    pub fn measure_with(&self, cfg: &TlvConfig) -> (n: usize)
        requires
            cfg.wf(),
            cfg.spec_header_len() + self.data.bytes_spec().len() <= usize::MAX,
        ensures
            n as nat == cfg.spec_header_len() + self.data.bytes_spec().len(),
    {
        cfg.header_len() + self.data.measure()
    }
}

/// Round-trip law: encoding any record whose tag is canonical and whose
/// payload size fits the length field, then decoding the result (with any
/// trailing bytes after it), succeeds, gives back the same tag and the same
/// payload bytes, and consumes exactly the record's own bytes.
pub proof fn lemma_tlv_round_trip<TLVType: RW, Payload: PayloadCodec>(
    tag: TLVType,
    payload: Payload,
    extra: Seq<u8>,
    cfg: TlvConfig,
)
    requires
        cfg.wf(),
        tag_canonical(tag),
        (tag.raw_spec() as nat) < pow256(cfg.tag_width as nat),
        payload.bytes_spec().len() < pow256(cfg.len_width as nat),
        payload.bytes_spec().len() <= usize::MAX,
    ensures
        spec_decode_ok(
            spec_encoding(tag.raw_spec() as nat, payload.bytes_spec(), cfg) + extra,
            cfg,
        ),
        Payload::parses_spec(
            spec_decoded_payload(
                spec_encoding(tag.raw_spec() as nat, payload.bytes_spec(), cfg) + extra,
                cfg,
            ),
        ),
        TLVType::from_raw_spec(
            spec_decoded_tag(
                spec_encoding(tag.raw_spec() as nat, payload.bytes_spec(), cfg) + extra,
                cfg,
            ) as u64,
        ) == tag,
        spec_decoded_payload(
            spec_encoding(tag.raw_spec() as nat, payload.bytes_spec(), cfg) + extra,
            cfg,
        ) == payload.bytes_spec(),
        cfg.spec_header_len() + spec_decoded_len(
            spec_encoding(tag.raw_spec() as nat, payload.bytes_spec(), cfg) + extra,
            cfg,
        ) == spec_encoding(tag.raw_spec() as nat, payload.bytes_spec(), cfg).len(),
{
    crate::raw_tlv::lemma_round_trip(tag.raw_spec() as nat, payload.bytes_spec(), extra, cfg);
    payload.lemma_own_bytes_parse();
}

/// Unknown-tag preservation: whatever the tag vocabulary, re-encoding what
/// was decoded reproduces the consumed bytes exactly — a raw tag value with
/// no recognised mapping comes back out unchanged.
pub proof fn lemma_unknown_tag_preserved<TLVType: RW>(bytes: Seq<u8>, cfg: TlvConfig)
    requires
        cfg.wf(),
        spec_decode_ok(bytes, cfg),
    ensures
        TLVType::from_raw_spec(spec_decoded_tag(bytes, cfg) as u64).raw_spec() as nat
            == spec_decoded_tag(bytes, cfg),
        spec_encoding(
            TLVType::from_raw_spec(spec_decoded_tag(bytes, cfg) as u64).raw_spec() as nat,
            spec_decoded_payload(bytes, cfg),
            cfg,
        ) == bytes.subrange(0, (cfg.spec_header_len() + spec_decoded_len(bytes, cfg)) as int),
{
    crate::raw_tlv::lemma_decoded_tag_bound(bytes, cfg);
    TLVType::lemma_from_raw_keeps_raw(spec_decoded_tag(bytes, cfg) as u64);
    crate::raw_tlv::lemma_encode_decoded(bytes, cfg);
}

} // verus!
