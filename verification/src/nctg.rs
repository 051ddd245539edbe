//! The leaf metadata box, `nctg`: a flat sequence of tag/type/length/value
//! records bounded by the box's declared size. The decoder extracts two named
//! text attributes — a capture timestamp and a timezone — and skips every
//! other recognized record; an unrecognized TLV type code is fatal.
use vstd::prelude::*;

use vstd::string::StrSliceExecFns;
use vstd::utf8::decode_utf8;
use vstd::utf8::encode_utf8;
use vstd::utf8::valid_utf8;

use crate::be::be_u16_at;
use crate::be::be_u32_at;
use crate::be::push_u16_be;
use crate::be::push_u32_be;
use crate::be::spec_u16_from_be;
use crate::be::spec_u16_to_be;
use crate::be::spec_u32_from_be;
use crate::be::spec_u32_to_be;
use crate::rem_span;
use crate::stream::ByteReader;
use crate::BoxType;
use crate::Error;
use crate::HEADER_SIZE;
use crate::NCTG_FOURCC;

verus! {

/// TLV type code: 1-byte elements, skipped.
pub const TLV_U8: u16 = 0x01;

/// TLV type code: text; the payload's final byte is a terminator.
pub const TLV_STRING: u16 = 0x02;

/// TLV type code: 2-byte elements, skipped.
pub const TLV_U16: u16 = 0x03;

/// TLV type code: 4-byte elements, skipped.
pub const TLV_U32: u16 = 0x04;

/// TLV type code: 8-byte decimal elements, skipped.
pub const TLV_DECIMAL: u16 = 0x05;

/// TLV type code: raw byte buffer, skipped.
pub const TLV_BYTES: u16 = 0x07;

/// Tag identifier of the capture timestamp attribute.
pub const TAG_DATE_TIME_ORIGINAL: u32 = 0x0012;

/// Tag identifier of the timezone attribute.
pub const TAG_TIME_ZONE: u32 = 0x0019;

/// The leaf metadata record: two independent optional text attributes.
#[derive(Debug, Clone, PartialEq, Eq)]
pub struct NctgBox {
    pub date_time_original: Option<String>,
    pub time_zone: Option<String>,
}

/// The mathematical value of an `NctgBox`: each attribute as an optional
/// character sequence.
pub struct NctgView {
    pub date_time_original: Option<Seq<char>>,
    pub time_zone: Option<Seq<char>>,
}

impl NctgView {
    /// The record with both attributes absent.
    pub open spec fn empty() -> NctgView {
        NctgView { date_time_original: None, time_zone: None }
    }
}

/// The optional character sequence held by an optional string.
pub open spec fn opt_str_view(o: Option<String>) -> Option<Seq<char>> {
    match o {
        Some(s) => Some(s@),
        None => None,
    }
}

impl View for NctgBox {
    type V = NctgView;

    open spec fn view(&self) -> NctgView {
        NctgView {
            date_time_original: opt_str_view(self.date_time_original),
            time_zone: opt_str_view(self.time_zone),
        }
    }
}

impl Default for NctgBox {
    /// The record with both attributes absent.
    fn default() -> (r: NctgBox)
        ensures
            r@ == NctgView::empty(),
    {
        NctgBox { date_time_original: None, time_zone: None }
    }
}

/// The text bytes of a TLV string payload of `len` bytes at `body`: the
/// payload with its final byte — the terminator — dropped.
pub open spec fn tlv_text(d: Seq<u8>, body: int, len: int) -> Seq<u8> {
    if len > 0 {
        d.subrange(body, body + len - 1)
    } else {
        Seq::empty()
    }
}

/// The record after a decoded text value under `tag` is stored: the capture
/// timestamp and timezone identifiers each overwrite their field — last one
/// wins — and any other identifier stores nothing.
pub open spec fn tlv_store(acc: NctgView, tag: u32, s: Seq<char>) -> NctgView {
    if tag == TAG_DATE_TIME_ORIGINAL {
        NctgView { date_time_original: Some(s), time_zone: acc.time_zone }
    } else if tag == TAG_TIME_ZONE {
        NctgView { date_time_original: acc.date_time_original, time_zone: Some(s) }
    } else {
        acc
    }
}

/// What parsing the TLV records of `d` from `pos` up to `end` yields, with
/// `acc` the attributes found so far. Each record is a 32-bit tag, a 16-bit
/// type code and a 16-bit element count, big-endian, then a payload whose
/// byte length is a function of type code and count. A read or skip past the
/// end of `d` is a stream failure; an unrecognized type code is fatal.
pub open spec fn tlv_parse(d: Seq<u8>, pos: int, end: int, acc: NctgView) -> Result<
    NctgView,
    Error,
>
    decreases rem_span(pos, end),
{
    if pos >= end {
        Ok(acc)
    } else if pos + 8 > d.len() {
        Err(Error::StreamFailure)
    } else {
        let tag = be_u32_at(d, pos);
        let ty = be_u16_at(d, pos + 4);
        let len = be_u16_at(d, pos + 6) as int;
        let body = pos + 8;
        if ty == TLV_U8 || ty == TLV_BYTES {
            if body + len <= d.len() {
                tlv_parse(d, body + len, end, acc)
            } else {
                Err(Error::StreamFailure)
            }
        } else if ty == TLV_STRING {
            if body + len <= d.len() {
                if valid_utf8(tlv_text(d, body, len)) {
                    tlv_parse(d, body + len, end, tlv_store(acc, tag, decode_utf8(tlv_text(d, body, len))))
                } else {
                    Err(Error::TextDecodeFailure)
                }
            } else {
                Err(Error::StreamFailure)
            }
        } else if ty == TLV_U16 {
            if body + 2 * len <= d.len() {
                tlv_parse(d, body + 2 * len, end, acc)
            } else {
                Err(Error::StreamFailure)
            }
        } else if ty == TLV_U32 {
            if body + 4 * len <= d.len() {
                tlv_parse(d, body + 4 * len, end, acc)
            } else {
                Err(Error::StreamFailure)
            }
        } else if ty == TLV_DECIMAL {
            if body + 8 * len <= d.len() {
                tlv_parse(d, body + 8 * len, end, acc)
            } else {
                Err(Error::StreamFailure)
            }
        } else {
            Err(Error::UnsupportedTlvType)
        }
    }
}

/// What reading a whole `nctg` box yields: `pos` stands at the box body —
/// right after the 8-byte header — and `size` is the box's declared size,
/// header included. After the records the stream is forced to the declared
/// end offset, so a declared range past the end of the buffer is a stream
/// failure even when every record fit.
pub open spec fn nctg_read_spec(d: Seq<u8>, pos: int, size: int) -> Result<NctgView, Error> {
    let end = pos - 8 + size;
    match tlv_parse(d, pos, end, NctgView::empty()) {
        Ok(v) => if end <= d.len() {
            Ok(v)
        } else {
            Err(Error::StreamFailure)
        },
        Err(e) => Err(e),
    }
}

/// The read result with the parsed box replaced by its mathematical value.
pub open spec fn nctg_result_view(r: Result<NctgBox, Error>) -> Result<NctgView, Error> {
    match r {
        Ok(b) => Ok(b@),
        Err(e) => Err(e),
    }
}

/// The wire size of one text TLV record holding `s`: 8 bytes of tag, type
/// code and element count, then the UTF-8 bytes of `s` and one terminator.
pub open spec fn text_field_size(s: Seq<char>) -> int {
    8 + encode_utf8(s).len() as int + 1
}

/// A box's total size: its header plus one text record for each present
/// attribute, the capture timestamp first. Computed once and reused
/// identically by the size query and the writer.
pub open spec fn nctg_size_spec(v: NctgView) -> int {
    8 + (match v.date_time_original {
        Some(s) => text_field_size(s),
        None => 0,
    }) + (match v.time_zone {
        Some(s) => text_field_size(s),
        None => 0,
    })
}

/// A record the writer can emit: each present attribute's UTF-8 bytes and
/// terminator fit the 16-bit element count of its TLV record.
pub open spec fn nctg_wf(v: NctgView) -> bool {
    &&& match v.date_time_original {
        Some(s) => encode_utf8(s).len() + 1 <= 0xFFFF,
        None => true,
    }
    &&& match v.time_zone {
        Some(s) => encode_utf8(s).len() + 1 <= 0xFFFF,
        None => true,
    }
}

/// The wire bytes of one text TLV record: tag, the text type code, the
/// element count — UTF-8 length plus terminator — then the UTF-8 bytes and a
/// zero terminator byte.
pub open spec fn text_entry_bytes(tag: u32, s: Seq<char>) -> Seq<u8> {
    spec_u32_to_be(tag) + spec_u16_to_be(TLV_STRING) + spec_u16_to_be(
        (encode_utf8(s).len() + 1) as u16,
    ) + encode_utf8(s) + seq![0u8]
}

/// The wire bytes of a box body: one text record for each present attribute,
/// the capture timestamp first.
pub open spec fn nctg_body_bytes(v: NctgView) -> Seq<u8> {
    (match v.date_time_original {
        Some(s) => text_entry_bytes(TAG_DATE_TIME_ORIGINAL, s),
        None => Seq::empty(),
    }) + (match v.time_zone {
        Some(s) => text_entry_bytes(TAG_TIME_ZONE, s),
        None => Seq::empty(),
    })
}

/// The wire bytes of a whole `nctg` box: the header — total size, then the
/// type code — and the body.
pub open spec fn nctg_bytes(v: NctgView) -> Seq<u8> {
    spec_u32_to_be(nctg_size_spec(v) as u32) + spec_u32_to_be(NCTG_FOURCC) + nctg_body_bytes(v)
}

/// Relies on `String::from_utf8`: it succeeds exactly on valid UTF-8 input,
/// and then returns the string whose characters decode those bytes.
#[verifier::external_body]
fn string_from_utf8(v: Vec<u8>) -> (r: Option<String>)
    ensures
        r is Some <==> valid_utf8(v@),
        r matches Some(s) ==> s@ == decode_utf8(v@),
{
    String::from_utf8(v).ok()
}

/// The attributes held by the current loop state.
pub open spec fn pair_view(dto: Option<String>, tz: Option<String>) -> NctgView {
    NctgView { date_time_original: opt_str_view(dto), time_zone: opt_str_view(tz) }
}

/// Appends one text TLV record for `field` under `tag`, or nothing when the
/// attribute is absent.
fn write_text_field(out: &mut Vec<u8>, tag: u32, field: &Option<String>)
    requires
        match *field {
            Some(s) => encode_utf8(s@).len() + 1 <= 0xFFFF,
            None => true,
        },
    ensures
        final(out)@ == old(out)@ + (match *field {
            Some(s) => text_entry_bytes(tag, s@),
            None => Seq::<u8>::empty(),
        }),
{
    match field {
        None => {
            assert(final(out)@ =~= old(out)@ + Seq::<u8>::empty());
        },
        Some(s) => {
            let bytes = s.as_str().as_bytes_vec();
            push_u32_be(out, tag);
            push_u16_be(out, TLV_STRING);
            push_u16_be(out, (bytes.len() + 1) as u16);
            out.extend_from_slice(bytes.as_slice());
            out.push(0u8);
            assert(final(out)@ =~= old(out)@ + text_entry_bytes(tag, s@));
        },
    }
}

impl NctgBox {
    /// The box's type code.
    pub fn get_type(&self) -> (r: BoxType)
        ensures
            r == BoxType::NctgBox,
    {
        BoxType::NctgBox
    }

    /// The box's total serialized size, header included: exactly the number
    /// of bytes [`NctgBox::write_box`] emits.
    pub fn get_size(&self) -> (r: u64)
        requires
            nctg_wf(self@),
        ensures
            r == nctg_size_spec(self@),
    {
        let mut size: u64 = HEADER_SIZE;
        match &self.date_time_original {
            Some(s) => {
                size = size + 8 + s.as_str().len() as u64 + 1;
            },
            None => {},
        }
        match &self.time_zone {
            Some(s) => {
                size = size + 8 + s.as_str().len() as u64 + 1;
            },
            None => {},
        }
        size
    }

    /// The box's type code.
    pub fn box_type(&self) -> (r: BoxType)
        ensures
            r == BoxType::NctgBox,
    {
        self.get_type()
    }

    /// The box's total serialized size, header included.
    pub fn box_size(&self) -> (r: u64)
        requires
            nctg_wf(self@),
        ensures
            r == nctg_size_spec(self@),
    {
        self.get_size()
    }

    /// Reads a leaf box from a stream positioned at its body, `size` being
    /// the declared total size, header included. Yields exactly what
    /// [`nctg_read_spec`] says of the bytes, and on success leaves the stream
    /// at the declared end offset however many bytes the records consumed.
    #[verifier::loop_isolation(false)]
    pub fn read_box(reader: &mut ByteReader, size: u64) -> (r: Result<NctgBox, Error>)
        requires
            old(reader).wf(),
            old(reader).pos >= HEADER_SIZE,
            old(reader).pos - HEADER_SIZE + size <= usize::MAX,
        ensures
            final(reader).data@ == old(reader).data@,
            final(reader).wf(),
            nctg_result_view(r) == nctg_read_spec(
                old(reader).data@,
                old(reader).pos as int,
                size as int,
            ),
            r is Ok ==> final(reader).pos == old(reader).pos - HEADER_SIZE + size,
    {
        let start: usize = reader.pos - 8;
        let end: usize = start + size as usize;
        let ghost d = reader.data@;
        let ghost pos0 = reader.pos as int;
        let mut dto: Option<String> = None;
        let mut tz: Option<String> = None;
        while reader.pos < end
            invariant
                reader.wf(),
                reader.data@ == d,
                end <= usize::MAX,
                tlv_parse(d, reader.pos as int, end as int, pair_view(dto, tz)) == tlv_parse(
                    d,
                    pos0,
                    end as int,
                    NctgView::empty(),
                ),
            decreases rem_span(reader.pos as int, end as int),
        {
            let ghost acc0 = pair_view(dto, tz);
            let ghost p = reader.pos as int;
            let tag = match reader.read_u32_be() {
                Ok(v) => v,
                Err(e) => {
                    return Err(e);
                },
            };
            let ty = match reader.read_u16_be() {
                Ok(v) => v,
                Err(e) => {
                    return Err(e);
                },
            };
            let len = match reader.read_u16_be() {
                Ok(v) => v,
                Err(e) => {
                    return Err(e);
                },
            };
            if ty == TLV_U8 || ty == TLV_BYTES {
                match reader.skip(len as u64) {
                    Ok(u) => u,
                    Err(e) => {
                        return Err(e);
                    },
                }
            } else if ty == TLV_STRING {
                let mut buf = match reader.read_exact(len as usize) {
                    Ok(v) => v,
                    Err(e) => {
                        return Err(e);
                    },
                };
                if buf.len() > 0 {
                    let _terminator = buf.pop();
                }
                proof {
                    assert(buf@ =~= tlv_text(d, p + 8, len as int));
                }
                match string_from_utf8(buf) {
                    Some(s) => {
                        if tag == TAG_DATE_TIME_ORIGINAL {
                            dto = Some(s);
                        } else if tag == TAG_TIME_ZONE {
                            tz = Some(s);
                        }
                    },
                    None => {
                        return Err(Error::TextDecodeFailure);
                    },
                }
            } else if ty == TLV_U16 {
                match reader.skip(len as u64 * 2) {
                    Ok(u) => u,
                    Err(e) => {
                        return Err(e);
                    },
                }
            } else if ty == TLV_U32 {
                match reader.skip(len as u64 * 4) {
                    Ok(u) => u,
                    Err(e) => {
                        return Err(e);
                    },
                }
            } else if ty == TLV_DECIMAL {
                match reader.skip(len as u64 * 8) {
                    Ok(u) => u,
                    Err(e) => {
                        return Err(e);
                    },
                }
            } else {
                return Err(Error::UnsupportedTlvType);
            }
            proof {
                assert(tlv_parse(d, reader.pos as int, end as int, pair_view(dto, tz))
                    == tlv_parse(d, p, end as int, acc0));
            }
        }
        match reader.seek_to(end as u64) {
            Ok(u) => u,
            Err(e) => {
                return Err(e);
            },
        }
        Ok(NctgBox { date_time_original: dto, time_zone: tz })
    }

    /// Writes the box: the header with the precomputed total size — correct
    /// on first emission, with no after-the-fact patching — then one text
    /// record per present attribute, in the order the size computation uses.
    /// Returns the total size, which equals the number of bytes appended.
    pub fn write_box(&self, out: &mut Vec<u8>) -> (r: Result<u64, Error>)
        requires
            nctg_wf(self@),
        ensures
            final(out)@ == old(out)@ + nctg_bytes(self@),
            r == Ok::<u64, Error>(nctg_size_spec(self@) as u64),
    {
        let size = self.get_size();
        push_u32_be(out, size as u32);
        push_u32_be(out, NCTG_FOURCC);
        write_text_field(out, TAG_DATE_TIME_ORIGINAL, &self.date_time_original);
        write_text_field(out, TAG_TIME_ZONE, &self.time_zone);
        assert(final(out)@ =~= old(out)@ + nctg_bytes(self@));
        Ok(size)
    }
}

/// A box's wire bytes are exactly as many as its reported total size: the
/// writer and the size query can never disagree.
pub proof fn lemma_nctg_bytes_len(v: NctgView)
    ensures
        nctg_bytes(v).len() == nctg_size_spec(v),
{
}

/// A writable box's total size is at least a bare header and bounded by the
/// header plus two maximal text records.
pub proof fn lemma_nctg_size_bounds(v: NctgView)
    requires
        nctg_wf(v),
    ensures
        8 <= nctg_size_spec(v) <= 131094,
{
}

/// Parsing one text TLV record under any tag: the decoder consumes exactly
/// the record — 8 header bytes, the text bytes and the terminator — and goes
/// on with the value stored as [`tlv_store`] says; in particular an
/// unrecognized tag stores nothing.
pub proof fn lemma_text_entry_parse(
    d: Seq<u8>,
    pos: int,
    end: int,
    acc: NctgView,
    tag: u32,
    s: Seq<char>,
)
    requires
        0 <= pos,
        encode_utf8(s).len() + 1 <= 0xFFFF,
        pos + 9 + encode_utf8(s).len() <= end,
        end <= d.len(),
        d.subrange(pos, pos + 9 + encode_utf8(s).len()) == text_entry_bytes(tag, s),
    ensures
        tlv_parse(d, pos, end, acc) == tlv_parse(
            d,
            pos + 9 + encode_utf8(s).len(),
            end,
            tlv_store(acc, tag, s),
        ),
{
    let blen = encode_utf8(s).len() as int;
    let entry = text_entry_bytes(tag, s);
    let lenf = (blen + 1) as u16;
    let a = spec_u32_to_be(tag);
    let b = spec_u16_to_be(TLV_STRING);
    let c = spec_u16_to_be(lenf);
    let e = encode_utf8(s);
    assert(a.len() == 4 && b.len() == 2 && c.len() == 2);
    assert(entry.len() == 9 + blen);
    assert forall|i: int| 0 <= i < 9 + blen implies d[pos + i] == entry[i] by {
        assert(d.subrange(pos, pos + 9 + blen)[i] == d[pos + i]);
    }
    assert(entry[0] == a[0] && entry[1] == a[1] && entry[2] == a[2] && entry[3] == a[3]);
    assert(entry[4] == b[0] && entry[5] == b[1]);
    assert(entry[6] == c[0] && entry[7] == c[1]);
    crate::be::lemma_u32_be_round_trip(tag);
    assert(be_u32_at(d, pos) == spec_u32_from_be(a[0], a[1], a[2], a[3]));
    assert(be_u32_at(d, pos) == tag);
    crate::be::lemma_u16_be_round_trip(TLV_STRING);
    assert(be_u16_at(d, pos + 4) == spec_u16_from_be(b[0], b[1]));
    assert(be_u16_at(d, pos + 4) == TLV_STRING);
    crate::be::lemma_u16_be_round_trip(lenf);
    assert(be_u16_at(d, pos + 6) == spec_u16_from_be(c[0], c[1]));
    assert(be_u16_at(d, pos + 6) == lenf);
    let body = pos + 8;
    assert forall|i: int| 0 <= i < blen implies d[body + i] == e[i] by {
        assert(d[pos + (8 + i)] == entry[8 + i]);
        assert(entry[8 + i] == e[i]);
    }
    assert(tlv_text(d, body, blen + 1) =~= e);
    vstd::utf8::encode_utf8_valid_utf8(s);
    vstd::utf8::encode_utf8_decode_utf8(s);
    assert(tlv_parse(d, pos, end, acc) == tlv_parse(d, body + blen + 1, end, tlv_store(acc, tag, s)));
}

/// Parsing one TLV record of a skipped type — 1-byte, 2-byte, 4-byte or
/// 8-byte elements, or a raw byte buffer — advances exactly the 8 header
/// bytes plus element width times element count, and stores nothing,
/// regardless of the tag identifier.
pub proof fn lemma_tlv_skip_entry(d: Seq<u8>, pos: int, end: int, acc: NctgView, width: int)
    requires
        pos < end,
        pos + 8 <= d.len(),
        (be_u16_at(d, pos + 4) == TLV_U8 && width == 1) || (be_u16_at(d, pos + 4) == TLV_BYTES
            && width == 1) || (be_u16_at(d, pos + 4) == TLV_U16 && width == 2) || (be_u16_at(
            d,
            pos + 4,
        ) == TLV_U32 && width == 4) || (be_u16_at(d, pos + 4) == TLV_DECIMAL && width == 8),
        pos + 8 + width * be_u16_at(d, pos + 6) <= d.len(),
    ensures
        tlv_parse(d, pos, end, acc) == tlv_parse(
            d,
            pos + 8 + width * be_u16_at(d, pos + 6),
            end,
            acc,
        ),
{
}

/// Parsing one text TLV record whose tag identifier is neither the capture
/// timestamp nor the timezone: the bytes are consumed — exactly the declared
/// count of payload bytes — and neither output field changes. The payload
/// must still decode as text: an invalid payload aborts whatever its tag.
pub proof fn lemma_tlv_unknown_tag_text(d: Seq<u8>, pos: int, end: int, acc: NctgView)
    requires
        pos < end,
        pos + 8 <= d.len(),
        be_u16_at(d, pos + 4) == TLV_STRING,
        be_u32_at(d, pos) != TAG_DATE_TIME_ORIGINAL,
        be_u32_at(d, pos) != TAG_TIME_ZONE,
        pos + 8 + be_u16_at(d, pos + 6) <= d.len(),
        valid_utf8(tlv_text(d, pos + 8, be_u16_at(d, pos + 6) as int)),
    ensures
        tlv_parse(d, pos, end, acc) == tlv_parse(d, pos + 8 + be_u16_at(d, pos + 6), end, acc),
{
}

/// Parsing a byte range that holds exactly the wire body of `v`, starting
/// with no attributes found, yields `v`.
#[verifier::spinoff_prover]
pub proof fn lemma_nctg_body_parse(v: NctgView, d: Seq<u8>, pos0: int, end: int)
    requires
        nctg_wf(v),
        0 <= pos0,
        pos0 + nctg_body_bytes(v).len() == end,
        end <= d.len(),
        d.subrange(pos0, end) == nctg_body_bytes(v),
    ensures
        tlv_parse(d, pos0, end, NctgView::empty()) == Ok::<NctgView, Error>(v),
{
    let body = nctg_body_bytes(v);
    assert forall|j: int| 0 <= j < body.len() implies d[pos0 + j] == body[j] by {
        assert(d.subrange(pos0, end)[j] == d[pos0 + j]);
    }
    match v.date_time_original {
        Some(s1) => {
            let b1 = encode_utf8(s1).len() as int;
            let entry1 = text_entry_bytes(TAG_DATE_TIME_ORIGINAL, s1);
            assert forall|j: int| 0 <= j < 9 + b1 implies d.subrange(pos0, pos0 + 9 + b1)[j]
                == entry1[j] by {
                assert(d[pos0 + j] == body[j]);
                assert(body[j] == entry1[j]);
            }
            assert(d.subrange(pos0, pos0 + 9 + b1) =~= entry1);
            lemma_text_entry_parse(d, pos0, end, NctgView::empty(), TAG_DATE_TIME_ORIGINAL, s1);
            let acc1 = tlv_store(NctgView::empty(), TAG_DATE_TIME_ORIGINAL, s1);
            let p2 = pos0 + 9 + b1;
            match v.time_zone {
                Some(s2) => {
                    let b2 = encode_utf8(s2).len() as int;
                    let entry2 = text_entry_bytes(TAG_TIME_ZONE, s2);
                    assert forall|j: int| 0 <= j < 9 + b2 implies d.subrange(p2, p2 + 9 + b2)[j]
                        == entry2[j] by {
                        assert(d[pos0 + (entry1.len() + j)] == body[entry1.len() + j]);
                        assert(body[entry1.len() + j] == entry2[j]);
                    }
                    assert(d.subrange(p2, p2 + 9 + b2) =~= entry2);
                    lemma_text_entry_parse(d, p2, end, acc1, TAG_TIME_ZONE, s2);
                    assert(tlv_store(acc1, TAG_TIME_ZONE, s2) == v);
                },
                None => {
                    assert(acc1 == v);
                },
            }
        },
        None => {
            match v.time_zone {
                Some(s2) => {
                    let b2 = encode_utf8(s2).len() as int;
                    let entry2 = text_entry_bytes(TAG_TIME_ZONE, s2);
                    assert forall|j: int| 0 <= j < 9 + b2 implies d.subrange(pos0, pos0 + 9 + b2)[j]
                        == entry2[j] by {
                        assert(d[pos0 + j] == body[j]);
                        assert(body[j] == entry2[j]);
                    }
                    assert(d.subrange(pos0, pos0 + 9 + b2) =~= entry2);
                    lemma_text_entry_parse(d, pos0, end, NctgView::empty(), TAG_TIME_ZONE, s2);
                    assert(tlv_store(NctgView::empty(), TAG_TIME_ZONE, s2) == v);
                },
                None => {
                    assert(NctgView::empty() == v);
                },
            }
        },
    }
}

/// Write-then-read round trip of the leaf box: a reader positioned after the
/// header of the emitted bytes, told the emitted size, yields an equal
/// value, wherever the box stands in the stream and whatever follows it.
#[verifier::spinoff_prover]
pub proof fn lemma_nctg_round_trip(v: NctgView, pre: Seq<u8>, suf: Seq<u8>)
    requires
        nctg_wf(v),
        pre.len() >= 8,
    ensures
        nctg_read_spec(pre + nctg_bytes(v) + suf, pre.len() as int + 8, nctg_size_spec(v)) == Ok::<
            NctgView,
            Error,
        >(v),
{
    let d = pre + nctg_bytes(v) + suf;
    let bytes = nctg_bytes(v);
    let body = nctg_body_bytes(v);
    let pos0: int = pre.len() as int + 8;
    let size: int = nctg_size_spec(v);
    let end: int = pos0 - 8 + size;
    lemma_nctg_bytes_len(v);
    assert forall|j: int| 0 <= j < body.len() implies d.subrange(pos0, end)[j] == body[j] by {
        assert((pre + nctg_bytes(v))[pre.len() + (8 + j)] == bytes[8 + j]);
        assert(d[pre.len() + (8 + j)] == bytes[8 + j]);
        assert(bytes[8 + j] == body[j]);
        assert(d.subrange(pos0, end)[j] == d[pos0 + j]);
    }
    assert(d.subrange(pos0, end) =~= body);
    lemma_nctg_body_parse(v, d, pos0, end);
}

} // verus!
