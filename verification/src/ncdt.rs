//! The container box, `ncdt`: a bounded sequence of child boxes. One child
//! type — the leaf metadata box — is recognized and read; every other type
//! code is structurally valid and skipped, never treated as an error. A child
//! whose declared size does not fit the parent's remaining declared budget is
//! rejected before any of its bytes are trusted.
use vstd::prelude::*;

use crate::be::be_u32_at;
use crate::be::push_u32_be;
use crate::be::spec_u32_to_be;
use crate::be::lemma_u32_be_round_trip;
use crate::be::spec_u32_from_be;
use crate::nctg::lemma_nctg_bytes_len;
use crate::nctg::lemma_nctg_round_trip;
use crate::nctg::lemma_nctg_size_bounds;
use crate::nctg::nctg_bytes;
use crate::nctg::nctg_read_spec;
use crate::nctg::nctg_size_spec;
use crate::nctg::nctg_wf;
use crate::nctg::NctgBox;
use crate::nctg::NctgView;
use crate::rem_span;
use crate::stream::ByteReader;
use crate::BoxType;
use crate::Error;
use crate::HEADER_SIZE;
use crate::NCDT_FOURCC;
use crate::NCTG_FOURCC;

verus! {

/// The container box: it owns zero or one leaf metadata box exclusively; the
/// format permits at most one occurrence of the recognized child type, and a
/// repeat on the wire overwrites — last one wins.
#[derive(Debug, Clone, PartialEq, Eq)]
pub struct NcdtBox {
    pub nctg: Option<NctgBox>,
}

/// The mathematical value of an `NcdtBox`.
pub struct NcdtView {
    pub nctg: Option<NctgView>,
}

/// The optional leaf value held by an optional leaf box.
pub open spec fn opt_nctg_view(o: Option<NctgBox>) -> Option<NctgView> {
    match o {
        Some(b) => Some(b@),
        None => None,
    }
}

impl View for NcdtBox {
    type V = NcdtView;

    open spec fn view(&self) -> NcdtView {
        NcdtView { nctg: opt_nctg_view(self.nctg) }
    }
}

impl Default for NcdtBox {
    /// The container with no leaf child.
    fn default() -> (r: NcdtBox)
        ensures
            r@ == (NcdtView { nctg: None }),
    {
        NcdtBox { nctg: None }
    }
}

/// What parsing the children of `d` from `pos` up to `end` yields, with `acc`
/// the leaf found so far. Each child starts with an 8-byte header: its
/// declared total size, then its type code. A size smaller than a header, or
/// larger than the parent's remaining budget `end - pos`, is a size
/// violation — checked before the child is entered. The recognized type is
/// read as a leaf box, last one wins; every other type is skipped whole.
pub open spec fn ncdt_parse(d: Seq<u8>, pos: int, end: int, acc: Option<NctgView>) -> Result<
    Option<NctgView>,
    Error,
>
    decreases rem_span(pos, end),
{
    if pos >= end {
        Ok(acc)
    } else if pos + 8 > d.len() {
        Err(Error::StreamFailure)
    } else {
        let s = be_u32_at(d, pos) as int;
        let name = be_u32_at(d, pos + 4);
        if s < 8 {
            Err(Error::SizeViolation)
        } else if s > end - pos {
            Err(Error::SizeViolation)
        } else if name == NCTG_FOURCC {
            match nctg_read_spec(d, pos + 8, s) {
                Ok(v) => ncdt_parse(d, pos + s, end, Some(v)),
                Err(e) => Err(e),
            }
        } else {
            if pos + s <= d.len() {
                ncdt_parse(d, pos + s, end, acc)
            } else {
                Err(Error::StreamFailure)
            }
        }
    }
}

/// What reading a whole `ncdt` box yields: `pos` stands at the box body —
/// right after the 8-byte header — and `size` is the box's declared size,
/// header included. After the children the stream is forced to the declared
/// end offset, absorbing any mismatch between summed child sizes and the
/// declared parent size.
pub open spec fn ncdt_read_spec(d: Seq<u8>, pos: int, size: int) -> Result<
    Option<NctgView>,
    Error,
> {
    let end = pos - 8 + size;
    match ncdt_parse(d, pos, end, None) {
        Ok(v) => if end <= d.len() {
            Ok(v)
        } else {
            Err(Error::StreamFailure)
        },
        Err(e) => Err(e),
    }
}

/// The read result with the parsed box replaced by its leaf value.
pub open spec fn ncdt_result_view(r: Result<NcdtBox, Error>) -> Result<Option<NctgView>, Error> {
    match r {
        Ok(b) => Ok(b@.nctg),
        Err(e) => Err(e),
    }
}

/// A container's total size: its header plus, when the leaf child is
/// present, the child's own total size. Computed once and reused identically
/// by the size query and the writer.
pub open spec fn ncdt_size_spec(v: NcdtView) -> int {
    8 + (match v.nctg {
        Some(n) => nctg_size_spec(n),
        None => 0,
    })
}

/// A container the writer can emit: its leaf child, when present, can be.
pub open spec fn ncdt_wf(v: NcdtView) -> bool {
    match v.nctg {
        Some(n) => nctg_wf(n),
        None => true,
    }
}

/// The wire bytes of a whole `ncdt` box: the header — total size, then the
/// type code — and the present child.
pub open spec fn ncdt_bytes(v: NcdtView) -> Seq<u8> {
    spec_u32_to_be(ncdt_size_spec(v) as u32) + spec_u32_to_be(NCDT_FOURCC) + (match v.nctg {
        Some(n) => nctg_bytes(n),
        None => Seq::empty(),
    })
}

impl NcdtBox {
    /// The box's type code.
    pub fn get_type(&self) -> (r: BoxType)
        ensures
            r == BoxType::NcdtBox,
    {
        BoxType::NcdtBox
    }

    /// The box's total serialized size, header included: exactly the number
    /// of bytes [`NcdtBox::write_box`] emits.
    pub fn get_size(&self) -> (r: u64)
        requires
            ncdt_wf(self@),
        ensures
            r == ncdt_size_spec(self@),
    {
        let mut size: u64 = HEADER_SIZE;
        match &self.nctg {
            Some(n) => {
                size = size + n.box_size();
            },
            None => {},
        }
        size
    }

    /// The box's type code.
    pub fn box_type(&self) -> (r: BoxType)
        ensures
            r == BoxType::NcdtBox,
    {
        self.get_type()
    }

    /// The box's total serialized size, header included.
    pub fn box_size(&self) -> (r: u64)
        requires
            ncdt_wf(self@),
        ensures
            r == ncdt_size_spec(self@),
    {
        self.get_size()
    }

    /// A one-line description of the box; this box type has none.
    pub fn summary(&self) -> (r: Result<String, Error>)
        ensures
            r matches Ok(s) && s@ == Seq::<char>::empty(),
    {
        Ok(String::new())
    }

    /// Reads a container box from a stream positioned at its body, `size`
    /// being the declared total size, header included. Yields exactly what
    /// [`ncdt_read_spec`] says of the bytes, and on success leaves the
    /// stream at the declared end offset however many bytes the children
    /// consumed.
    #[verifier::loop_isolation(false)]
    pub fn read_box(reader: &mut ByteReader, size: u64) -> (r: Result<NcdtBox, Error>)
        requires
            old(reader).wf(),
            old(reader).pos >= HEADER_SIZE,
            old(reader).pos - HEADER_SIZE + size <= usize::MAX,
        ensures
            final(reader).data@ == old(reader).data@,
            final(reader).wf(),
            ncdt_result_view(r) == ncdt_read_spec(
                old(reader).data@,
                old(reader).pos as int,
                size as int,
            ),
            r is Ok ==> final(reader).pos == old(reader).pos - HEADER_SIZE + size,
    {
        let start: usize = reader.pos - 8;
        let end: usize = start + size as usize;
        let ghost d = reader.data@;
        let ghost pos0 = reader.pos as int;
        let mut nctg: Option<NctgBox> = None;
        while reader.pos < end
            invariant
                reader.wf(),
                reader.data@ == d,
                ncdt_parse(d, reader.pos as int, end as int, opt_nctg_view(nctg)) == ncdt_parse(
                    d,
                    pos0,
                    end as int,
                    None,
                ),
            decreases rem_span(reader.pos as int, end as int),
        {
            let ghost p = reader.pos as int;
            let ghost acc0 = opt_nctg_view(nctg);
            let s32 = match reader.read_u32_be() {
                Ok(v) => v,
                Err(e) => {
                    return Err(e);
                },
            };
            let name = match reader.read_u32_be() {
                Ok(v) => v,
                Err(e) => {
                    return Err(e);
                },
            };
            let s = s32 as u64;
            if s < HEADER_SIZE {
                return Err(Error::SizeViolation);
            }
            let child_start = reader.pos - 8;
            if s > (end - child_start) as u64 {
                return Err(Error::SizeViolation);
            }
            if name == NCTG_FOURCC {
                let child = match NctgBox::read_box(reader, s) {
                    Ok(b) => b,
                    Err(e) => {
                        return Err(e);
                    },
                };
                nctg = Some(child);
            } else {
                match reader.seek_to(child_start as u64 + s) {
                    Ok(u) => u,
                    Err(e) => {
                        return Err(e);
                    },
                }
            }
            proof {
                assert(ncdt_parse(d, reader.pos as int, end as int, opt_nctg_view(nctg))
                    == ncdt_parse(d, p, end as int, acc0));
            }
        }
        match reader.seek_to(end as u64) {
            Ok(u) => u,
            Err(e) => {
                return Err(e);
            },
        }
        Ok(NcdtBox { nctg })
    }

    /// Writes the box: the header with the precomputed total size — correct
    /// on first emission, with no after-the-fact patching — then the present
    /// child, in the order the size computation uses. Returns the total
    /// size, which equals the number of bytes appended.
    pub fn write_box(&self, out: &mut Vec<u8>) -> (r: Result<u64, Error>)
        requires
            ncdt_wf(self@),
        ensures
            final(out)@ == old(out)@ + ncdt_bytes(self@),
            r == Ok::<u64, Error>(ncdt_size_spec(self@) as u64),
    {
        let size = self.get_size();
        push_u32_be(out, size as u32);
        push_u32_be(out, NCDT_FOURCC);
        match &self.nctg {
            Some(n) => {
                let _written = n.write_box(out);
            },
            None => {},
        }
        assert(final(out)@ =~= old(out)@ + ncdt_bytes(self@));
        Ok(size)
    }
}

/// A box's wire bytes are exactly as many as its reported total size: the
/// writer and the size query can never disagree.
pub proof fn lemma_ncdt_bytes_len(v: NcdtView)
    ensures
        ncdt_bytes(v).len() == ncdt_size_spec(v),
{
    match v.nctg {
        Some(n) => {
            lemma_nctg_bytes_len(n);
        },
        None => {},
    }
}

/// Reading a child whose type code is not the recognized leaf advances
/// exactly the child's declared size and keeps the leaf found so far: an
/// unknown child type is a structural no-op, never an error.
pub proof fn lemma_ncdt_unknown_child(d: Seq<u8>, pos: int, end: int, acc: Option<NctgView>)
    requires
        pos < end,
        pos + 8 <= d.len(),
        be_u32_at(d, pos + 4) != NCTG_FOURCC,
        8 <= be_u32_at(d, pos) as int,
        be_u32_at(d, pos) as int <= end - pos,
        pos + be_u32_at(d, pos) <= d.len(),
    ensures
        ncdt_parse(d, pos, end, acc) == ncdt_parse(d, pos + be_u32_at(d, pos), end, acc),
{
}

/// A child header declaring more bytes than the parent's remaining declared
/// budget — or fewer than its own header — fails the whole container read
/// with a size violation, before any of the child's bytes are trusted; no
/// value is returned.
pub proof fn lemma_ncdt_oversized_child(d: Seq<u8>, pos: int, size: int)
    requires
        pos >= 8,
        pos < pos - 8 + size,
        pos + 8 <= d.len(),
        ((be_u32_at(d, pos) as int) < 8) || (be_u32_at(d, pos) as int > (pos - 8 + size) - pos),
    ensures
        ncdt_read_spec(d, pos, size) == Err::<Option<NctgView>, Error>(Error::SizeViolation),
{
}

/// Parsing a byte range whose remainder holds exactly the wire bytes of a
/// leaf box yields that leaf, whatever was found before it: the last
/// recognized child wins.
#[verifier::spinoff_prover]
pub proof fn lemma_ncdt_leaf_child_at(
    n: NctgView,
    d: Seq<u8>,
    pos: int,
    end: int,
    acc: Option<NctgView>,
)
    requires
        nctg_wf(n),
        pos >= 8,
        pos < end,
        pos + nctg_bytes(n).len() == end,
        end <= d.len(),
        d.subrange(pos, end) == nctg_bytes(n),
    ensures
        ncdt_parse(d, pos, end, acc) == Ok::<Option<NctgView>, Error>(Some(n)),
{
    let cb = nctg_bytes(n);
    lemma_nctg_bytes_len(n);
    lemma_nctg_size_bounds(n);
    let cs32 = nctg_size_spec(n) as u32;
    assert forall|i: int| 0 <= i < cb.len() implies d[pos + i] == cb[i] by {
        assert(d.subrange(pos, end)[i] == d[pos + i]);
    }
    let a = spec_u32_to_be(cs32);
    let b = spec_u32_to_be(NCTG_FOURCC);
    assert(cb[0] == a[0] && cb[1] == a[1] && cb[2] == a[2] && cb[3] == a[3]);
    assert(cb[4] == b[0] && cb[5] == b[1] && cb[6] == b[2] && cb[7] == b[3]);
    lemma_u32_be_round_trip(cs32);
    assert(be_u32_at(d, pos) == spec_u32_from_be(a[0], a[1], a[2], a[3]));
    assert(be_u32_at(d, pos) == cs32);
    lemma_u32_be_round_trip(NCTG_FOURCC);
    assert(be_u32_at(d, pos + 4) == spec_u32_from_be(b[0], b[1], b[2], b[3]));
    assert(be_u32_at(d, pos + 4) == NCTG_FOURCC);
    let pre2 = d.subrange(0, pos);
    let suf2 = d.subrange(end, d.len() as int);
    assert(d =~= pre2 + nctg_bytes(n) + suf2);
    lemma_nctg_round_trip(n, pre2, suf2);
    assert(nctg_read_spec(d, pos + 8, nctg_size_spec(n)) == Ok::<NctgView, Error>(n));
    assert(ncdt_parse(d, pos + nctg_size_spec(n), end, Some(n)) == Ok::<
        Option<NctgView>,
        Error,
    >(Some(n)));
}

/// Write-then-read round trip of the container: a reader positioned after
/// the header of the emitted bytes, told the emitted size, yields an equal
/// value — with no leaf child and with a fully populated one alike —
/// wherever the box stands in the stream and whatever follows it.
#[verifier::spinoff_prover]
pub proof fn lemma_ncdt_round_trip(v: NcdtView, pre: Seq<u8>, suf: Seq<u8>)
    requires
        ncdt_wf(v),
        pre.len() >= 8,
    ensures
        ncdt_read_spec(pre + ncdt_bytes(v) + suf, pre.len() as int + 8, ncdt_size_spec(v)) == Ok::<
            Option<NctgView>,
            Error,
        >(v.nctg),
{
    let d = pre + ncdt_bytes(v) + suf;
    let bytes = ncdt_bytes(v);
    let pos0: int = pre.len() as int + 8;
    let size: int = ncdt_size_spec(v);
    let end: int = pos0 - 8 + size;
    lemma_ncdt_bytes_len(v);
    match v.nctg {
        None => {
            assert(pos0 == end);
        },
        Some(n) => {
            lemma_nctg_bytes_len(n);
            let cb = nctg_bytes(n);
            assert forall|j: int| 0 <= j < cb.len() implies d.subrange(pos0, end)[j] == cb[j] by {
                assert((pre + ncdt_bytes(v))[pre.len() + (8 + j)] == bytes[8 + j]);
                assert(d[pre.len() + (8 + j)] == bytes[8 + j]);
                assert(bytes[8 + j] == cb[j]);
                assert(d.subrange(pos0, end)[j] == d[pos0 + j]);
            }
            assert(d.subrange(pos0, end) =~= cb);
            lemma_ncdt_leaf_child_at(n, d, pos0, end, None);
        },
    }
}

/// A container payload holding one unrecognized child and then the wire
/// bytes of a leaf reads to the same leaf value as a payload holding the
/// leaf alone: the unknown child changes nothing of the result.
#[verifier::spinoff_prover]
pub proof fn lemma_ncdt_unknown_then_leaf(n: NctgView, pre: Seq<u8>, unk: Seq<u8>, name: u32)
    requires
        nctg_wf(n),
        pre.len() >= 8,
        unk.len() >= 8,
        unk.len() <= 0xFFFFFFFF,
        unk.subrange(0, 4) == spec_u32_to_be(unk.len() as u32),
        unk.subrange(4, 8) == spec_u32_to_be(name),
        name != NCTG_FOURCC,
    ensures
        ncdt_read_spec(
            pre + unk + nctg_bytes(n),
            pre.len() as int,
            8 + unk.len() as int + nctg_bytes(n).len() as int,
        ) == Ok::<Option<NctgView>, Error>(Some(n)),
        ncdt_read_spec(pre + nctg_bytes(n), pre.len() as int, 8 + nctg_bytes(n).len() as int) == Ok::<
            Option<NctgView>,
            Error,
        >(Some(n)),
{
    let cb = nctg_bytes(n);
    lemma_nctg_bytes_len(n);
    lemma_nctg_size_bounds(n);
    let su32 = unk.len() as u32;
    let d1 = pre + unk + cb;
    let pos1: int = pre.len() as int;
    let end1: int = pos1 + unk.len() + cb.len();
    assert forall|i: int| 0 <= i < unk.len() implies d1[pos1 + i] == unk[i] by {
        assert((pre + unk)[pre.len() + i] == unk[i]);
    }
    lemma_u32_be_round_trip(su32);
    assert(d1[pos1] == unk[0] && d1[pos1 + 1] == unk[1] && d1[pos1 + 2] == unk[2] && d1[pos1 + 3]
        == unk[3]);
    assert(unk[0] == spec_u32_to_be(su32)[0] && unk[1] == spec_u32_to_be(su32)[1] && unk[2]
        == spec_u32_to_be(su32)[2] && unk[3] == spec_u32_to_be(su32)[3]);
    assert(be_u32_at(d1, pos1) == su32);
    lemma_u32_be_round_trip(name);
    assert(unk[4] == spec_u32_to_be(name)[0] && unk[5] == spec_u32_to_be(name)[1] && unk[6]
        == spec_u32_to_be(name)[2] && unk[7] == spec_u32_to_be(name)[3]);
    assert(be_u32_at(d1, pos1 + 4) == name);
    let p2: int = pos1 + unk.len() as int;
    lemma_ncdt_unknown_child(d1, pos1, end1, None);
    assert forall|j: int| 0 <= j < cb.len() implies d1.subrange(p2, end1)[j] == cb[j] by {
        assert(d1[pre.len() + unk.len() + j] == cb[j]);
        assert(d1.subrange(p2, end1)[j] == d1[p2 + j]);
    }
    assert(d1.subrange(p2, end1) =~= cb);
    lemma_ncdt_leaf_child_at(n, d1, p2, end1, None);
    let d2 = pre + cb;
    let end2: int = pos1 + cb.len();
    assert forall|j: int| 0 <= j < cb.len() implies d2.subrange(pos1, end2)[j] == cb[j] by {
        assert(d2[pre.len() + j] == cb[j]);
        assert(d2.subrange(pos1, end2)[j] == d2[pos1 + j]);
    }
    assert(d2.subrange(pos1, end2) =~= cb);
    lemma_ncdt_leaf_child_at(n, d2, pos1, end2, None);
}

} // verus!
