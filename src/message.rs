//! Traffic-control messages: the fixed header and the attribute stream, with
//! the options attribute read according to the kind seen before it.
use vstd::prelude::*;
use vstd::slice::slice_to_vec;

use crate::bytes::{
    align4, push_u32, read_u32, u32_at, u32_bytes,
};
use crate::constants::{
    STATS_LEN, TCA_CHAIN, TCA_FCNT, TCA_HW_OFFLOAD, TCA_KIND, TCA_OPTIONS, TCA_RATE, TCA_STAB,
    TCA_STATS, TCA_STATS2, TCA_UNSPEC, TCA_XSTATS, TC_HEADER_LEN,
};
use crate::error::{DecodeError, Part};
use crate::nla::{
    next_position, nla_step, push_nla_header, push_nla_padding, push_tlv,
    tlv_bytes, type_of, DefaultNla, NlaBuffer, NlaStep, NlasIterator,
};
use crate::options::TcOptions;
use crate::stats::{
    decode_entries, emit_entries, entries_bytes, entries_fit, entries_fit_len, entries_len,
    entries_view,
    parse_stats2, stats_bytes, stats_of, Stats, Stats2, Stats2View, StatsBuffer,
};
use crate::text::{kind_bytes, kind_len, kind_text, parse_string, push_kind};

verus! {

/// The fixed header of a traffic-control message.
#[derive(Debug, Clone, Copy, PartialEq, Eq, Structural)]
pub struct TcHeader {
    pub family: u8,
    /// Interface index.
    pub index: i32,
    /// Handle of the object.
    pub handle: u32,
    /// Handle of its parent.
    pub parent: u32,
    pub info: u32,
}

impl Default for TcHeader {
    fn default() -> (r: TcHeader)
        ensures
            r == (TcHeader { family: 0, index: 0, handle: 0, parent: 0, info: 0 }),
    {
        TcHeader { family: 0, index: 0, handle: 0, parent: 0, info: 0 }
    }
}

/// The header read from the first bytes of `b`.
pub open spec fn header_of(b: Seq<u8>) -> TcHeader {
    TcHeader {
        family: b[0],
        index: u32_at(b, 4) as i32,
        handle: u32_at(b, 8),
        parent: u32_at(b, 12),
        info: u32_at(b, 16),
    }
}

/// The wire form of a header; the three padding bytes are zero.
pub open spec fn header_bytes(h: TcHeader) -> Seq<u8> {
    seq![h.family, 0u8, 0u8, 0u8] + u32_bytes(h.index as u32) + u32_bytes(h.handle) + u32_bytes(
        h.parent,
    ) + u32_bytes(h.info)
}

/// A view of a message over bytes, with checked reads and writes of the header fields.
pub struct TcMessageBuffer<T> {
    pub buffer: T,
}

impl<T> TcMessageBuffer<T> {
    pub fn new(buffer: T) -> (r: Self)
        ensures
            r.buffer == buffer,
    {
        TcMessageBuffer { buffer }
    }
}

impl<'a> TcMessageBuffer<&'a [u8]> {
    /// Wraps the bytes once they are known to hold a whole header.
    pub fn new_checked(buffer: &'a [u8]) -> (r: Result<Self, DecodeError>)
        ensures
            buffer@.len() >= TC_HEADER_LEN ==> (r matches Ok(p) && p.buffer@ == buffer@),
            buffer@.len() < TC_HEADER_LEN ==> r == Err::<Self, DecodeError>(
                DecodeError::Length(Part::Header),
            ),
    {
        if buffer.len() < TC_HEADER_LEN {
            Err(DecodeError::Length(Part::Header))
        } else {
            Ok(TcMessageBuffer { buffer })
        }
    }

    pub fn family(&self) -> (r: u8)
        requires
            self.buffer@.len() >= TC_HEADER_LEN,
        ensures
            r == header_of(self.buffer@).family,
    {
        self.buffer[0]
    }

    pub fn index(&self) -> (r: i32)
        requires
            self.buffer@.len() >= TC_HEADER_LEN,
        ensures
            r == header_of(self.buffer@).index,
    {
        read_u32(self.buffer, 4) as i32
    }

    pub fn handle(&self) -> (r: u32)
        requires
            self.buffer@.len() >= TC_HEADER_LEN,
        ensures
            r == header_of(self.buffer@).handle,
    {
        read_u32(self.buffer, 8)
    }

    pub fn parent(&self) -> (r: u32)
        requires
            self.buffer@.len() >= TC_HEADER_LEN,
        ensures
            r == header_of(self.buffer@).parent,
    {
        read_u32(self.buffer, 12)
    }

    pub fn info(&self) -> (r: u32)
        requires
            self.buffer@.len() >= TC_HEADER_LEN,
        ensures
            r == header_of(self.buffer@).info,
    {
        read_u32(self.buffer, 16)
    }

    /// The walk over the attributes that follow the header.
    pub fn nlas(&self) -> (r: NlasIterator<'a>)
        requires
            self.buffer@.len() >= TC_HEADER_LEN,
        ensures
            r.buffer@ == self.buffer@,
            r.position == TC_HEADER_LEN,
    {
        NlasIterator { buffer: self.buffer, position: TC_HEADER_LEN }
    }
}

/// Writes the four little-endian bytes of `x` at `b[i..i + 4]`.
fn write_u32(b: &mut [u8], i: usize, x: u32)
    requires
        i + 4 <= old(b)@.len(),
    ensures
        final(b)@ == old(b)@.take(i as int) + u32_bytes(x) + old(b)@.skip(i + 4),
{
    b[i] = x as u8;
    b[i + 1] = (x >> 8u32) as u8;
    b[i + 2] = (x >> 16u32) as u8;
    b[i + 3] = (x >> 24u32) as u8;
    assert(b@ =~= old(b)@.take(i as int) + u32_bytes(x) + old(b)@.skip(i + 4));
}

impl<'a> TcMessageBuffer<&'a mut [u8]> {
    pub fn set_family(&mut self, value: u8)
        requires
            old(self).buffer@.len() >= TC_HEADER_LEN,
        ensures
            final(self).buffer@ == old(self).buffer@.update(0, value),
    {
        self.buffer[0] = value;
    }

    /// Sets the first padding byte after the family.
    pub fn set_pad1(&mut self, value: u8)
        requires
            old(self).buffer@.len() >= TC_HEADER_LEN,
        ensures
            final(self).buffer@ == old(self).buffer@.update(1, value),
    {
        self.buffer[1] = value;
    }

    /// Sets the last two padding bytes after the family.
    pub fn set_pad2(&mut self, value: u16)
        requires
            old(self).buffer@.len() >= TC_HEADER_LEN,
        ensures
            final(self).buffer@ == old(self).buffer@.update(2, value as u8).update(
                3,
                (value >> 8u16) as u8,
            ),
    {
        self.buffer[2] = value as u8;
        self.buffer[3] = (value >> 8u16) as u8;
    }

    pub fn set_index(&mut self, value: i32)
        requires
            old(self).buffer@.len() >= TC_HEADER_LEN,
        ensures
            final(self).buffer@ == old(self).buffer@.take(4) + u32_bytes(value as u32) + old(
                self,
            ).buffer@.skip(8),
    {
        write_u32(self.buffer, 4, value as u32);
    }

    pub fn set_handle(&mut self, value: u32)
        requires
            old(self).buffer@.len() >= TC_HEADER_LEN,
        ensures
            final(self).buffer@ == old(self).buffer@.take(8) + u32_bytes(value) + old(
                self,
            ).buffer@.skip(12),
    {
        write_u32(self.buffer, 8, value);
    }

    pub fn set_parent(&mut self, value: u32)
        requires
            old(self).buffer@.len() >= TC_HEADER_LEN,
        ensures
            final(self).buffer@ == old(self).buffer@.take(12) + u32_bytes(value) + old(
                self,
            ).buffer@.skip(16),
    {
        write_u32(self.buffer, 12, value);
    }

    pub fn set_info(&mut self, value: u32)
        requires
            old(self).buffer@.len() >= TC_HEADER_LEN,
        ensures
            final(self).buffer@ == old(self).buffer@.take(16) + u32_bytes(value) + old(
                self,
            ).buffer@.skip(20),
    {
        write_u32(self.buffer, 16, value);
    }
}

impl TcHeader {
    /// Reads the header; fails when fewer bytes than a header are given.
    pub fn parse(buf: &TcMessageBuffer<&[u8]>) -> (r: Result<TcHeader, DecodeError>)
        ensures
            buf.buffer@.len() >= TC_HEADER_LEN ==> r == Ok::<TcHeader, DecodeError>(
                header_of(buf.buffer@),
            ),
            buf.buffer@.len() < TC_HEADER_LEN ==> r == Err::<TcHeader, DecodeError>(
                DecodeError::Length(Part::Header),
            ),
    {
        if buf.buffer.len() < TC_HEADER_LEN {
            return Err(DecodeError::Length(Part::Header));
        }
        Ok(
            TcHeader {
                family: buf.family(),
                index: buf.index(),
                handle: buf.handle(),
                parent: buf.parent(),
                info: buf.info(),
            },
        )
    }

    pub fn buffer_len(&self) -> (r: usize)
        ensures
            r == header_bytes(*self).len(),
            r == TC_HEADER_LEN,
    {
        TC_HEADER_LEN
    }

    /// Appends the wire form of the header, with zero reserved bytes.
    pub fn emit_into(&self, out: &mut Vec<u8>)
        ensures
            final(out)@ == old(out)@ + header_bytes(*self),
    {
        let ghost start = out@;
        out.push(self.family);
        out.push(0u8);
        out.push(0u8);
        out.push(0u8);
        push_u32(out, self.index as u32);
        push_u32(out, self.handle);
        push_u32(out, self.parent);
        push_u32(out, self.info);
        assert(out@ =~= start + header_bytes(*self));
    }

    /// Writes the header fields over the first bytes of `buffer`; the three
    /// reserved bytes after the family, and the bytes after the header, are
    /// left as they were.
    pub fn emit(&self, buffer: &mut [u8])
        requires
            old(buffer)@.len() >= TC_HEADER_LEN,
        ensures
            final(buffer)@ == seq![self.family] + old(buffer)@.subrange(1, 4) + u32_bytes(
                self.index as u32,
            ) + u32_bytes(self.handle) + u32_bytes(self.parent) + u32_bytes(self.info) + old(
                buffer,
            )@.skip(TC_HEADER_LEN as int),
    {
        let mut out: Vec<u8> = Vec::new();
        self.emit_into(&mut out);
        copy_keeping_reserved(buffer, &out);
        assert(written_over(header_bytes(*self), old(buffer)@) =~= seq![self.family] + old(
            buffer,
        )@.subrange(1, 4) + u32_bytes(self.index as u32) + u32_bytes(self.handle) + u32_bytes(
            self.parent,
        ) + u32_bytes(self.info) + old(buffer)@.skip(TC_HEADER_LEN as int));
    }
}

/// The contents of `old` once `bytes`, which start with a header, are written
/// over its front: the three reserved bytes after the family keep their
/// value, and so do the bytes after `bytes`.
pub open spec fn written_over(bytes: Seq<u8>, old: Seq<u8>) -> Seq<u8> {
    seq![bytes[0]] + old.subrange(1, 4) + bytes.subrange(4, bytes.len() as int) + old.skip(
        bytes.len() as int,
    )
}

/// Writes `src` over the first bytes of `buffer`, but for the reserved
/// header bytes 1 to 3.
fn copy_keeping_reserved(buffer: &mut [u8], src: &Vec<u8>)
    requires
        TC_HEADER_LEN <= src@.len() <= old(buffer)@.len(),
    ensures
        final(buffer)@ == written_over(src@, old(buffer)@),
{
    let mut i: usize = 0;
    while i < src.len()
        invariant
            i <= src@.len(),
            TC_HEADER_LEN <= src@.len() <= old(buffer)@.len(),
            buffer@.len() == old(buffer)@.len(),
            forall|j: int|
                0 <= j < i ==> #[trigger] buffer@[j] == (if 1 <= j < 4 {
                    old(buffer)@[j]
                } else {
                    src@[j]
                }),
            forall|j: int| i <= j < buffer@.len() ==> #[trigger] buffer@[j] == old(buffer)@[j],
        decreases src@.len() - i,
    {
        if i == 0 || i >= 4 {
            buffer[i] = src[i];
        }
        i += 1;
    }
    assert(buffer@ =~= written_over(src@, old(buffer)@));
}

/// One attribute of a message, over the options type `A` of its object family.
#[derive(Debug, PartialEq, Eq, Clone)]
pub enum Nla<A> {
    Unspec(Vec<u8>),
    Kind(String),
    Options(A),
    Stats(Stats),
    XStats(Vec<u8>),
    Rate(Vec<u8>),
    Fcnt(Vec<u8>),
    Stats2(Vec<Stats2>),
    Stab(Vec<u8>),
    Chain(Vec<u8>),
    HwOffload(u8),
    Other(DefaultNla),
}

/// The meaning of an attribute, over the meaning `M` of the options.
pub enum NlaView<M> {
    Unspec(Seq<u8>),
    Kind(Seq<char>),
    Options(M),
    Stats(Stats),
    XStats(Seq<u8>),
    Rate(Seq<u8>),
    Fcnt(Seq<u8>),
    Stats2(Seq<Stats2View>),
    Stab(Seq<u8>),
    Chain(Seq<u8>),
    HwOffload(u8),
    Other(u16, Seq<u8>),
}

impl<A: View> View for Nla<A> {
    type V = NlaView<A::V>;

    open spec fn view(&self) -> NlaView<A::V> {
        match self {
            Nla::Unspec(v) => NlaView::Unspec(v@),
            Nla::Kind(s) => NlaView::Kind(s@),
            Nla::Options(o) => NlaView::Options(o@),
            Nla::Stats(s) => NlaView::Stats(*s),
            Nla::XStats(v) => NlaView::XStats(v@),
            Nla::Rate(v) => NlaView::Rate(v@),
            Nla::Fcnt(v) => NlaView::Fcnt(v@),
            Nla::Stats2(v) => NlaView::Stats2(entries_view(v@)),
            Nla::Stab(v) => NlaView::Stab(v@),
            Nla::Chain(v) => NlaView::Chain(v@),
            Nla::HwOffload(x) => NlaView::HwOffload(*x),
            Nla::Other(d) => NlaView::Other(d.kind, d.value@),
        }
    }
}

/// The type field an attribute is written with.
pub open spec fn nla_tag<M>(n: NlaView<M>) -> u16 {
    match n {
        NlaView::Unspec(_) => TCA_UNSPEC,
        NlaView::Kind(_) => TCA_KIND,
        NlaView::Options(_) => TCA_OPTIONS,
        NlaView::Stats(_) => TCA_STATS,
        NlaView::XStats(_) => TCA_XSTATS,
        NlaView::Rate(_) => TCA_RATE,
        NlaView::Fcnt(_) => TCA_FCNT,
        NlaView::Stats2(_) => TCA_STATS2,
        NlaView::Stab(_) => TCA_STAB,
        NlaView::Chain(_) => TCA_CHAIN,
        NlaView::HwOffload(_) => TCA_HW_OFFLOAD,
        NlaView::Other(t, _) => t,
    }
}

/// The value bytes an attribute is written with.
pub open spec fn nla_value<A: TcOptions>(n: NlaView<A::V>) -> Seq<u8> {
    match n {
        NlaView::Unspec(v) => v,
        NlaView::Kind(s) => kind_bytes(s),
        NlaView::Options(o) => A::spec_value(o),
        NlaView::Stats(s) => stats_bytes(s),
        NlaView::XStats(v) => v,
        NlaView::Rate(v) => v,
        NlaView::Fcnt(v) => v,
        NlaView::Stats2(es) => entries_bytes(es),
        NlaView::Stab(v) => v,
        NlaView::Chain(v) => v,
        NlaView::HwOffload(x) => seq![x],
        NlaView::Other(_, v) => v,
    }
}

/// The wire form of one attribute: header, value and padding.
pub open spec fn nla_bytes<A: TcOptions>(n: NlaView<A::V>) -> Seq<u8> {
    tlv_bytes(nla_tag(n), nla_value::<A>(n))
}

/// The wire form of a sequence of attributes, back to back.
pub open spec fn nlas_bytes<A: TcOptions>(s: Seq<NlaView<A::V>>) -> Seq<u8> {
    s.flat_map(|n: NlaView<A::V>| nla_bytes::<A>(n))
}

/// The attribute's lengths fit their 16-bit length fields.
pub open spec fn nla_fits<A: TcOptions>(n: NlaView<A::V>) -> bool {
    &&& nla_value::<A>(n).len() + 4 <= 0xFFFF
    &&& (n matches NlaView::Stats2(es) ==> entries_fit(es))
}

/// The kind text in force after attribute `n`, given the one before it.
pub open spec fn next_kind<M>(n: NlaView<M>, kind: Seq<char>) -> Seq<char> {
    match n {
        NlaView::Kind(s) => s,
        _ => kind,
    }
}

/// What an attribute of raw type `tag` and value `v` decodes to, with `kind`
/// the kind text seen before it.
pub open spec fn decode_nla<A: TcOptions>(tag: u16, v: Seq<u8>, kind: Seq<char>) -> Result<
    NlaView<A::V>,
    DecodeError,
> {
    let t = type_of(tag);
    if t == TCA_UNSPEC {
        Ok(NlaView::Unspec(v))
    } else if t == TCA_KIND {
        match kind_text(v) {
            Some(s) => Ok(NlaView::Kind(s)),
            None => Err(DecodeError::InvalidKindText),
        }
    } else if t == TCA_OPTIONS {
        Ok(NlaView::Options(A::spec_parse(kind, v)))
    } else if t == TCA_STATS {
        if v.len() >= STATS_LEN {
            Ok(NlaView::Stats(stats_of(v)))
        } else {
            Err(DecodeError::Length(Part::Stats))
        }
    } else if t == TCA_XSTATS {
        Ok(NlaView::XStats(v))
    } else if t == TCA_RATE {
        Ok(NlaView::Rate(v))
    } else if t == TCA_FCNT {
        Ok(NlaView::Fcnt(v))
    } else if t == TCA_STATS2 {
        match decode_entries(v, 0) {
            Ok(es) => Ok(NlaView::Stats2(es)),
            Err(e) => Err(e),
        }
    } else if t == TCA_STAB {
        Ok(NlaView::Stab(v))
    } else if t == TCA_CHAIN {
        Ok(NlaView::Chain(v))
    } else if t == TCA_HW_OFFLOAD {
        if v.len() == 1 {
            Ok(NlaView::HwOffload(v[0]))
        } else {
            Err(DecodeError::Length(Part::HwOffload))
        }
    } else {
        Ok(NlaView::Other(tag, v))
    }
}

/// The attributes that `b` holds from offset `pos` on, with `kind` the kind
/// text seen before `pos`.
pub open spec fn decode_nlas<A: TcOptions>(b: Seq<u8>, pos: int, kind: Seq<char>) -> Result<
    Seq<NlaView<A::V>>,
    DecodeError,
>
    decreases b.len() - pos,
{
    match nla_step(b, pos) {
        NlaStep::End => Ok(seq![]),
        NlaStep::Bad => Err(DecodeError::Length(Part::Attribute)),
        NlaStep::Attr { len, tag } => match decode_nla::<A>(
            tag,
            b.subrange(pos + 4, pos + len),
            kind,
        ) {
            Err(e) => Err(e),
            Ok(n) => match decode_nlas::<A>(
                b,
                next_position(b.len() as int, pos, len),
                next_kind(n, kind),
            ) {
                Ok(rest) => Ok(seq![n] + rest),
                Err(e) => Err(e),
            },
        },
    }
}

/// The meaning of a message.
pub struct TcMessageView<M> {
    pub header: TcHeader,
    pub nlas: Seq<NlaView<M>>,
}

/// What the bytes `b` of a whole message decode to.
pub open spec fn decode_message<A: TcOptions>(b: Seq<u8>) -> Result<
    TcMessageView<A::V>,
    DecodeError,
> {
    if b.len() < TC_HEADER_LEN {
        Err(DecodeError::Length(Part::Header))
    } else {
        match decode_nlas::<A>(b, TC_HEADER_LEN as int, seq![]) {
            Ok(nlas) => Ok(TcMessageView { header: header_of(b), nlas }),
            Err(e) => Err(e),
        }
    }
}

/// The wire form of a message: its header, then its attributes in order.
pub open spec fn message_bytes<A: TcOptions>(m: TcMessageView<A::V>) -> Seq<u8> {
    header_bytes(m.header) + nlas_bytes::<A>(m.nlas)
}

/// Every attribute of the message fits its length field, and the whole fits memory.
pub open spec fn message_fits<A: TcOptions>(m: TcMessageView<A::V>) -> bool {
    &&& forall|i: int| 0 <= i < m.nlas.len() ==> nla_fits::<A>(#[trigger] m.nlas[i])
    &&& message_bytes::<A>(m).len() <= usize::MAX
}

/// The views of a vector of attributes.
pub open spec fn nlas_view<A: View>(v: Seq<Nla<A>>) -> Seq<NlaView<A::V>> {
    v.map_values(|n: Nla<A>| n@)
}

impl<A: TcOptions> Nla<A> {
    /// Whether the attribute's lengths fit their 16-bit length fields.
    pub fn fits(&self) -> (r: bool)
        ensures
            r == nla_fits::<A>(self@),
    {
        match self {
            Nla::Kind(s) => s.as_str().as_bytes().len() <= 0xFFFF - 5,
            Nla::Options(o) => o.value_len() <= 0xFFFF - 4,
            Nla::Stats(_) => {
                proof {
                    crate::stats::lemma_stats_round_trip(self.view()->Stats_0);
                }
                true
            },
            Nla::Stats2(v) => entries_fit_len(v).is_some(),
            Nla::HwOffload(_) => true,
            Nla::Unspec(v) => v.len() <= 0xFFFF - 4,
            Nla::XStats(v) => v.len() <= 0xFFFF - 4,
            Nla::Rate(v) => v.len() <= 0xFFFF - 4,
            Nla::Fcnt(v) => v.len() <= 0xFFFF - 4,
            Nla::Stab(v) => v.len() <= 0xFFFF - 4,
            Nla::Chain(v) => v.len() <= 0xFFFF - 4,
            Nla::Other(d) => d.value.len() <= 0xFFFF - 4,
        }
    }

    /// The number of value bytes, padding excluded.
    pub fn value_len(&self) -> (r: usize)
        requires
            nla_fits::<A>(self@),
        ensures
            r == nla_value::<A>(self@).len(),
    {
        match self {
            Nla::Unspec(v) => v.len(),
            Nla::Kind(s) => kind_len(s),
            Nla::Options(o) => o.value_len(),
            Nla::Stats(_) => STATS_LEN,
            Nla::XStats(v) => v.len(),
            Nla::Rate(v) => v.len(),
            Nla::Fcnt(v) => v.len(),
            Nla::Stats2(v) => entries_len(v),
            Nla::Stab(v) => v.len(),
            Nla::Chain(v) => v.len(),
            Nla::HwOffload(_) => 1,
            Nla::Other(d) => d.value.len(),
        }
    }

    /// The number of bytes the attribute takes on the wire, padding included.
    pub fn buffer_len(&self) -> (r: usize)
        requires
            nla_fits::<A>(self@),
        ensures
            r == nla_bytes::<A>(self@).len(),
            r == align4(nla_value::<A>(self@).len() as int + 4),
    {
        let n = self.value_len() + 4;
        (n + 3) / 4 * 4
    }

    /// Appends the wire form of the attribute.
    pub fn emit_into(&self, out: &mut Vec<u8>)
        requires
            nla_fits::<A>(self@),
        ensures
            final(out)@ == old(out)@ + nla_bytes::<A>(self@),
    {
        match self {
            Nla::Unspec(v) => push_tlv(out, TCA_UNSPEC, v.as_slice()),
            Nla::XStats(v) => push_tlv(out, TCA_XSTATS, v.as_slice()),
            Nla::Rate(v) => push_tlv(out, TCA_RATE, v.as_slice()),
            Nla::Fcnt(v) => push_tlv(out, TCA_FCNT, v.as_slice()),
            Nla::Stab(v) => push_tlv(out, TCA_STAB, v.as_slice()),
            Nla::Chain(v) => push_tlv(out, TCA_CHAIN, v.as_slice()),
            Nla::Other(d) => push_tlv(out, d.kind, d.value.as_slice()),
            _ => {
                let ghost start = out@;
                let len = self.value_len();
                push_nla_header(out, nla_tag_of(self), len);
                match self {
                    Nla::Kind(s) => push_kind(out, s),
                    Nla::Options(o) => o.emit_value(out),
                    Nla::Stats(s) => s.emit_into(out),
                    Nla::Stats2(v) => emit_entries(v, out),
                    Nla::HwOffload(x) => out.push(*x),
                    _ => {},
                }
                push_nla_padding(out, len);
                assert(out@ =~= start + nla_bytes::<A>(self@));
            },
        }
    }
}

/// The type field of an attribute.
fn nla_tag_of<A: View>(n: &Nla<A>) -> (r: u16)
    ensures
        r == nla_tag(n@),
{
    match n {
        Nla::Unspec(_) => TCA_UNSPEC,
        Nla::Kind(_) => TCA_KIND,
        Nla::Options(_) => TCA_OPTIONS,
        Nla::Stats(_) => TCA_STATS,
        Nla::XStats(_) => TCA_XSTATS,
        Nla::Rate(_) => TCA_RATE,
        Nla::Fcnt(_) => TCA_FCNT,
        Nla::Stats2(_) => TCA_STATS2,
        Nla::Stab(_) => TCA_STAB,
        Nla::Chain(_) => TCA_CHAIN,
        Nla::HwOffload(_) => TCA_HW_OFFLOAD,
        Nla::Other(d) => d.kind,
    }
}

/// Decodes one attribute, with `kind` the kind text seen before it.
fn parse_nla<A: TcOptions>(nb: &NlaBuffer, kind: &String) -> (r: Result<Nla<A>, DecodeError>)
    requires
        nb.valid(),
    ensures
        match decode_nla::<A>(
            crate::bytes::u16_at(nb.buffer@, 2),
            nb.buffer@.subrange(4, crate::bytes::u16_at(nb.buffer@, 0) as int),
            kind@,
        ) {
            Ok(v) => r matches Ok(n) && n@ == v,
            Err(e) => r == Err::<Nla<A>, DecodeError>(e),
        },
{
    let payload = nb.value();
    let t = nb.kind();
    if t == TCA_UNSPEC {
        Ok(Nla::Unspec(slice_to_vec(payload)))
    } else if t == TCA_KIND {
        match parse_string(payload) {
            Ok(s) => Ok(Nla::Kind(s)),
            Err(e) => Err(e),
        }
    } else if t == TCA_OPTIONS {
        Ok(Nla::Options(A::parse_with_param(payload, kind.as_str())))
    } else if t == TCA_STATS {
        match StatsBuffer::new_checked(payload) {
            Ok(sb) => match Stats::parse(&sb) {
                Ok(s) => Ok(Nla::Stats(s)),
                Err(e) => Err(e),
            },
            Err(e) => Err(e),
        }
    } else if t == TCA_XSTATS {
        Ok(Nla::XStats(slice_to_vec(payload)))
    } else if t == TCA_RATE {
        Ok(Nla::Rate(slice_to_vec(payload)))
    } else if t == TCA_FCNT {
        Ok(Nla::Fcnt(slice_to_vec(payload)))
    } else if t == TCA_STATS2 {
        match parse_stats2(payload) {
            Ok(v) => Ok(Nla::Stats2(v)),
            Err(e) => Err(e),
        }
    } else if t == TCA_STAB {
        Ok(Nla::Stab(slice_to_vec(payload)))
    } else if t == TCA_CHAIN {
        Ok(Nla::Chain(slice_to_vec(payload)))
    } else if t == TCA_HW_OFFLOAD {
        if payload.len() == 1 {
            Ok(Nla::HwOffload(payload[0]))
        } else {
            Err(DecodeError::Length(Part::HwOffload))
        }
    } else {
        Ok(Nla::Other(DefaultNla::parse(nb)))
    }
}

/// Decodes the attribute stream that follows the header, each options
/// attribute read by the kind text seen before it.
pub fn parse_nlas<A: TcOptions>(buf: &TcMessageBuffer<&[u8]>) -> (r: Result<
    Vec<Nla<A>>,
    DecodeError,
>)
    ensures
        buf.buffer@.len() < TC_HEADER_LEN ==> r == Err::<Vec<Nla<A>>, DecodeError>(
            DecodeError::Length(Part::Header),
        ),
        buf.buffer@.len() >= TC_HEADER_LEN ==> match decode_nlas::<A>(
            buf.buffer@,
            TC_HEADER_LEN as int,
            seq![],
        ) {
            Ok(s) => r matches Ok(v) && nlas_view(v@) == s,
            Err(e) => r == Err::<Vec<Nla<A>>, DecodeError>(e),
        },
{
    let b = buf.buffer;
    if b.len() < TC_HEADER_LEN {
        return Err(DecodeError::Length(Part::Header));
    }
    let mut it = NlasIterator { buffer: b, position: TC_HEADER_LEN };
    let mut acc: Vec<Nla<A>> = Vec::new();
    let mut kind = String::new();
    loop
        invariant
            b@ == buf.buffer@,
            b@.len() >= TC_HEADER_LEN,
            it.buffer@ == b@,
            it.position <= b@.len(),
            decode_nlas::<A>(b@, TC_HEADER_LEN as int, seq![]) == (match decode_nlas::<A>(
                b@,
                it.position as int,
                kind@,
            ) {
                Ok(rest) => Ok(nlas_view(acc@) + rest),
                Err(err) => Err(err),
            }),
        decreases b@.len() - it.position,
    {
        let ghost pos = it.position as int;
        let ghost before = nlas_view(acc@);
        let ghost kind_before = kind@;
        match it.next() {
            None => {
                assert(nlas_view(acc@) + seq![] =~= nlas_view(acc@));
                return Ok(acc);
            },
            Some(Err(e)) => {
                return Err(e);
            },
            Some(Ok(nb)) => {
                proof {
                    let len = crate::bytes::u16_at(b@, pos) as int;
                    assert(nb.buffer@.subrange(4, crate::bytes::u16_at(nb.buffer@, 0) as int)
                        =~= b@.subrange(pos + 4, pos + len));
                }
                let n = match parse_nla::<A>(&nb, &kind) {
                    Ok(n) => n,
                    Err(e) => {
                        return Err(e);
                    },
                };
                if let Nla::Kind(s) = &n {
                    kind = s.clone();
                }
                assert(kind@ == next_kind(n@, kind_before));
                acc.push(n);
                assert(nlas_view(acc@) =~= before.push(n@));
                assert(before.push(n@) + (match decode_nlas::<A>(b@, it.position as int, kind@) {
                    Ok(rest) => rest,
                    Err(_) => seq![],
                }) =~= before + (seq![n@] + (match decode_nlas::<A>(
                    b@,
                    it.position as int,
                    kind@,
                ) {
                    Ok(rest) => rest,
                    Err(_) => seq![],
                })));
            },
        }
    }
}

/// A traffic-control message: a header and attributes, with `A` the options
/// type of its object family (`Qdisc`, `Class` or `Filter`).
#[derive(Debug, PartialEq, Eq, Clone)]
pub struct TcMessage<A> {
    pub header: TcHeader,
    pub nlas: Vec<Nla<A>>,
}

impl<A: View> View for TcMessage<A> {
    type V = TcMessageView<A::V>;

    open spec fn view(&self) -> TcMessageView<A::V> {
        TcMessageView { header: self.header, nlas: nlas_view(self.nlas@) }
    }
}

impl<A> TcMessage<A> {
    pub fn into_parts(self) -> (r: (TcHeader, Vec<Nla<A>>))
        ensures
            r.0 == self.header,
            r.1 == self.nlas,
    {
        (self.header, self.nlas)
    }

    pub fn from_parts(header: TcHeader, nlas: Vec<Nla<A>>) -> (r: Self)
        ensures
            r.header == header,
            r.nlas == nlas,
    {
        TcMessage { header, nlas }
    }
}

impl<A> Default for TcMessage<A> {
    fn default() -> (r: Self)
        ensures
            r.header == (TcHeader { family: 0, index: 0, handle: 0, parent: 0, info: 0 }),
            r.nlas@.len() == 0,
    {
        TcMessage { header: TcHeader::default(), nlas: Vec::new() }
    }
}

impl<A> From<i32> for TcMessage<A> {
    /// An empty message for the interface of the given index.
    fn from(index: i32) -> (r: Self)
        ensures
            r.header == (TcHeader { family: 0, index, handle: 0, parent: 0, info: 0 }),
            r.nlas@.len() == 0,
    {
        TcMessage {
            header: TcHeader { family: 0, index, handle: 0, parent: 0, info: 0 },
            nlas: Vec::new(),
        }
    }
}

// A message holds a vector, which no spec expression can build, so `from_spec`
// claims nothing; what `from` returns is stated in its own `ensures`.
impl<A> vstd::std_specs::convert::FromSpecImpl<i32> for TcMessage<A> {
    open spec fn obeys_from_spec() -> bool {
        false
    }

    open spec fn from_spec(v: i32) -> Self {
        arbitrary()
    }
}

impl<A> From<u32> for TcMessage<A> {
    /// An empty message for the interface of the given index, taken bit for
    /// bit as a signed index.
    fn from(index: u32) -> (r: Self)
        ensures
            r.header == (TcHeader { family: 0, index: index as i32, handle: 0, parent: 0, info: 0 }),
            r.nlas@.len() == 0,
    {
        TcMessage {
            header: TcHeader { family: 0, index: index as i32, handle: 0, parent: 0, info: 0 },
            nlas: Vec::new(),
        }
    }
}

impl<A> vstd::std_specs::convert::FromSpecImpl<u32> for TcMessage<A> {
    open spec fn obeys_from_spec() -> bool {
        false
    }

    open spec fn from_spec(v: u32) -> Self {
        arbitrary()
    }
}

impl<A: TcOptions> TcMessage<A> {
    /// Decodes a whole message: the header, then the attributes in order,
    /// each options attribute read by the kind text seen before it.
    pub fn parse(buf: &TcMessageBuffer<&[u8]>) -> (r: Result<Self, DecodeError>)
        ensures
            match decode_message::<A>(buf.buffer@) {
                Ok(m) => r matches Ok(msg) && msg@ == m,
                Err(e) => r == Err::<Self, DecodeError>(e),
            },
    {
        let header = match TcHeader::parse(buf) {
            Ok(h) => h,
            Err(e) => {
                return Err(e);
            },
        };
        match parse_nlas::<A>(buf) {
            Ok(nlas) => Ok(TcMessage { header, nlas }),
            Err(e) => Err(e),
        }
    }

    /// Whether every attribute fits its length fields and the whole message
    /// fits in memory: what `buffer_len` and `emit` ask.
    pub fn fits(&self) -> (r: bool)
        ensures
            r == message_fits::<A>(self@),
    {
        let ghost ns = nlas_view(self.nlas@);
        let mut total: usize = TC_HEADER_LEN;
        let mut i: usize = 0;
        while i < self.nlas.len()
            invariant
                ns == nlas_view(self.nlas@),
                i <= self.nlas@.len(),
                total == TC_HEADER_LEN + nlas_bytes::<A>(ns.take(i as int)).len(),
                forall|j: int| 0 <= j < i ==> nla_fits::<A>(#[trigger] ns[j]),
            decreases self.nlas@.len() - i,
        {
            proof {
                ns.lemma_flat_map_take_append(|n: NlaView<A::V>| nla_bytes::<A>(n), i as int);
                lemma_nlas_prefix::<A>(ns, i as int + 1);
            }
            if !self.nlas[i].fits() {
                return false;
            }
            let n = self.nlas[i].buffer_len();
            if n > usize::MAX - total {
                return false;
            }
            total = total + n;
            i += 1;
        }
        assert(ns.take(i as int) =~= ns);
        true
    }

    /// The number of bytes the message takes on the wire.
    pub fn buffer_len(&self) -> (r: usize)
        requires
            message_fits::<A>(self@),
        ensures
            r == message_bytes::<A>(self@).len(),
    {
        let ghost ns = nlas_view(self.nlas@);
        proof {
            lemma_nlas_prefix::<A>(ns, 0);
        }
        let mut total: usize = self.header.buffer_len();
        let mut i: usize = 0;
        while i < self.nlas.len()
            invariant
                ns == nlas_view(self.nlas@),
                message_fits::<A>(self@),
                i <= self.nlas@.len(),
                total == TC_HEADER_LEN + nlas_bytes::<A>(ns.take(i as int)).len(),
            decreases self.nlas@.len() - i,
        {
            proof {
                ns.lemma_flat_map_take_append(|n: NlaView<A::V>| nla_bytes::<A>(n), i as int);
                lemma_nlas_prefix::<A>(ns, i as int + 1);
            }
            assert(nla_fits::<A>(ns[i as int]));
            total = total + self.nlas[i].buffer_len();
            i += 1;
        }
        assert(ns.take(i as int) =~= ns);
        total
    }

    /// Appends the wire form of the message, with zero reserved header bytes.
    pub fn emit_into(&self, out: &mut Vec<u8>)
        requires
            message_fits::<A>(self@),
        ensures
            final(out)@ == old(out)@ + message_bytes::<A>(self@),
    {
        let ghost ns = nlas_view(self.nlas@);
        let ghost start = out@;
        self.header.emit_into(out);
        assert(nlas_bytes::<A>(ns.take(0)) =~= Seq::<u8>::empty());
        let mut i: usize = 0;
        while i < self.nlas.len()
            invariant
                ns == nlas_view(self.nlas@),
                message_fits::<A>(self@),
                i <= self.nlas@.len(),
                out@ == start + header_bytes(self.header) + nlas_bytes::<A>(ns.take(i as int)),
            decreases self.nlas@.len() - i,
        {
            proof {
                ns.lemma_flat_map_take_append(|n: NlaView<A::V>| nla_bytes::<A>(n), i as int);
            }
            assert(nla_fits::<A>(ns[i as int]));
            self.nlas[i].emit_into(out);
            i += 1;
            assert(out@ =~= start + header_bytes(self.header) + nlas_bytes::<A>(
                ns.take(i as int),
            ));
        }
        assert(ns.take(i as int) =~= ns);
    }

    /// Writes the message over the first `buffer_len()` bytes of `buffer`;
    /// the three reserved header bytes after the family, and the bytes after
    /// the message, are left as they were.
    pub fn emit(&self, buffer: &mut [u8])
        requires
            message_fits::<A>(self@),
            old(buffer)@.len() >= message_bytes::<A>(self@).len(),
        ensures
            final(buffer)@ == written_over(message_bytes::<A>(self@), old(buffer)@),
    {
        let mut out: Vec<u8> = Vec::new();
        self.emit_into(&mut out);
        assert(out@ =~= message_bytes::<A>(self@));
        copy_keeping_reserved(buffer, &out);
    }
}

/// The bytes of a prefix of the attributes are no more than those of all of them.
pub proof fn lemma_nlas_prefix<A: TcOptions>(ns: Seq<NlaView<A::V>>, i: int)
    requires
        0 <= i <= ns.len(),
    ensures
        nlas_bytes::<A>(ns.take(i)).len() <= nlas_bytes::<A>(ns).len(),
    decreases ns.len() - i,
{
    if i < ns.len() {
        ns.lemma_flat_map_take_append(|n: NlaView<A::V>| nla_bytes::<A>(n), i);
        lemma_nlas_prefix::<A>(ns, i + 1);
    } else {
        assert(ns.take(i) =~= ns);
    }
}

} // verus!
