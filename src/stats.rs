//! Statistics carried by a message: the legacy fixed record and the nested
//! statistics stream.
use vstd::prelude::*;
use vstd::slice::slice_to_vec;

use crate::bytes::{
    lemma_u32_round_trip, lemma_u64_round_trip, push_u32, push_u64, read_u32, read_u64, u32_at,
    u32_bytes, u64_at, u64_bytes,
};
use crate::constants::{STATS_LEN, TCA_STATS_APP, TCA_STATS_BASIC, TCA_STATS_QUEUE};
use crate::error::{DecodeError, Part};
use crate::nla::{
    lemma_tlv_len, next_position, nla_step, push_tlv, tlv_bytes, type_of, NlaBuffer, NlaStep,
    NlasIterator, DefaultNla,
};

verus! {

/// The legacy statistics record.
#[derive(Debug, Clone, Copy, PartialEq, Eq, Structural)]
pub struct Stats {
    pub bytes: u64,
    pub packets: u32,
    pub drops: u32,
    pub overlimits: u32,
    pub bps: u32,
    pub pps: u32,
    pub qlen: u32,
    pub backlog: u32,
}

/// The record read from the first bytes of `b`.
pub open spec fn stats_of(b: Seq<u8>) -> Stats {
    Stats {
        bytes: u64_at(b, 0),
        packets: u32_at(b, 8),
        drops: u32_at(b, 12),
        overlimits: u32_at(b, 16),
        bps: u32_at(b, 20),
        pps: u32_at(b, 24),
        qlen: u32_at(b, 28),
        backlog: u32_at(b, 32),
    }
}

/// The wire form of the record.
pub open spec fn stats_bytes(s: Stats) -> Seq<u8> {
    u64_bytes(s.bytes) + u32_bytes(s.packets) + u32_bytes(s.drops) + u32_bytes(s.overlimits)
        + u32_bytes(s.bps) + u32_bytes(s.pps) + u32_bytes(s.qlen) + u32_bytes(s.backlog)
}

pub proof fn lemma_u32_in(b: Seq<u8>, i: int, x: u32)
    requires
        0 <= i,
        i + 4 <= b.len(),
        b.subrange(i, i + 4) == u32_bytes(x),
    ensures
        u32_at(b, i) == x,
{
    lemma_u32_round_trip(x);
    assert(b[i] == u32_bytes(x)[0]);
    assert(b[i + 1] == u32_bytes(x)[1]);
    assert(b[i + 2] == u32_bytes(x)[2]);
    assert(b[i + 3] == u32_bytes(x)[3]);
}

pub proof fn lemma_stats_round_trip(s: Stats)
    ensures
        stats_bytes(s).len() == STATS_LEN,
        stats_of(stats_bytes(s)) == s,
{
    let b = stats_bytes(s);
    lemma_u64_round_trip(s.bytes);
    assert(b.subrange(0, 8) =~= u64_bytes(s.bytes));
    assert(u64_at(b, 0) == u64_at(u64_bytes(s.bytes), 0));
    assert(b.subrange(8, 12) =~= u32_bytes(s.packets));
    lemma_u32_in(b, 8, s.packets);
    assert(b.subrange(12, 16) =~= u32_bytes(s.drops));
    lemma_u32_in(b, 12, s.drops);
    assert(b.subrange(16, 20) =~= u32_bytes(s.overlimits));
    lemma_u32_in(b, 16, s.overlimits);
    assert(b.subrange(20, 24) =~= u32_bytes(s.bps));
    lemma_u32_in(b, 20, s.bps);
    assert(b.subrange(24, 28) =~= u32_bytes(s.pps));
    lemma_u32_in(b, 24, s.pps);
    assert(b.subrange(28, 32) =~= u32_bytes(s.qlen));
    lemma_u32_in(b, 28, s.qlen);
    assert(b.subrange(32, 36) =~= u32_bytes(s.backlog));
    lemma_u32_in(b, 32, s.backlog);
}

/// A view of a legacy statistics record over borrowed bytes.
pub struct StatsBuffer<'a> {
    pub buffer: &'a [u8],
}

impl<'a> StatsBuffer<'a> {
    pub fn new(buffer: &'a [u8]) -> (r: Self)
        ensures
            r.buffer@ == buffer@,
    {
        StatsBuffer { buffer }
    }

    pub fn new_checked(buffer: &'a [u8]) -> (r: Result<Self, DecodeError>)
        ensures
            buffer@.len() >= STATS_LEN ==> (r matches Ok(sb) && sb.buffer@ == buffer@),
            buffer@.len() < STATS_LEN ==> r == Err::<Self, DecodeError>(
                DecodeError::Length(Part::Stats),
            ),
    {
        if buffer.len() < STATS_LEN {
            Err(DecodeError::Length(Part::Stats))
        } else {
            Ok(StatsBuffer { buffer })
        }
    }
}

impl Stats {
    /// Reads the record; fails when fewer bytes than a record are given.
    pub fn parse(buf: &StatsBuffer) -> (r: Result<Stats, DecodeError>)
        ensures
            buf.buffer@.len() >= STATS_LEN ==> r == Ok::<Stats, DecodeError>(
                stats_of(buf.buffer@),
            ),
            buf.buffer@.len() < STATS_LEN ==> r == Err::<Stats, DecodeError>(
                DecodeError::Length(Part::Stats),
            ),
    {
        let b = buf.buffer;
        if b.len() < STATS_LEN {
            return Err(DecodeError::Length(Part::Stats));
        }
        Ok(
            Stats {
                bytes: read_u64(b, 0),
                packets: read_u32(b, 8),
                drops: read_u32(b, 12),
                overlimits: read_u32(b, 16),
                bps: read_u32(b, 20),
                pps: read_u32(b, 24),
                qlen: read_u32(b, 28),
                backlog: read_u32(b, 32),
            },
        )
    }

    /// Appends the wire form of the record.
    pub fn emit_into(&self, out: &mut Vec<u8>)
        ensures
            final(out)@ == old(out)@ + stats_bytes(*self),
    {
        let ghost start = out@;
        push_u64(out, self.bytes);
        push_u32(out, self.packets);
        push_u32(out, self.drops);
        push_u32(out, self.overlimits);
        push_u32(out, self.bps);
        push_u32(out, self.pps);
        push_u32(out, self.qlen);
        push_u32(out, self.backlog);
        assert(out@ =~= start + stats_bytes(*self));
    }
}

/// One entry of the nested statistics stream.
#[derive(Debug, Clone, PartialEq, Eq)]
pub enum Stats2 {
    StatsApp(Vec<u8>),
    StatsBasic(Vec<u8>),
    StatsQueue(Vec<u8>),
    Other(DefaultNla),
}

/// The meaning of a `Stats2` entry.
pub enum Stats2View {
    App(Seq<u8>),
    Basic(Seq<u8>),
    Queue(Seq<u8>),
    Other(u16, Seq<u8>),
}

impl View for Stats2 {
    type V = Stats2View;

    open spec fn view(&self) -> Stats2View {
        match self {
            Stats2::StatsApp(v) => Stats2View::App(v@),
            Stats2::StatsBasic(v) => Stats2View::Basic(v@),
            Stats2::StatsQueue(v) => Stats2View::Queue(v@),
            Stats2::Other(d) => Stats2View::Other(d.kind, d.value@),
        }
    }
}

/// The entry that an attribute of raw type `tag` and value `v` decodes to.
pub open spec fn entry_of(tag: u16, v: Seq<u8>) -> Stats2View {
    let t = type_of(tag);
    if t == TCA_STATS_BASIC {
        Stats2View::Basic(v)
    } else if t == TCA_STATS_QUEUE {
        Stats2View::Queue(v)
    } else if t == TCA_STATS_APP {
        Stats2View::App(v)
    } else {
        Stats2View::Other(tag, v)
    }
}

pub open spec fn entry_tag(e: Stats2View) -> u16 {
    match e {
        Stats2View::App(_) => TCA_STATS_APP,
        Stats2View::Basic(_) => TCA_STATS_BASIC,
        Stats2View::Queue(_) => TCA_STATS_QUEUE,
        Stats2View::Other(t, _) => t,
    }
}

pub open spec fn entry_value(e: Stats2View) -> Seq<u8> {
    match e {
        Stats2View::App(v) => v,
        Stats2View::Basic(v) => v,
        Stats2View::Queue(v) => v,
        Stats2View::Other(_, v) => v,
    }
}

/// The wire form of one entry.
pub open spec fn entry_bytes(e: Stats2View) -> Seq<u8> {
    tlv_bytes(entry_tag(e), entry_value(e))
}

/// The wire form of a sequence of entries, back to back.
pub open spec fn entries_bytes(es: Seq<Stats2View>) -> Seq<u8> {
    es.flat_map(|e: Stats2View| entry_bytes(e))
}

/// Every entry's length fits the 16-bit length field.
pub open spec fn entries_fit(es: Seq<Stats2View>) -> bool {
    forall|i: int| 0 <= i < es.len() ==> entry_value(#[trigger] es[i]).len() + 4 <= 0xFFFF
}

/// The entries that the nested stream `b` holds from offset `pos` on.
pub open spec fn decode_entries(b: Seq<u8>, pos: int) -> Result<Seq<Stats2View>, DecodeError>
    decreases b.len() - pos,
{
    match nla_step(b, pos) {
        NlaStep::End => Ok(seq![]),
        NlaStep::Bad => Err(DecodeError::Length(Part::Stats2Entry)),
        NlaStep::Attr { len, tag } => {
            let e = entry_of(tag, b.subrange(pos + 4, pos + len));
            match decode_entries(b, next_position(b.len() as int, pos, len)) {
                Ok(rest) => Ok(seq![e] + rest),
                Err(err) => Err(err),
            }
        },
    }
}

impl Stats2 {
    /// Decodes one entry of the nested statistics stream.
    pub fn parse(buf: &NlaBuffer) -> (r: Result<Stats2, DecodeError>)
        requires
            buf.valid(),
        ensures
            r matches Ok(e) && e@ == entry_of(
                u16_at_buf(buf),
                buf.buffer@.subrange(4, len_at_buf(buf)),
            ),
    {
        let value = buf.value();
        let kind = buf.kind();
        let e = if kind == TCA_STATS_BASIC {
            Stats2::StatsBasic(slice_to_vec(value))
        } else if kind == TCA_STATS_QUEUE {
            Stats2::StatsQueue(slice_to_vec(value))
        } else if kind == TCA_STATS_APP {
            Stats2::StatsApp(slice_to_vec(value))
        } else {
            Stats2::Other(DefaultNla::parse(buf))
        };
        Ok(e)
    }

    pub fn value_len(&self) -> (r: usize)
        ensures
            r == entry_value(self@).len(),
    {
        match self {
            Stats2::StatsApp(v) => v.len(),
            Stats2::StatsBasic(v) => v.len(),
            Stats2::StatsQueue(v) => v.len(),
            Stats2::Other(d) => d.value.len(),
        }
    }

    /// Appends the wire form of the entry.
    pub fn emit_into(&self, out: &mut Vec<u8>)
        requires
            entry_value(self@).len() + 4 <= 0xFFFF,
        ensures
            final(out)@ == old(out)@ + entry_bytes(self@),
    {
        match self {
            Stats2::StatsApp(v) => push_tlv(out, TCA_STATS_APP, v.as_slice()),
            Stats2::StatsBasic(v) => push_tlv(out, TCA_STATS_BASIC, v.as_slice()),
            Stats2::StatsQueue(v) => push_tlv(out, TCA_STATS_QUEUE, v.as_slice()),
            Stats2::Other(d) => push_tlv(out, d.kind, d.value.as_slice()),
        }
    }
}

/// The raw type field of a checked attribute view.
pub open spec fn u16_at_buf(buf: &NlaBuffer) -> u16 {
    crate::bytes::u16_at(buf.buffer@, 2)
}

/// The declared length of a checked attribute view.
pub open spec fn len_at_buf(buf: &NlaBuffer) -> int {
    crate::bytes::u16_at(buf.buffer@, 0) as int
}

/// Decodes the nested statistics stream held by `payload`.
pub fn parse_stats2(payload: &[u8]) -> (r: Result<Vec<Stats2>, DecodeError>)
    ensures
        match decode_entries(payload@, 0) {
            Ok(es) => r matches Ok(v) && v@.map_values(|e: Stats2| e@) == es,
            Err(e) => r == Err::<Vec<Stats2>, DecodeError>(e),
        },
{
    let mut it = NlasIterator::new(payload);
    let mut acc: Vec<Stats2> = Vec::new();
    loop
        invariant
            it.buffer@ == payload@,
            it.position <= payload@.len(),
            decode_entries(payload@, 0) == (match decode_entries(payload@, it.position as int) {
                Ok(rest) => Ok(acc@.map_values(|e: Stats2| e@) + rest),
                Err(err) => Err(err),
            }),
        decreases payload@.len() - it.position,
    {
        let ghost pos = it.position as int;
        let ghost before = acc@.map_values(|e: Stats2| e@);
        match it.next() {
            None => {
                assert(acc@.map_values(|e: Stats2| e@) + seq![] =~= acc@.map_values(
                    |e: Stats2| e@,
                ));
                return Ok(acc);
            },
            Some(Err(_)) => {
                return Err(DecodeError::Length(Part::Stats2Entry));
            },
            Some(Ok(nb)) => {
                let e = Stats2::parse(&nb).unwrap();
                proof {
                    let b = payload@;
                    let len = crate::bytes::u16_at(b, pos) as int;
                    assert(nb.buffer@.subrange(4, len_at_buf(&nb)) =~= b.subrange(
                        pos + 4,
                        pos + len,
                    ));
                }
                acc.push(e);
                assert(acc@.map_values(|e: Stats2| e@) =~= before.push(e@));
                assert(before.push(e@) + (match decode_entries(payload@, it.position as int) {
                    Ok(rest) => rest,
                    Err(_) => seq![],
                }) =~= before + (seq![e@] + (match decode_entries(
                    payload@,
                    it.position as int,
                ) {
                    Ok(rest) => rest,
                    Err(_) => seq![],
                })));
            },
        }
    }
}

/// The views of a vector of entries.
pub open spec fn entries_view(v: Seq<Stats2>) -> Seq<Stats2View> {
    v.map_values(|e: Stats2| e@)
}

/// The number of bytes that the entries take on the wire, padding included.
pub fn entries_len(v: &Vec<Stats2>) -> (r: usize)
    requires
        entries_bytes(entries_view(v@)).len() <= 0xFFFF,
    ensures
        r == entries_bytes(entries_view(v@)).len(),
{
    let ghost es = entries_view(v@);
    let mut total: usize = 0;
    let mut i: usize = 0;
    while i < v.len()
        invariant
            es == entries_view(v@),
            entries_bytes(es).len() <= 0xFFFF,
            i <= v@.len(),
            total == entries_bytes(es.take(i as int)).len(),
        decreases v@.len() - i,
    {
        proof {
            es.lemma_flat_map_take_append(|e: Stats2View| entry_bytes(e), i as int);
            lemma_entries_prefix(es, i as int + 1);
            lemma_tlv_len(entry_tag(es[i as int]), entry_value(es[i as int]));
        }
        let n = v[i].value_len() + 4;
        total = total + (n + 3) / 4 * 4;
        i += 1;
    }
    assert(es.take(i as int) =~= es);
    total
}

/// The bytes of a prefix of the entries are no more than those of all of them.
pub proof fn lemma_entries_prefix(es: Seq<Stats2View>, i: int)
    requires
        0 <= i <= es.len(),
    ensures
        entries_bytes(es.take(i)).len() <= entries_bytes(es).len(),
    decreases es.len() - i,
{
    if i < es.len() {
        es.lemma_flat_map_take_append(|e: Stats2View| entry_bytes(e), i);
        lemma_entries_prefix(es, i + 1);
    } else {
        assert(es.take(i) =~= es);
    }
}

/// Appends the wire form of the entries, back to back.
pub fn emit_entries(v: &Vec<Stats2>, out: &mut Vec<u8>)
    requires
        entries_fit(entries_view(v@)),
    ensures
        final(out)@ == old(out)@ + entries_bytes(entries_view(v@)),
{
    let ghost es = entries_view(v@);
    let ghost start = out@;
    let mut i: usize = 0;
    while i < v.len()
        invariant
            es == entries_view(v@),
            entries_fit(es),
            i <= v@.len(),
            out@ == start + entries_bytes(es.take(i as int)),
        decreases v@.len() - i,
    {
        proof {
            es.lemma_flat_map_take_append(|e: Stats2View| entry_bytes(e), i as int);
        }
        assert(entry_value(es[i as int]).len() + 4 <= 0xFFFF);
        v[i].emit_into(out);
        i += 1;
        assert(out@ =~= start + entries_bytes(es.take(i as int)));
    }
    assert(es.take(i as int) =~= es);
}

/// Whether every entry fits its length field and all of them together fit the
/// value of one attribute; if so, the number of bytes they take.
pub fn entries_fit_len(v: &Vec<Stats2>) -> (r: Option<usize>)
    ensures
        r is Some <==> (entries_fit(entries_view(v@)) && entries_bytes(entries_view(v@)).len() + 4
            <= 0xFFFF),
        r matches Some(n) ==> n == entries_bytes(entries_view(v@)).len(),
{
    let ghost es = entries_view(v@);
    let mut total: usize = 0;
    let mut i: usize = 0;
    while i < v.len()
        invariant
            es == entries_view(v@),
            i <= v@.len(),
            total <= 0xFFFF - 4,
            total == entries_bytes(es.take(i as int)).len(),
            forall|j: int| 0 <= j < i ==> entry_value(#[trigger] es[j]).len() + 4 <= 0xFFFF,
        decreases v@.len() - i,
    {
        proof {
            es.lemma_flat_map_take_append(|e: Stats2View| entry_bytes(e), i as int);
            lemma_entries_prefix(es, i as int + 1);
            lemma_tlv_len(entry_tag(es[i as int]), entry_value(es[i as int]));
        }
        let n = v[i].value_len();
        if n > 0xFFFF - 4 {
            return None;
        }
        let padded = (n + 4 + 3) / 4 * 4;
        if padded > 0xFFFF - 4 - total {
            return None;
        }
        total = total + padded;
        i += 1;
    }
    assert(es.take(i as int) =~= es);
    Some(total)
}

} // verus!
