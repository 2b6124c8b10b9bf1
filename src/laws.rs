//! Laws of the codec, stated over the decoding and encoding models and proved.
use vstd::prelude::*;
use vstd::utf8::{is_ascii_chars, is_ascii_chars_encode_utf8};

use crate::bytes::{align4, u16_at, u32_bytes};
use crate::constants::{
    TCA_CHAIN, TCA_FCNT, TCA_HW_OFFLOAD, TCA_KIND, TCA_OPTIONS, TCA_RATE, TCA_STAB,
    TCA_STATS, TCA_STATS2, TCA_STATS_APP, TCA_STATS_BASIC, TCA_STATS_QUEUE, TCA_UNSPEC,
    TCA_XSTATS, TC_HEADER_LEN,
};
use crate::error::{DecodeError, Part};
use crate::message::{
    decode_message, decode_nla, decode_nlas, header_bytes, header_of, message_bytes,
    message_fits, next_kind, nla_bytes, nla_fits, nla_tag, nla_value, nlas_bytes, NlaView,
    written_over, TcHeader, TcMessageView,
};
use crate::nla::{lemma_tlv_len, lemma_tlv_step, next_position, nla_step, tlv_bytes, type_of, NlaStep};
use crate::options::TcOptions;
use crate::qdisc::{ingress_kind, Qdisc, QdiscView};
use crate::stats::{
    decode_entries, entries_bytes, entries_fit, entry_bytes, entry_of, entry_tag, entry_value,
    lemma_stats_round_trip, lemma_u32_in, Stats2View,
};
use crate::text::{kind_bytes, lemma_kind_round_trip};

verus! {

proof fn lemma_type_of_small(t: u16)
    requires
        t <= 0x3FFF,
    ensures
        type_of(t) == t,
{
    assert(t & 0x3FFFu16 == t) by (bit_vector)
        requires
            t <= 0x3FFF,
    ;
}

/// Two walks over the same bytes from the same point on find the same attributes.
proof fn lemma_nlas_shift<A: TcOptions>(
    b1: Seq<u8>,
    p1: int,
    b2: Seq<u8>,
    p2: int,
    kind: Seq<char>,
)
    requires
        0 <= p1 <= b1.len(),
        0 <= p2 <= b2.len(),
        b1.skip(p1) == b2.skip(p2),
    ensures
        decode_nlas::<A>(b1, p1, kind) == decode_nlas::<A>(b2, p2, kind),
    decreases b1.len() - p1,
{
    let s = b1.skip(p1);
    assert(b1.len() - p1 == s.len() && b2.len() - p2 == s.len());
    if p1 + 4 <= b1.len() {
        assert(b1[p1] == s[0] && b2[p2] == s[0]);
        assert(b1[p1 + 1] == s[1] && b2[p2 + 1] == s[1]);
        assert(b1[p1 + 2] == s[2] && b2[p2 + 2] == s[2]);
        assert(b1[p1 + 3] == s[3] && b2[p2 + 3] == s[3]);
        assert(u16_at(b1, p1) == u16_at(b2, p2));
        assert(u16_at(b1, p1 + 2) == u16_at(b2, p2 + 2));
        let len = u16_at(b1, p1) as int;
        if 4 <= len && p1 + len <= b1.len() {
            assert(b1.subrange(p1 + 4, p1 + len) =~= b2.subrange(p2 + 4, p2 + len)) by {
                assert forall|i: int| 0 <= i < len - 4 implies #[trigger] b1.subrange(
                    p1 + 4,
                    p1 + len,
                )[i] == b2.subrange(p2 + 4, p2 + len)[i] by {
                    assert(b1[p1 + 4 + i] == s[4 + i]);
                    assert(b2[p2 + 4 + i] == s[4 + i]);
                }
            }
            let t = u16_at(b1, p1 + 2);
            let v = b1.subrange(p1 + 4, p1 + len);
            match decode_nla::<A>(t, v, kind) {
                Ok(n) => {
                    let q1 = next_position(b1.len() as int, p1, len);
                    let q2 = next_position(b2.len() as int, p2, len);
                    assert(q1 - p1 == q2 - p2);
                    assert(b1.skip(q1) =~= b2.skip(q2)) by {
                        assert forall|i: int| 0 <= i < b1.len() - q1 implies #[trigger] b1.skip(
                            q1,
                        )[i] == b2.skip(q2)[i] by {
                            assert(b1[q1 + i] == s[q1 - p1 + i]);
                            assert(b2[q2 + i] == s[q1 - p1 + i]);
                        }
                    }
                    lemma_nlas_shift::<A>(b1, q1, b2, q2, next_kind(n, kind));
                },
                Err(_) => {},
            }
        }
    }
}

/// Two walks over the same nested bytes from the same point on find the same entries.
proof fn lemma_entries_shift(b1: Seq<u8>, p1: int, b2: Seq<u8>, p2: int)
    requires
        0 <= p1 <= b1.len(),
        0 <= p2 <= b2.len(),
        b1.skip(p1) == b2.skip(p2),
    ensures
        decode_entries(b1, p1) == decode_entries(b2, p2),
    decreases b1.len() - p1,
{
    let s = b1.skip(p1);
    assert(b1.len() - p1 == s.len() && b2.len() - p2 == s.len());
    if p1 + 4 <= b1.len() {
        assert(b1[p1] == s[0] && b2[p2] == s[0]);
        assert(b1[p1 + 1] == s[1] && b2[p2 + 1] == s[1]);
        assert(b1[p1 + 2] == s[2] && b2[p2 + 2] == s[2]);
        assert(b1[p1 + 3] == s[3] && b2[p2 + 3] == s[3]);
        assert(u16_at(b1, p1) == u16_at(b2, p2));
        assert(u16_at(b1, p1 + 2) == u16_at(b2, p2 + 2));
        let len = u16_at(b1, p1) as int;
        if 4 <= len && p1 + len <= b1.len() {
            assert(b1.subrange(p1 + 4, p1 + len) =~= b2.subrange(p2 + 4, p2 + len)) by {
                assert forall|i: int| 0 <= i < len - 4 implies #[trigger] b1.subrange(
                    p1 + 4,
                    p1 + len,
                )[i] == b2.subrange(p2 + 4, p2 + len)[i] by {
                    assert(b1[p1 + 4 + i] == s[4 + i]);
                    assert(b2[p2 + 4 + i] == s[4 + i]);
                }
            }
            let q1 = next_position(b1.len() as int, p1, len);
            let q2 = next_position(b2.len() as int, p2, len);
            assert(b1.skip(q1) =~= b2.skip(q2)) by {
                assert forall|i: int| 0 <= i < b1.len() - q1 implies #[trigger] b1.skip(q1)[i]
                    == b2.skip(q2)[i] by {
                    assert(b1[q1 + i] == s[q1 - p1 + i]);
                    assert(b2[q2 + i] == s[q1 - p1 + i]);
                }
            }
            lemma_entries_shift(b1, q1, b2, q2);
        }
    }
}

proof fn lemma_flat_map_cons<T>(x: T, rest: Seq<T>, f: spec_fn(T) -> Seq<u8>)
    ensures
        (seq![x] + rest).flat_map(f) == f(x) + rest.flat_map(f),
{
    let s = seq![x] + rest;
    assert(s.map_values(f).drop_first() =~= rest.map_values(f));
    assert(s.map_values(f).first() == f(x));
}

proof fn lemma_known_types()
    ensures
        type_of(TCA_UNSPEC) == TCA_UNSPEC,
        type_of(TCA_KIND) == TCA_KIND,
        type_of(TCA_OPTIONS) == TCA_OPTIONS,
        type_of(TCA_STATS) == TCA_STATS,
        type_of(TCA_XSTATS) == TCA_XSTATS,
        type_of(TCA_RATE) == TCA_RATE,
        type_of(TCA_FCNT) == TCA_FCNT,
        type_of(TCA_STATS2) == TCA_STATS2,
        type_of(TCA_STAB) == TCA_STAB,
        type_of(TCA_CHAIN) == TCA_CHAIN,
        type_of(TCA_HW_OFFLOAD) == TCA_HW_OFFLOAD,
        type_of(TCA_STATS_BASIC) == TCA_STATS_BASIC,
        type_of(TCA_STATS_QUEUE) == TCA_STATS_QUEUE,
        type_of(TCA_STATS_APP) == TCA_STATS_APP,
{
    lemma_type_of_small(TCA_UNSPEC);
    lemma_type_of_small(TCA_KIND);
    lemma_type_of_small(TCA_OPTIONS);
    lemma_type_of_small(TCA_STATS);
    lemma_type_of_small(TCA_XSTATS);
    lemma_type_of_small(TCA_RATE);
    lemma_type_of_small(TCA_FCNT);
    lemma_type_of_small(TCA_STATS2);
    lemma_type_of_small(TCA_STAB);
    lemma_type_of_small(TCA_CHAIN);
    lemma_type_of_small(TCA_HW_OFFLOAD);
}

/// Where the walk goes after the first attribute of `tlv_bytes(tag, value) + rest`,
/// the bytes left are `rest`.
proof fn lemma_tlv_next(tag: u16, value: Seq<u8>, rest: Seq<u8>)
    requires
        value.len() + 4 <= 0xFFFF,
    ensures
        ({
            let b = tlv_bytes(tag, value) + rest;
            let q = next_position(b.len() as int, 0, value.len() as int + 4);
            0 <= q <= b.len() && b.skip(q) == rest
        }),
{
    let b = tlv_bytes(tag, value) + rest;
    lemma_tlv_step(tag, value, rest);
    lemma_tlv_len(tag, value);
    let q = next_position(b.len() as int, 0, value.len() as int + 4);
    if align4(value.len() as int + 4) >= b.len() {
        assert(b.skip(q) =~= rest);
    }
}

#[verifier::rlimit(40)]
proof fn lemma_entries_round_trip(b: Seq<u8>, pos: int, es: Seq<Stats2View>)
    requires
        0 <= pos <= b.len(),
        decode_entries(b, pos) == Ok::<Seq<Stats2View>, DecodeError>(es),
        entries_fit(es),
    ensures
        decode_entries(entries_bytes(es), 0) == Ok::<Seq<Stats2View>, DecodeError>(es),
    decreases b.len() - pos,
{
    match nla_step(b, pos) {
        NlaStep::End => {
            assert(es =~= Seq::<Stats2View>::empty());
            assert(entries_bytes(es) =~= Seq::<u8>::empty());
        },
        NlaStep::Bad => {},
        NlaStep::Attr { len, tag } => {
            let v = b.subrange(pos + 4, pos + len);
            let e = entry_of(tag, v);
            let q = next_position(b.len() as int, pos, len);
            let rest = decode_entries(b, q).unwrap();
            assert(es == seq![e] + rest);
            assert(es[0] == e);
            assert(entries_fit(rest)) by {
                assert forall|i: int| 0 <= i < rest.len() implies entry_value(#[trigger] rest[i]).len()
                    + 4 <= 0xFFFF by {
                    assert(rest[i] == es[i + 1]);
                }
            }
            lemma_entries_round_trip(b, q, rest);
            lemma_flat_map_cons(e, rest, |x: Stats2View| entry_bytes(x));
            let enc = entries_bytes(es);
            assert(enc == tlv_bytes(entry_tag(e), entry_value(e)) + entries_bytes(rest));
            lemma_tlv_step(entry_tag(e), entry_value(e), entries_bytes(rest));
            lemma_tlv_next(entry_tag(e), entry_value(e), entries_bytes(rest));
            lemma_known_types();
            assert(entry_of(entry_tag(e), entry_value(e)) == e);
            let q2 = next_position(enc.len() as int, 0, entry_value(e).len() as int + 4);
            assert(0 <= q2 <= enc.len() && enc.skip(q2) == entries_bytes(rest));
            assert(entries_bytes(rest).skip(0) =~= entries_bytes(rest));
            lemma_entries_shift(enc, q2, entries_bytes(rest), 0);
        },
    }
}

proof fn lemma_nla_round_trip<A: TcOptions>(
    tag: u16,
    v: Seq<u8>,
    kind: Seq<char>,
    n: NlaView<A::V>,
)
    requires
        decode_nla::<A>(tag, v, kind) == Ok::<NlaView<A::V>, DecodeError>(n),
        nla_fits::<A>(n),
    ensures
        decode_nla::<A>(nla_tag(n), nla_value::<A>(n), kind) == Ok::<NlaView<A::V>, DecodeError>(n),
{
    lemma_known_types();
    match n {
        NlaView::Kind(s) => {
            lemma_kind_round_trip(s);
        },
        NlaView::Options(o) => {
            A::lemma_parse_value(kind, v);
        },
        NlaView::Stats(s) => {
            lemma_stats_round_trip(s);
        },
        NlaView::Stats2(es) => {
            lemma_entries_round_trip(v, 0, es);
        },
        NlaView::HwOffload(x) => {
            assert(seq![x][0] == x);
        },
        _ => {},
    }
}

proof fn lemma_nlas_round_trip<A: TcOptions>(
    b: Seq<u8>,
    pos: int,
    kind: Seq<char>,
    ns: Seq<NlaView<A::V>>,
)
    requires
        0 <= pos <= b.len(),
        decode_nlas::<A>(b, pos, kind) == Ok::<Seq<NlaView<A::V>>, DecodeError>(ns),
        forall|i: int| 0 <= i < ns.len() ==> nla_fits::<A>(#[trigger] ns[i]),
    ensures
        decode_nlas::<A>(nlas_bytes::<A>(ns), 0, kind) == Ok::<Seq<NlaView<A::V>>, DecodeError>(
            ns,
        ),
    decreases b.len() - pos,
{
    match nla_step(b, pos) {
        NlaStep::End => {
            assert(ns =~= Seq::<NlaView<A::V>>::empty());
            assert(nlas_bytes::<A>(ns) =~= Seq::<u8>::empty());
        },
        NlaStep::Bad => {},
        NlaStep::Attr { len, tag } => {
            let v = b.subrange(pos + 4, pos + len);
            let n = decode_nla::<A>(tag, v, kind).unwrap();
            let q = next_position(b.len() as int, pos, len);
            let k2 = next_kind(n, kind);
            let rest = decode_nlas::<A>(b, q, k2).unwrap();
            assert(ns == seq![n] + rest);
            assert(ns[0] == n);
            assert forall|i: int| 0 <= i < rest.len() implies nla_fits::<A>(#[trigger] rest[i]) by {
                assert(rest[i] == ns[i + 1]);
            }
            lemma_nlas_round_trip::<A>(b, q, k2, rest);
            lemma_nla_round_trip::<A>(tag, v, kind, n);
            lemma_flat_map_cons(n, rest, |x: NlaView<A::V>| nla_bytes::<A>(x));
            let enc = nlas_bytes::<A>(ns);
            let tail = nlas_bytes::<A>(rest);
            assert(enc == tlv_bytes(nla_tag(n), nla_value::<A>(n)) + tail);
            lemma_tlv_step(nla_tag(n), nla_value::<A>(n), tail);
            lemma_tlv_next(nla_tag(n), nla_value::<A>(n), tail);
            let q2 = next_position(enc.len() as int, 0, nla_value::<A>(n).len() as int + 4);
            assert(0 <= q2 <= enc.len() && enc.skip(q2) == tail);
            assert(tail.skip(0) =~= tail);
            lemma_nlas_shift::<A>(enc, q2, tail, 0, k2);
            assert(tail.skip(0) =~= tail);
        },
    }
}

proof fn lemma_header_round_trip(h: TcHeader, rest: Seq<u8>)
    ensures
        header_of(header_bytes(h) + rest) == h,
        (header_bytes(h) + rest).len() >= TC_HEADER_LEN,
        (header_bytes(h) + rest).skip(TC_HEADER_LEN as int) == rest,
{
    let e = header_bytes(h) + rest;
    assert(e.subrange(4, 8) =~= u32_bytes(h.index as u32));
    lemma_u32_in(e, 4, h.index as u32);
    assert(e.subrange(8, 12) =~= u32_bytes(h.handle));
    lemma_u32_in(e, 8, h.handle);
    assert(e.subrange(12, 16) =~= u32_bytes(h.parent));
    lemma_u32_in(e, 12, h.parent);
    assert(e.subrange(16, 20) =~= u32_bytes(h.info));
    lemma_u32_in(e, 16, h.info);
    let i = h.index;
    assert((i as u32) as i32 == i) by (bit_vector);
    assert(e.skip(TC_HEADER_LEN as int) =~= rest);
}

/// Round trip: encoding a message that was decoded from some bytes, and
/// decoding the result, gives the same message.  The message must fit the
/// wire's 16-bit length fields.
pub proof fn lemma_round_trip<A: TcOptions>(b: Seq<u8>, m: TcMessageView<A::V>)
    requires
        decode_message::<A>(b) == Ok::<TcMessageView<A::V>, DecodeError>(m),
        message_fits::<A>(m),
    ensures
        decode_message::<A>(message_bytes::<A>(m)) == Ok::<TcMessageView<A::V>, DecodeError>(m),
{
    let tail = nlas_bytes::<A>(m.nlas);
    let e = message_bytes::<A>(m);
    lemma_header_round_trip(m.header, tail);
    lemma_nlas_round_trip::<A>(b, TC_HEADER_LEN as int, seq![], m.nlas);
    assert(tail.skip(0) =~= tail);
    lemma_nlas_shift::<A>(e, TC_HEADER_LEN as int, tail, 0, seq![]);
    assert(decode_nlas::<A>(e, TC_HEADER_LEN as int, seq![]) == Ok::<
        Seq<NlaView<A::V>>,
        DecodeError,
    >(m.nlas));
    assert(header_of(e) == m.header);
}

/// Re-encoding: a decoded message, encoded and decoded again, encodes to the
/// very same bytes.
pub proof fn lemma_reencode_identical<A: TcOptions>(b: Seq<u8>, m: TcMessageView<A::V>)
    requires
        decode_message::<A>(b) == Ok::<TcMessageView<A::V>, DecodeError>(m),
        message_fits::<A>(m),
    ensures
        decode_message::<A>(message_bytes::<A>(m)) matches Ok(m2) && message_bytes::<A>(m2)
            == message_bytes::<A>(m),
{
    lemma_round_trip::<A>(b, m);
}


proof fn lemma_align4(n: int)
    requires
        n >= 0,
    ensures
        n <= align4(n) < n + 4,
{
    assert(n <= (n + 3) / 4 * 4 < n + 4) by (nonlinear_arith)
        requires
            n >= 0,
    ;
}

/// Decoding a stream that starts with the attribute `tlv_bytes(tag, v)`.
#[verifier::rlimit(30)]
proof fn lemma_decode_first<A: TcOptions>(
    tag: u16,
    v: Seq<u8>,
    kind: Seq<char>,
    rest: Seq<u8>,
    n: NlaView<A::V>,
)
    requires
        v.len() + 4 <= 0xFFFF,
        decode_nla::<A>(tag, v, kind) == Ok::<NlaView<A::V>, DecodeError>(n),
    ensures
        decode_nlas::<A>(tlv_bytes(tag, v) + rest, 0, kind) == (match decode_nlas::<A>(
            rest,
            0,
            next_kind(n, kind),
        ) {
            Ok(r) => Ok(seq![n] + r),
            Err(e) => Err(e),
        }),
{
    let e = tlv_bytes(tag, v) + rest;
    lemma_tlv_step(tag, v, rest);
    lemma_tlv_next(tag, v, rest);
    let q = next_position(e.len() as int, 0, v.len() as int + 4);
    assert(rest.skip(0) =~= rest);
    lemma_nlas_shift::<A>(e, q, rest, 0, next_kind(n, kind));
}

/// The empty stream decodes to no attributes.
proof fn lemma_decode_empty<A: TcOptions>(kind: Seq<char>)
    ensures
        decode_nlas::<A>(Seq::<u8>::empty(), 0, kind) == Ok::<Seq<NlaView<A::V>>, DecodeError>(
            seq![],
        ),
{
}

/// The sum of the padded lengths of the attributes.
pub open spec fn padded_total<A: TcOptions>(ns: Seq<NlaView<A::V>>) -> int
    decreases ns.len(),
{
    if ns.len() == 0 {
        0
    } else {
        align4(nla_value::<A>(ns[0]).len() as int + 4) + padded_total::<A>(ns.drop_first())
    }
}

/// Length of an attribute: four header bytes and the value, rounded up to a
/// multiple of four.
pub proof fn lemma_attribute_len<A: TcOptions>(n: NlaView<A::V>)
    ensures
        nla_bytes::<A>(n).len() == align4(nla_value::<A>(n).len() as int + 4),
{
    lemma_tlv_len(nla_tag(n), nla_value::<A>(n));
}

proof fn lemma_nlas_len<A: TcOptions>(ns: Seq<NlaView<A::V>>)
    ensures
        nlas_bytes::<A>(ns).len() == padded_total::<A>(ns),
    decreases ns.len(),
{
    if ns.len() == 0 {
        assert(nlas_bytes::<A>(ns) =~= Seq::<u8>::empty());
    } else {
        let rest = ns.drop_first();
        assert(ns =~= seq![ns[0]] + rest);
        lemma_flat_map_cons(ns[0], rest, |x: NlaView<A::V>| nla_bytes::<A>(x));
        lemma_attribute_len::<A>(ns[0]);
        lemma_nlas_len::<A>(rest);
    }
}

/// Length of a message: the header length plus the padded length of each
/// attribute.
pub proof fn lemma_message_len<A: TcOptions>(m: TcMessageView<A::V>)
    ensures
        message_bytes::<A>(m).len() == TC_HEADER_LEN + padded_total::<A>(m.nlas),
{
    lemma_nlas_len::<A>(m.nlas);
}

/// Emitting a message twice writes the same bytes each time: over buffers
/// that agree on the reserved header bytes, the message's bytes are equal, and
/// over a buffer whose reserved bytes are zero they are the message's encoding.
pub proof fn lemma_emit_deterministic<A: TcOptions>(
    m: TcMessageView<A::V>,
    before1: Seq<u8>,
    before2: Seq<u8>,
)
    requires
        before1.len() >= message_bytes::<A>(m).len(),
        before2.len() >= message_bytes::<A>(m).len(),
    ensures
        ({
            let n = message_bytes::<A>(m).len() as int;
            let after1 = written_over(message_bytes::<A>(m), before1);
            let after2 = written_over(message_bytes::<A>(m), before2);
            &&& forall|i: int|
                0 <= i < n && !(1 <= i < 4) ==> #[trigger] after1[i] == after2[i]
            &&& before1.subrange(1, 4) == before2.subrange(1, 4) ==> after1.take(n) == after2.take(n)
            &&& before1.subrange(1, 4) == seq![0u8, 0u8, 0u8] ==> after1.take(n) == message_bytes::<A>(m)
        }),
{
    let mb = message_bytes::<A>(m);
    let n = mb.len() as int;
    let after1 = written_over(mb, before1);
    let after2 = written_over(mb, before2);
    assert(mb.subrange(1, 4) =~= seq![0u8, 0u8, 0u8]);
    assert forall|i: int| 0 <= i < n && !(1 <= i < 4) implies #[trigger] after1[i] == after2[i] by {
        if i >= 4 {
            assert(after1[i] == mb[i]);
            assert(after2[i] == mb[i]);
        }
    }
    if before1.subrange(1, 4) == before2.subrange(1, 4) {
        assert forall|i: int| 1 <= i < 4 implies #[trigger] after1[i] == after2[i] by {
            assert(before1.subrange(1, 4)[i - 1] == before2.subrange(1, 4)[i - 1]);
        }
        assert(after1.take(n) =~= after2.take(n));
    }
    if before1.subrange(1, 4) == seq![0u8, 0u8, 0u8] {
        assert forall|i: int| 0 <= i < n implies #[trigger] after1[i] == mb[i] by {
            if 1 <= i < 4 {
                assert(before1.subrange(1, 4)[i - 1] == 0u8);
            }
        }
        assert(after1.take(n) =~= mb);
    }
}

/// Whether cutting `b` to its first `k` bytes falls inside an attribute of the
/// walk from `pos` whose 4-byte header is kept.
pub open spec fn cuts_attribute(b: Seq<u8>, pos: int, k: int) -> bool
    decreases b.len() - pos,
{
    match nla_step(b, pos) {
        NlaStep::Attr { len, tag } => (pos + 4 <= k < pos + len) || (next_position(
            b.len() as int,
            pos,
            len,
        ) <= k && cuts_attribute(b, next_position(b.len() as int, pos, len), k)),
        _ => false,
    }
}

proof fn lemma_truncated_nlas<A: TcOptions>(b: Seq<u8>, pos: int, kind: Seq<char>, k: int)
    requires
        0 <= pos <= k <= b.len(),
        decode_nlas::<A>(b, pos, kind) is Ok,
        cuts_attribute(b, pos, k),
    ensures
        decode_nlas::<A>(b.take(k), pos, kind) == Err::<Seq<NlaView<A::V>>, DecodeError>(
            DecodeError::Length(Part::Attribute),
        ),
    decreases b.len() - pos,
{
    let t = b.take(k);
    match nla_step(b, pos) {
        NlaStep::Attr { len, tag } => {
            let q = next_position(b.len() as int, pos, len);
            lemma_align4(len);
            assert(pos + 4 <= k);
            assert(t[pos] == b[pos] && t[pos + 1] == b[pos + 1]);
            assert(t[pos + 2] == b[pos + 2] && t[pos + 3] == b[pos + 3]);
            assert(u16_at(t, pos) == u16_at(b, pos));
            assert(u16_at(t, pos + 2) == u16_at(b, pos + 2));
            if k >= pos + len {
                assert(t.subrange(pos + 4, pos + len) =~= b.subrange(pos + 4, pos + len));
                let n = decode_nla::<A>(tag, b.subrange(pos + 4, pos + len), kind).unwrap();
                assert(next_position(k, pos, len) == q);
                lemma_truncated_nlas::<A>(b, q, next_kind(n, kind), k);
            }
        },
        _ => {},
    }
}

/// Truncation: a decodable message cut short inside an attribute whose header
/// is kept fails to decode, with a length error on the attribute stream.
pub proof fn lemma_truncated_message_rejected<A: TcOptions>(b: Seq<u8>, k: int)
    requires
        decode_message::<A>(b) is Ok,
        TC_HEADER_LEN <= k <= b.len(),
        cuts_attribute(b, TC_HEADER_LEN as int, k),
    ensures
        decode_message::<A>(b.take(k)) == Err::<TcMessageView<A::V>, DecodeError>(
            DecodeError::Length(Part::Attribute),
        ),
{
    lemma_truncated_nlas::<A>(b, TC_HEADER_LEN as int, seq![], k);
}

/// Truncation within the header: fewer bytes than a header fail with a
/// length error on the header.
pub proof fn lemma_truncated_header_rejected<A: TcOptions>(b: Seq<u8>)
    requires
        b.len() < TC_HEADER_LEN,
    ensures
        decode_message::<A>(b) == Err::<TcMessageView<A::V>, DecodeError>(
            DecodeError::Length(Part::Header),
        ),
{
}

/// The types that have an attribute variant of their own.
pub open spec fn is_known_type(t: u16) -> bool {
    t <= TCA_STAB || t == TCA_CHAIN || t == TCA_HW_OFFLOAD
}

/// Unknown types: an attribute whose type has no variant decodes to the
/// catch-all, holding its raw type field and value, and encodes back to the
/// same bytes.
pub proof fn lemma_unknown_tag_kept<A: TcOptions>(tag: u16, v: Seq<u8>, kind: Seq<char>)
    requires
        !is_known_type(type_of(tag)),
        v.len() + 4 <= 0xFFFF,
    ensures
        decode_nla::<A>(tag, v, kind) == Ok::<NlaView<A::V>, DecodeError>(NlaView::Other(tag, v)),
        nla_bytes::<A>(NlaView::Other(tag, v)) == tlv_bytes(tag, v),
        decode_nlas::<A>(tlv_bytes(tag, v), 0, kind) == Ok::<Seq<NlaView<A::V>>, DecodeError>(
            seq![NlaView::Other(tag, v)],
        ),
{
    lemma_decode_first::<A>(tag, v, kind, seq![], NlaView::Other(tag, v));
    lemma_decode_empty::<A>(kind);
    assert(tlv_bytes(tag, v) + Seq::<u8>::empty() =~= tlv_bytes(tag, v));
    assert(seq![NlaView::<A::V>::Other(tag, v)] + Seq::<NlaView<A::V>>::empty() =~= seq![
        NlaView::<A::V>::Other(tag, v),
    ]);
}

proof fn lemma_ingress_kind_bytes()
    ensures
        kind_bytes(ingress_kind()).len() == 8,
{
    let s = ingress_kind();
    assert(is_ascii_chars(s));
    is_ascii_chars_encode_utf8(s);
}

/// Kind before options: after a kind attribute holding "ingress", an options
/// attribute decodes to the ingress marker, whatever its payload and whatever
/// follows.
pub proof fn lemma_ingress_kind_selects_marker(p: Seq<u8>, rest: Seq<u8>)
    requires
        p.len() + 4 <= 0xFFFF,
    ensures
        decode_nlas::<Qdisc>(
            tlv_bytes(TCA_KIND, kind_bytes(ingress_kind())) + tlv_bytes(TCA_OPTIONS, p) + rest,
            0,
            seq![],
        ) == (match decode_nlas::<Qdisc>(rest, 0, ingress_kind()) {
            Ok(r) => Ok(
                seq![NlaView::Kind(ingress_kind()), NlaView::Options(QdiscView::Ingress)] + r,
            ),
            Err(e) => Err(e),
        }),
{
    let kb = kind_bytes(ingress_kind());
    let second = tlv_bytes(TCA_OPTIONS, p) + rest;
    lemma_ingress_kind_bytes();
    lemma_known_types();
    lemma_kind_round_trip(ingress_kind());
    let k = NlaView::<QdiscView>::Kind(ingress_kind());
    let o = NlaView::<QdiscView>::Options(QdiscView::Ingress);
    assert(tlv_bytes(TCA_KIND, kb) + tlv_bytes(TCA_OPTIONS, p) + rest =~= tlv_bytes(TCA_KIND, kb)
        + second);
    lemma_decode_first::<Qdisc>(TCA_KIND, kb, seq![], second, k);
    lemma_decode_first::<Qdisc>(TCA_OPTIONS, p, ingress_kind(), rest, o);
    match decode_nlas::<Qdisc>(rest, 0, ingress_kind()) {
        Ok(r) => {
            assert(seq![k] + (seq![o] + r) =~= seq![k, o] + r);
        },
        Err(_) => {},
    }
}

/// Options with no kind before them decode to the opaque variant holding the
/// raw payload, whatever follows.
pub proof fn lemma_options_without_kind_stay_raw(p: Seq<u8>, rest: Seq<u8>)
    requires
        p.len() + 4 <= 0xFFFF,
    ensures
        decode_nlas::<Qdisc>(tlv_bytes(TCA_OPTIONS, p) + rest, 0, seq![]) == (match decode_nlas::<
            Qdisc,
        >(rest, 0, seq![]) {
            Ok(r) => Ok(seq![NlaView::Options(QdiscView::Other(p))] + r),
            Err(e) => Err(e),
        }),
{
    lemma_known_types();
    assert(Seq::<char>::empty() != ingress_kind()) by {
        assert(ingress_kind().len() == 7);
    }
    let o = NlaView::<QdiscView>::Options(QdiscView::Other(p));
    lemma_decode_first::<Qdisc>(TCA_OPTIONS, p, seq![], rest, o);
}

/// Round trip of the attribute stream under any header: the attributes decoded
/// from one message, put behind any header and encoded, decode to the same
/// attributes.
pub proof fn lemma_nlas_round_trip_any_header<A: TcOptions>(
    b: Seq<u8>,
    ns: Seq<NlaView<A::V>>,
    h: TcHeader,
)
    requires
        b.len() >= TC_HEADER_LEN,
        decode_nlas::<A>(b, TC_HEADER_LEN as int, seq![]) == Ok::<
            Seq<NlaView<A::V>>,
            DecodeError,
        >(ns),
        forall|i: int| 0 <= i < ns.len() ==> nla_fits::<A>(#[trigger] ns[i]),
    ensures
        decode_nlas::<A>(
            message_bytes::<A>(TcMessageView { header: h, nlas: ns }),
            TC_HEADER_LEN as int,
            seq![],
        ) == Ok::<Seq<NlaView<A::V>>, DecodeError>(ns),
{
    let tail = nlas_bytes::<A>(ns);
    let e = message_bytes::<A>(TcMessageView { header: h, nlas: ns });
    lemma_header_round_trip(h, tail);
    lemma_nlas_round_trip::<A>(b, TC_HEADER_LEN as int, seq![], ns);
    assert(tail.skip(0) =~= tail);
    lemma_nlas_shift::<A>(e, TC_HEADER_LEN as int, tail, 0, seq![]);
}

/// Unknown types behind any header: a message whose one attribute has a type
/// with no variant decodes to the catch-all with the raw type and value.
pub proof fn lemma_unknown_tag_in_message<A: TcOptions>(header: Seq<u8>, tag: u16, v: Seq<u8>)
    requires
        header.len() == TC_HEADER_LEN,
        !is_known_type(type_of(tag)),
        v.len() + 4 <= 0xFFFF,
    ensures
        decode_nlas::<A>(header + tlv_bytes(tag, v), TC_HEADER_LEN as int, seq![]) == Ok::<
            Seq<NlaView<A::V>>,
            DecodeError,
        >(seq![NlaView::Other(tag, v)]),
{
    let b = header + tlv_bytes(tag, v);
    lemma_unknown_tag_kept::<A>(tag, v, seq![]);
    assert(b.skip(TC_HEADER_LEN as int) =~= tlv_bytes(tag, v).skip(0));
    lemma_nlas_shift::<A>(b, TC_HEADER_LEN as int, tlv_bytes(tag, v), 0, seq![]);
}

/// Whether the walk over `p` from `pos` comes to an entry whose declared
/// length is below four or runs past `p`.
pub open spec fn reaches_bad_entry(p: Seq<u8>, pos: int) -> bool
    decreases p.len() - pos,
{
    match nla_step(p, pos) {
        NlaStep::End => false,
        NlaStep::Bad => true,
        NlaStep::Attr { len, tag } => reaches_bad_entry(p, next_position(p.len() as int, pos, len)),
    }
}

proof fn lemma_entries_fail(p: Seq<u8>, pos: int)
    requires
        0 <= pos <= p.len(),
    ensures
        reaches_bad_entry(p, pos) ==> decode_entries(p, pos) == Err::<
            Seq<Stats2View>,
            DecodeError,
        >(DecodeError::Length(Part::Stats2Entry)),
        !reaches_bad_entry(p, pos) ==> decode_entries(p, pos) is Ok,
    decreases p.len() - pos,
{
    match nla_step(p, pos) {
        NlaStep::Attr { len, tag } => {
            lemma_entries_fail(p, next_position(p.len() as int, pos, len));
        },
        _ => {},
    }
}

/// Truncation inside the nested statistics: a statistics attribute whose
/// entries run into one cut short fails with a length error at the entry
/// level; otherwise its entries decode.
pub proof fn lemma_truncated_entry_rejected<A: TcOptions>(p: Seq<u8>, kind: Seq<char>)
    ensures
        reaches_bad_entry(p, 0) ==> decode_nla::<A>(TCA_STATS2, p, kind) == Err::<
            NlaView<A::V>,
            DecodeError,
        >(DecodeError::Length(Part::Stats2Entry)),
        !reaches_bad_entry(p, 0) ==> decode_nla::<A>(TCA_STATS2, p, kind) is Ok,
{
    lemma_known_types();
    lemma_entries_fail(p, 0);
}

} // verus!
