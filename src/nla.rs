//! The generic attribute stream: 4-byte headers of length and type, values,
//! and padding to the next multiple of four.
use vstd::prelude::*;
use vstd::slice::slice_to_vec;

use crate::bytes::{align4, lemma_u16_round_trip, push_slice, push_u16, push_zeros, read_u16, u16_at, u16_bytes};
use crate::constants::NLA_TYPE_MASK;
use crate::error::{DecodeError, Part};

verus! {

/// What the walk over an attribute stream finds at one offset.
pub enum NlaStep {
    /// Fewer than four bytes are left: the stream ends here.
    End,
    /// The declared length is below four or runs past the buffer.
    Bad,
    /// An attribute of `len` bytes (header included) with raw type `tag`.
    Attr { len: int, tag: u16 },
}

/// The step of the walk over `b` at offset `pos`.
pub open spec fn nla_step(b: Seq<u8>, pos: int) -> NlaStep {
    if pos + 4 > b.len() {
        NlaStep::End
    } else {
        let len = u16_at(b, pos) as int;
        if len < 4 || pos + len > b.len() {
            NlaStep::Bad
        } else {
            NlaStep::Attr { len, tag: u16_at(b, pos + 2) }
        }
    }
}

/// The type of a raw type field, without its flag bits.
pub open spec fn type_of(tag: u16) -> u16 {
    tag & 0x3FFFu16
}

/// The wire form of one attribute: header, value and zero padding.
pub open spec fn tlv_bytes(tag: u16, value: Seq<u8>) -> Seq<u8> {
    u16_bytes((value.len() as int + 4) as u16) + u16_bytes(tag) + value + Seq::new(
        (align4(value.len() as int + 4) - (value.len() as int + 4)) as nat,
        |_i: int| 0u8,
    )
}

pub proof fn lemma_tlv_len(tag: u16, value: Seq<u8>)
    ensures
        tlv_bytes(tag, value).len() == align4(value.len() as int + 4),
        tlv_bytes(tag, value).len() >= value.len() as int + 4,
{
}

/// Reading back the header of an attribute written by `tlv_bytes`.
pub proof fn lemma_tlv_step(tag: u16, value: Seq<u8>, rest: Seq<u8>)
    requires
        value.len() as int + 4 <= 0xFFFF,
    ensures
        ({
            let b = tlv_bytes(tag, value) + rest;
            &&& nla_step(b, 0) == (NlaStep::Attr { len: value.len() as int + 4, tag })
            &&& b.subrange(4, value.len() as int + 4) == value
            &&& b.skip(align4(value.len() as int + 4)) == rest
        }),
{
    let len = (value.len() as int + 4) as u16;
    let b = tlv_bytes(tag, value) + rest;
    lemma_u16_round_trip(len);
    lemma_u16_round_trip(tag);
    assert(u16_at(b, 0) == u16_at(u16_bytes(len), 0));
    assert(u16_at(b, 2) == u16_at(u16_bytes(tag), 0));
    assert(b.subrange(4, value.len() as int + 4) =~= value);
    assert(b.skip(align4(value.len() as int + 4)) =~= rest);
}

/// A view of one attribute over borrowed bytes.
pub struct NlaBuffer<'a> {
    pub buffer: &'a [u8],
}

impl<'a> NlaBuffer<'a> {
    /// The checks that make `length`, `kind` and `value` safe to call.
    pub open spec fn valid(&self) -> bool {
        self.buffer@.len() >= 4 && 4 <= u16_at(self.buffer@, 0) <= self.buffer@.len()
    }

    pub fn new(buffer: &'a [u8]) -> (r: Self)
        ensures
            r.buffer@ == buffer@,
    {
        NlaBuffer { buffer }
    }

    pub fn new_checked(buffer: &'a [u8]) -> (r: Result<Self, DecodeError>)
        ensures
            match r {
                Ok(nb) => nb.buffer@ == buffer@ && nb.valid(),
                Err(e) => e == DecodeError::Length(Part::Attribute) && !(NlaBuffer {
                    buffer,
                }).valid(),
            },
    {
        let nb = NlaBuffer { buffer };
        match nb.check_buffer_length() {
            Ok(()) => Ok(nb),
            Err(e) => Err(e),
        }
    }

    /// Fails exactly when the header is cut short or its length does not fit.
    pub fn check_buffer_length(&self) -> (r: Result<(), DecodeError>)
        ensures
            r is Ok <==> self.valid(),
            r is Err ==> r == Err::<(), DecodeError>(DecodeError::Length(Part::Attribute)),
    {
        let n = self.buffer.len();
        if n < 4 {
            return Err(DecodeError::Length(Part::Attribute));
        }
        let len = read_u16(self.buffer, 0) as usize;
        if len < 4 || len > n {
            Err(DecodeError::Length(Part::Attribute))
        } else {
            Ok(())
        }
    }

    /// The declared length, header included.
    pub fn length(&self) -> (r: u16)
        requires
            self.buffer@.len() >= 2,
        ensures
            r == u16_at(self.buffer@, 0),
    {
        read_u16(self.buffer, 0)
    }

    /// The type field as it stands, flags included.
    pub fn raw_kind(&self) -> (r: u16)
        requires
            self.buffer@.len() >= 4,
        ensures
            r == u16_at(self.buffer@, 2),
    {
        read_u16(self.buffer, 2)
    }

    /// The type, without the nested and byte-order flags.
    pub fn kind(&self) -> (r: u16)
        requires
            self.buffer@.len() >= 4,
        ensures
            r == type_of(u16_at(self.buffer@, 2)),
    {
        read_u16(self.buffer, 2) & NLA_TYPE_MASK
    }

    /// The value bytes, between the header and the declared end.
    pub fn value(&self) -> (r: &'a [u8])
        requires
            self.valid(),
        ensures
            r@ == self.buffer@.subrange(4, u16_at(self.buffer@, 0) as int),
    {
        let len = read_u16(self.buffer, 0) as usize;
        &self.buffer[4..len]
    }
}

/// Walks an attribute stream one attribute at a time.
pub struct NlasIterator<'a> {
    pub buffer: &'a [u8],
    pub position: usize,
}

/// Where the walk goes on after an attribute of `len` bytes at `pos`.
pub open spec fn next_position(n: int, pos: int, len: int) -> int {
    if pos + align4(len) >= n {
        n
    } else {
        pos + align4(len)
    }
}

impl<'a> NlasIterator<'a> {
    pub fn new(buffer: &'a [u8]) -> (r: Self)
        ensures
            r.buffer@ == buffer@,
            r.position == 0,
    {
        NlasIterator { buffer, position: 0 }
    }

    /// The next attribute, an error that ends the walk, or `None` at the end.
    pub fn next(&mut self) -> (r: Option<Result<NlaBuffer<'a>, DecodeError>>)
        requires
            old(self).position <= old(self).buffer@.len(),
        ensures
            final(self).buffer == old(self).buffer,
            final(self).position <= final(self).buffer@.len(),
            match nla_step(old(self).buffer@, old(self).position as int) {
                NlaStep::End => r is None && final(self).position == old(self).position,
                NlaStep::Bad => r == Some(Err::<NlaBuffer<'a>, DecodeError>(
                    DecodeError::Length(Part::Attribute),
                )) && final(self).position == old(self).buffer@.len(),
                NlaStep::Attr { len, tag } => r matches Some(Ok(nb)) && nb.valid()
                    && nb.buffer@ == old(self).buffer@.subrange(
                    old(self).position as int,
                    old(self).position + len,
                ) && final(self).position == next_position(
                    old(self).buffer@.len() as int,
                    old(self).position as int,
                    len,
                ),
            },
    {
        let n = self.buffer.len();
        let pos = self.position;
        if n - pos < 4 {
            return None;
        }
        let len = read_u16(self.buffer, pos) as usize;
        if len < 4 || len > n - pos {
            self.position = n;
            return Some(Err(DecodeError::Length(Part::Attribute)));
        }
        let nb = NlaBuffer { buffer: &self.buffer[pos..pos + len] };
        assert(u16_at(nb.buffer@, 0) == u16_at(self.buffer@, pos as int));
        let adv = (len + 3) / 4 * 4;
        if adv >= n - pos {
            self.position = n;
        } else {
            self.position = pos + adv;
        }
        Some(Ok(nb))
    }

    /// How many steps the walk yields from here, an error counting as one.
    pub fn count(self) -> (r: usize)
        requires
            self.position <= self.buffer@.len(),
        ensures
            r == nla_steps(self.buffer@, self.position as int),
    {
        let ghost b = self.buffer@;
        let ghost start = self.position as int;
        let n = self.buffer.len();
        let mut it = NlasIterator { buffer: self.buffer, position: self.position };
        let mut c: usize = 0;
        proof {
            lemma_nla_steps_bound(b, start);
        }
        loop
            invariant
                it.buffer@ == b,
                b == self.buffer@,
                start == self.position,
                n == b.len(),
                it.position <= b.len(),
                0 <= start <= b.len(),
                nla_steps(b, start) <= b.len() - start,
                c + nla_steps(b, it.position as int) == nla_steps(b, start),
            decreases b.len() - it.position,
        {
            let ghost p = it.position as int;
            proof {
                lemma_nla_steps_bound(b, p);
            }
            match it.next() {
                None => {
                    assert(nla_step(b, p) is End);
                    assert(nla_steps(b, p) == 0);
                    return c;
                },
                Some(Err(_)) => {
                    assert(nla_step(b, p) is Bad);
                    assert(nla_steps(b, p) == 1);
                    return c + 1;
                },
                Some(Ok(_)) => {
                    proof {
                        lemma_nla_steps_bound(b, it.position as int);
                    }
                    c = c + 1;
                },
            }
        }
    }
}

/// The number of steps the walk over `b` yields from `pos`: each attribute,
/// and a failing step, counts one.
pub open spec fn nla_steps(b: Seq<u8>, pos: int) -> int
    decreases b.len() - pos,
{
    match nla_step(b, pos) {
        NlaStep::End => 0,
        NlaStep::Bad => 1,
        NlaStep::Attr { len, tag } => 1 + nla_steps(b, next_position(b.len() as int, pos, len)),
    }
}

proof fn lemma_nla_steps_bound(b: Seq<u8>, pos: int)
    requires
        0 <= pos <= b.len(),
    ensures
        0 <= nla_steps(b, pos) <= b.len() - pos,
    decreases b.len() - pos,
{
    match nla_step(b, pos) {
        NlaStep::Attr { len, tag } => {
            assert(len <= (len + 3) / 4 * 4) by (nonlinear_arith);
            lemma_nla_steps_bound(b, next_position(b.len() as int, pos, len));
        },
        _ => {},
    }
}

/// An attribute kept as it came: raw type field and value.
#[derive(Debug, Clone, PartialEq, Eq)]
pub struct DefaultNla {
    pub kind: u16,
    pub value: Vec<u8>,
}

impl DefaultNla {
    pub fn parse(buf: &NlaBuffer) -> (r: DefaultNla)
        requires
            buf.valid(),
        ensures
            r.kind == u16_at(buf.buffer@, 2),
            r.value@ == buf.buffer@.subrange(4, u16_at(buf.buffer@, 0) as int),
    {
        DefaultNla { kind: buf.raw_kind(), value: slice_to_vec(buf.value()) }
    }
}

/// Appends the header of an attribute with `value_len` value bytes.
pub fn push_nla_header(out: &mut Vec<u8>, tag: u16, value_len: usize)
    requires
        value_len + 4 <= 0xFFFF,
    ensures
        final(out)@ == old(out)@ + u16_bytes((value_len + 4) as u16) + u16_bytes(tag),
{
    push_u16(out, (value_len + 4) as u16);
    push_u16(out, tag);
}

/// Appends the zero bytes that pad an attribute of `value_len` value bytes.
pub fn push_nla_padding(out: &mut Vec<u8>, value_len: usize)
    requires
        value_len + 4 <= 0xFFFF,
    ensures
        final(out)@ == old(out)@ + Seq::new(
            (align4(value_len + 4) - (value_len + 4)) as nat,
            |_i: int| 0u8,
        ),
{
    let total = value_len + 4;
    let pad = (total + 3) / 4 * 4 - total;
    push_zeros(out, pad);
}

/// Appends the wire form of an attribute whose value is `value`.
pub fn push_tlv(out: &mut Vec<u8>, tag: u16, value: &[u8])
    requires
        value@.len() + 4 <= 0xFFFF,
    ensures
        final(out)@ == old(out)@ + tlv_bytes(tag, value@),
{
    let ghost start = out@;
    push_nla_header(out, tag, value.len());
    push_slice(out, value);
    push_nla_padding(out, value.len());
    assert(out@ =~= start + tlv_bytes(tag, value@));
}

} // verus!
