//! The options attribute, whose layout depends on the kind seen before it.
use vstd::prelude::*;

verus! {

/// The options value of one object family (queueing discipline, class, filter).
pub trait TcOptions: Sized + View {
    /// The value bytes that `v` is written as.
    spec fn spec_value(v: Self::V) -> Seq<u8>;

    /// What an options payload decodes to, given the kind text seen before it
    /// in the same message (empty when none was).
    spec fn spec_parse(kind: Seq<char>, payload: Seq<u8>) -> Self::V;

    fn value_len(&self) -> (r: usize)
        ensures
            r == Self::spec_value(self@).len(),
    ;

    /// Appends the value bytes.
    fn emit_value(&self, out: &mut Vec<u8>)
        ensures
            final(out)@ == old(out)@ + Self::spec_value(self@),
    ;

    /// Decodes an options payload for the given kind; total over every kind.
    fn parse_with_param(payload: &[u8], kind: &str) -> (r: Self)
        ensures
            r@ == Self::spec_parse(kind@, payload@),
    ;

    /// A decoded value writes back to bytes that decode to it again, and no
    /// more bytes than it was read from.
    proof fn lemma_parse_value(kind: Seq<char>, payload: Seq<u8>)
        ensures
            Self::spec_parse(kind, Self::spec_value(Self::spec_parse(kind, payload))) == Self::spec_parse(kind, payload),
            Self::spec_value(Self::spec_parse(kind, payload)).len() <= payload.len(),
    ;
}

} // verus!
