//! Options of queueing disciplines.
use vstd::prelude::*;
use vstd::slice::slice_to_vec;

use crate::bytes::push_slice;
use crate::error::DecodeError;
use crate::options::TcOptions;
use crate::text::same_text;

verus! {

/// The ingress queueing discipline, which takes no parameters.
///
/// It polices incoming traffic before it enters the IP stack, and does not
/// occupy the root of a device.
#[derive(Debug, Clone, Copy, PartialEq, Eq, Structural)]
pub struct Ingress();

impl Ingress {
    pub const KIND: &'static str = "ingress";
}

/// The kind text of the ingress queueing discipline.
pub open spec fn ingress_kind() -> Seq<char> {
    seq!['i', 'n', 'g', 'r', 'e', 's', 's']
}

/// Options of a queueing discipline.
#[derive(Debug, Clone, PartialEq, Eq)]
pub enum Qdisc {
    Ingress(Ingress),
    Other(Vec<u8>),
}

/// The meaning of a `Qdisc` value.
pub enum QdiscView {
    Ingress,
    Other(Seq<u8>),
}

impl View for Qdisc {
    type V = QdiscView;

    open spec fn view(&self) -> QdiscView {
        match self {
            Qdisc::Ingress(_) => QdiscView::Ingress,
            Qdisc::Other(v) => QdiscView::Other(v@),
        }
    }
}

fn is_ingress_kind(kind: &str) -> (r: bool)
    ensures
        r == (kind@ == ingress_kind()),
{
    proof {
        reveal_strlit("ingress");
    }
    assert("ingress"@ =~= ingress_kind());
    same_text(kind, Ingress::KIND)
}

impl Qdisc {
    /// The options of a discipline of the given kind, with no parameters;
    /// a kind that has no encoding here is refused.
    pub fn new(kind: &str) -> (r: Result<Qdisc, DecodeError>)
        ensures
            kind@ == ingress_kind() ==> (r matches Ok(q) && q@ == QdiscView::Ingress),
            kind@ != ingress_kind() ==> r == Err::<Qdisc, DecodeError>(
                DecodeError::UnsupportedKind,
            ),
    {
        if is_ingress_kind(kind) {
            Ok(Qdisc::Ingress(Ingress()))
        } else {
            Err(DecodeError::UnsupportedKind)
        }
    }
}

impl TcOptions for Qdisc {
    open spec fn spec_value(v: QdiscView) -> Seq<u8> {
        match v {
            QdiscView::Ingress => seq![],
            QdiscView::Other(b) => b,
        }
    }

    open spec fn spec_parse(kind: Seq<char>, payload: Seq<u8>) -> QdiscView {
        if kind == ingress_kind() {
            QdiscView::Ingress
        } else {
            QdiscView::Other(payload)
        }
    }

    fn value_len(&self) -> (r: usize) {
        match self {
            Qdisc::Ingress(_) => 0,
            Qdisc::Other(v) => v.len(),
        }
    }

    fn emit_value(&self, out: &mut Vec<u8>) {
        match self {
            Qdisc::Ingress(_) => {
                assert(out@ =~= out@ + Seq::<u8>::empty());
            },
            Qdisc::Other(v) => push_slice(out, v.as_slice()),
        }
    }

    fn parse_with_param(payload: &[u8], kind: &str) -> (r: Qdisc) {
        if is_ingress_kind(kind) {
            Qdisc::Ingress(Ingress())
        } else {
            Qdisc::Other(slice_to_vec(payload))
        }
    }

    proof fn lemma_parse_value(kind: Seq<char>, payload: Seq<u8>) {
    }
}

} // verus!
