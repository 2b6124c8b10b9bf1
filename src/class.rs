//! Options of classes, kept as raw bytes whatever the kind.
use vstd::prelude::*;
use vstd::slice::slice_to_vec;

use crate::bytes::push_slice;
use crate::options::TcOptions;

verus! {

/// Options of a class.
#[derive(Debug, Clone, PartialEq, Eq)]
pub enum Class {
    Other(Vec<u8>),
}

/// The meaning of a `Class` value.
pub enum ClassView {
    Other(Seq<u8>),
}

impl View for Class {
    type V = ClassView;

    open spec fn view(&self) -> ClassView {
        match self {
            Class::Other(v) => ClassView::Other(v@),
        }
    }
}

impl TcOptions for Class {
    open spec fn spec_value(v: ClassView) -> Seq<u8> {
        match v {
            ClassView::Other(b) => b,
        }
    }

    open spec fn spec_parse(kind: Seq<char>, payload: Seq<u8>) -> ClassView {
        ClassView::Other(payload)
    }

    fn value_len(&self) -> (r: usize) {
        match self {
            Class::Other(v) => v.len(),
        }
    }

    fn emit_value(&self, out: &mut Vec<u8>) {
        match self {
            Class::Other(v) => push_slice(out, v.as_slice()),
        }
    }

    fn parse_with_param(payload: &[u8], _kind: &str) -> (r: Class) {
        Class::Other(slice_to_vec(payload))
    }

    proof fn lemma_parse_value(kind: Seq<char>, payload: Seq<u8>) {
    }
}

} // verus!
