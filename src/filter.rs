//! Options of filters, kept as raw bytes whatever the kind.
use vstd::prelude::*;
use vstd::slice::slice_to_vec;

use crate::bytes::push_slice;
use crate::options::TcOptions;

verus! {

/// Options of a filter.
#[derive(Debug, Clone, PartialEq, Eq)]
pub enum Filter {
    Other(Vec<u8>),
}

/// The meaning of a `Filter` value.
pub enum FilterView {
    Other(Seq<u8>),
}

impl View for Filter {
    type V = FilterView;

    open spec fn view(&self) -> FilterView {
        match self {
            Filter::Other(v) => FilterView::Other(v@),
        }
    }
}

impl TcOptions for Filter {
    open spec fn spec_value(v: FilterView) -> Seq<u8> {
        match v {
            FilterView::Other(b) => b,
        }
    }

    open spec fn spec_parse(kind: Seq<char>, payload: Seq<u8>) -> FilterView {
        FilterView::Other(payload)
    }

    fn value_len(&self) -> (r: usize) {
        match self {
            Filter::Other(v) => v.len(),
        }
    }

    fn emit_value(&self, out: &mut Vec<u8>) {
        match self {
            Filter::Other(v) => push_slice(out, v.as_slice()),
        }
    }

    fn parse_with_param(payload: &[u8], _kind: &str) -> (r: Filter) {
        Filter::Other(slice_to_vec(payload))
    }

    proof fn lemma_parse_value(kind: Seq<char>, payload: Seq<u8>) {
    }
}

} // verus!
