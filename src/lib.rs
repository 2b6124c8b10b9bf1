//! Codec for traffic-control netlink messages: queueing disciplines, classes
//! and filters, their attribute streams and the kind-dependent options.
pub mod bytes;
pub mod class;
pub mod constants;
pub mod error;
pub mod filter;
pub mod laws;
pub mod message;
pub mod nla;
pub mod options;
pub mod qdisc;
pub mod stats;
pub mod text;

pub use class::{Class, ClassView};
pub use error::{DecodeError, Part};
pub use filter::{Filter, FilterView};
pub use nla::{DefaultNla, NlaBuffer, NlasIterator};
pub use options::TcOptions;
pub use qdisc::{Ingress, Qdisc, QdiscView};
pub use stats::{Stats, Stats2, Stats2View, StatsBuffer};
pub use message::{parse_nlas, Nla, NlaView, TcHeader, TcMessage, TcMessageBuffer, TcMessageView};
