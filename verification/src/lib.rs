//! Conversion between property-list documents and the values of a scripting host.
//!
//! A structured document is a tree of texts, booleans, reals, integers,
//! instants, identifiers, byte strings, sequences and keyed mappings
//! ([`StructuredValue`]). The host has its own tree of strings, booleans,
//! floats, integers, byte strings, dates, lists and records
//! ([`DynamicValue`]). [`convert_plist_value`] decodes the first into the
//! second and [`convert_nu_value`] encodes the second as the first. Both are
//! functions of their argument alone, and both hand back either the whole tree
//! or the first failure with the path to the value that failed
//! ([`ConversionError`]).
//!
//! What each of them makes of a value is stated once, on the models of the
//! two trees, by [`decode::decoded`] and [`encode::encoded`]; the module
//! [`laws`] proves what follows from the two statements. Floats are kept as
//! their bit patterns throughout, so that a value compares equal to itself
//! whatever it holds.
//!
//! - [`structured`], [`dynamic`], [`error`]: the two trees, the error, and what
//!   each stands for.
//! - [`integer`], [`date`], [`binary64`]: the integers of a document; instants
//!   and dates, and the change from one to the other; the float nearest to an
//!   identifier.
//! - [`gather`]: a run of conversions that stops at the first failure.
//! - [`decode`], [`encode`]: the two conversions.
//! - [`path`], [`laws`]: where a path leads, and what holds of the conversions.
//! - [`plugin`]: what the plugin makes of a call before any bytes are read or
//!   written.
pub mod binary64;
pub mod date;
pub mod decode;
pub mod dynamic;
pub mod encode;
pub mod error;
pub mod gather;
pub mod integer;
pub mod laws;
pub mod path;
pub mod plugin;
pub mod structured;

pub use crate::binary64::real_from_unsigned;
pub use crate::date::{convert_date, discard_offset, OffsetTimestamp, Timestamp};
pub use crate::decode::{convert_array, convert_dict, convert_plist_value};
pub use crate::dynamic::DynamicValue;
pub use crate::encode::{convert_nu_dict, convert_nu_value};
pub use crate::error::{ConversionError, Failure, Place};
pub use crate::integer::Integer;
pub use crate::plugin::{NuPlist, Step};
pub use crate::structured::StructuredValue;
