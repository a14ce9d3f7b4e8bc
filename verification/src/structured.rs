use crate::date::Timestamp;
use crate::integer::Integer;
use vstd::prelude::*;

verus! {

/// A value of a structured document: a tree whose leaves are texts, booleans,
/// reals, integers, instants, identifiers and byte strings, and whose inner
/// nodes are sequences and keyed mappings that keep the order of their
/// entries.
#[derive(Debug, PartialEq)]
pub enum StructuredValue {
    Text(String),
    Boolean(bool),
    /// A 64-bit float, kept as its IEEE 754 bit pattern.
    Real(u64),
    Integer(Integer),
    Timestamp(Timestamp),
    /// A reference marker of keyed archives: a 64-bit identifier.
    UniqueId(u64),
    Binary(Vec<u8>),
    Sequence(Vec<StructuredValue>),
    /// The entries of a dictionary in the order in which they were inserted.
    Mapping(Vec<(String, StructuredValue)>),
    /// A kind of value that the format may define and that has no counterpart
    /// on the host's side.
    Reserved,
}

/// What a `StructuredValue` stands for.
pub enum StructuredModel {
    Text(Seq<char>),
    Boolean(bool),
    Real(u64),
    Integer(int),
    /// Nanoseconds since the start of 1970 in UTC.
    Timestamp(int),
    UniqueId(u64),
    Binary(Seq<u8>),
    Sequence(Seq<StructuredModel>),
    Mapping(Seq<(Seq<char>, StructuredModel)>),
    Reserved,
}

impl View for StructuredValue {
    type V = StructuredModel;

    open spec fn view(&self) -> StructuredModel
        decreases self,
    {
        match self {
            StructuredValue::Text(s) => StructuredModel::Text(s@),
            StructuredValue::Boolean(b) => StructuredModel::Boolean(*b),
            StructuredValue::Real(bits) => StructuredModel::Real(*bits),
            StructuredValue::Integer(i) => StructuredModel::Integer(i@),
            StructuredValue::Timestamp(t) => StructuredModel::Timestamp(t@),
            StructuredValue::UniqueId(id) => StructuredModel::UniqueId(*id),
            StructuredValue::Binary(bytes) => StructuredModel::Binary(bytes@),
            StructuredValue::Sequence(items) => StructuredModel::Sequence(
                Seq::new(
                    items.len() as nat,
                    |i: int|
                        if 0 <= i < items.len() {
                            items[i].view()
                        } else {
                            StructuredModel::Reserved
                        },
                ),
            ),
            StructuredValue::Mapping(entries) => StructuredModel::Mapping(
                Seq::new(
                    entries.len() as nat,
                    |i: int|
                        if 0 <= i < entries.len() {
                            (entries[i].0@, entries[i].1.view())
                        } else {
                            (Seq::empty(), StructuredModel::Reserved)
                        },
                ),
            ),
            StructuredValue::Reserved => StructuredModel::Reserved,
        }
    }
}

/// What a run of structured values stands for, item by item.
pub open spec fn structured_models(items: Seq<StructuredValue>) -> Seq<StructuredModel> {
    Seq::new(items.len(), |i: int| items[i]@)
}

/// What the entries of a mapping stand for, entry by entry.
pub open spec fn structured_entries(entries: Seq<(String, StructuredValue)>) -> Seq<
    (Seq<char>, StructuredModel),
> {
    Seq::new(entries.len(), |i: int| (entries[i].0@, entries[i].1@))
}

/// The view of a sequence is the run of its items' views.
pub proof fn lemma_sequence_view(value: StructuredValue)
    requires
        value is Sequence,
    ensures
        value@ == StructuredModel::Sequence(structured_models(value->Sequence_0@)),
{
    reveal_with_fuel(<StructuredValue as View>::view, 2);
    assert(value@->Sequence_0 =~= structured_models(value->Sequence_0@));
}

/// The view of a mapping is the run of its entries' views.
pub proof fn lemma_mapping_view(value: StructuredValue)
    requires
        value is Mapping,
    ensures
        value@ == StructuredModel::Mapping(structured_entries(value->Mapping_0@)),
{
    reveal_with_fuel(<StructuredValue as View>::view, 2);
    assert(value@->Mapping_0 =~= structured_entries(value->Mapping_0@));
}

impl StructuredModel {
    /// No key occurs twice in one mapping, at any depth.
    pub open spec fn keys_unique(self) -> bool
        decreases self,
    {
        match self {
            StructuredModel::Sequence(items) => forall|i: int|
                0 <= i < items.len() ==> (#[trigger] items[i]).keys_unique(),
            StructuredModel::Mapping(entries) => {
                &&& forall|i: int, j: int|
                    0 <= i < j < entries.len() ==> (#[trigger] entries[i]).0 != (
                    #[trigger] entries[j]).0
                &&& forall|i: int|
                    0 <= i < entries.len() ==> (#[trigger] entries[i]).1.keys_unique()
            },
            _ => true,
        }
    }
}

} // verus!
