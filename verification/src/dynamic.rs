use crate::date::{DateModel, OffsetTimestamp};
use vstd::prelude::*;

verus! {

/// A value of the scripting host.
#[derive(Debug, PartialEq)]
pub enum DynamicValue {
    String(String),
    Bool(bool),
    /// A 64-bit float, kept as its IEEE 754 bit pattern.
    Float(u64),
    Int(i64),
    Binary(Vec<u8>),
    Date(OffsetTimestamp),
    List(Vec<DynamicValue>),
    /// The fields of a record in the order in which they were inserted.
    Record(Vec<(String, DynamicValue)>),
    /// A record that the host computes on demand, as the fields that the
    /// host made of it when asked, in order.
    LazyRecord(Vec<(String, DynamicValue)>),
    /// A record that the host computes on demand and could not make when
    /// asked, as the host's report of the failure.
    FailedLazyRecord(String),
    /// A number of bytes.
    Filesize(i64),
    Nothing,
    /// Any other kind of value of the host (a range, a closure, an error
    /// and the like), as a description of the value.
    Other(String),
}

/// What a `DynamicValue` stands for.
pub enum DynamicModel {
    String(Seq<char>),
    Bool(bool),
    Float(u64),
    Int(i64),
    Binary(Seq<u8>),
    Date(DateModel),
    List(Seq<DynamicModel>),
    Record(Seq<(Seq<char>, DynamicModel)>),
    LazyRecord(Seq<(Seq<char>, DynamicModel)>),
    FailedLazyRecord(Seq<char>),
    Filesize(i64),
    Nothing,
    Other(Seq<char>),
}

impl View for DynamicValue {
    type V = DynamicModel;

    open spec fn view(&self) -> DynamicModel
        decreases self,
    {
        match self {
            DynamicValue::String(s) => DynamicModel::String(s@),
            DynamicValue::Bool(b) => DynamicModel::Bool(*b),
            DynamicValue::Float(bits) => DynamicModel::Float(*bits),
            DynamicValue::Int(n) => DynamicModel::Int(*n),
            DynamicValue::Binary(bytes) => DynamicModel::Binary(bytes@),
            DynamicValue::Date(d) => DynamicModel::Date(d@),
            DynamicValue::List(items) => DynamicModel::List(
                Seq::new(
                    items.len() as nat,
                    |i: int|
                        if 0 <= i < items.len() {
                            items[i].view()
                        } else {
                            DynamicModel::Nothing
                        },
                ),
            ),
            DynamicValue::Record(fields) => DynamicModel::Record(
                Seq::new(
                    fields.len() as nat,
                    |i: int|
                        if 0 <= i < fields.len() {
                            (fields[i].0@, fields[i].1.view())
                        } else {
                            (Seq::empty(), DynamicModel::Nothing)
                        },
                ),
            ),
            DynamicValue::LazyRecord(fields) => DynamicModel::LazyRecord(
                Seq::new(
                    fields.len() as nat,
                    |i: int|
                        if 0 <= i < fields.len() {
                            (fields[i].0@, fields[i].1.view())
                        } else {
                            (Seq::empty(), DynamicModel::Nothing)
                        },
                ),
            ),
            DynamicValue::FailedLazyRecord(report) => DynamicModel::FailedLazyRecord(report@),
            DynamicValue::Filesize(n) => DynamicModel::Filesize(*n),
            DynamicValue::Nothing => DynamicModel::Nothing,
            DynamicValue::Other(what) => DynamicModel::Other(what@),
        }
    }
}

/// What a run of values of the host stands for, item by item.
pub open spec fn dynamic_models(items: Seq<DynamicValue>) -> Seq<DynamicModel> {
    Seq::new(items.len(), |i: int| items[i]@)
}

/// What the fields of a record stand for, field by field.
pub open spec fn dynamic_fields(fields: Seq<(String, DynamicValue)>) -> Seq<
    (Seq<char>, DynamicModel),
> {
    Seq::new(fields.len(), |i: int| (fields[i].0@, fields[i].1@))
}

/// The view of a list is the run of its items' views.
pub proof fn lemma_list_view(value: DynamicValue)
    requires
        value is List,
    ensures
        value@ == DynamicModel::List(dynamic_models(value->List_0@)),
{
    reveal_with_fuel(<DynamicValue as View>::view, 2);
    assert(value@->List_0 =~= dynamic_models(value->List_0@));
}

/// The view of a record is the run of its fields' views.
pub proof fn lemma_record_view(value: DynamicValue)
    requires
        value is Record,
    ensures
        value@ == DynamicModel::Record(dynamic_fields(value->Record_0@)),
{
    reveal_with_fuel(<DynamicValue as View>::view, 2);
    assert(value@->Record_0 =~= dynamic_fields(value->Record_0@));
}

/// The view of a lazy record is the run of its fields' views.
pub proof fn lemma_lazy_record_view(value: DynamicValue)
    requires
        value is LazyRecord,
    ensures
        value@ == DynamicModel::LazyRecord(dynamic_fields(value->LazyRecord_0@)),
{
    reveal_with_fuel(<DynamicValue as View>::view, 2);
    assert(value@->LazyRecord_0 =~= dynamic_fields(value->LazyRecord_0@));
}

impl DynamicModel {
    /// No key occurs twice in one record, at any depth.
    pub open spec fn keys_unique(self) -> bool
        decreases self,
    {
        match self {
            DynamicModel::List(items) => forall|i: int|
                0 <= i < items.len() ==> (#[trigger] items[i]).keys_unique(),
            DynamicModel::Record(fields) => {
                &&& forall|i: int, j: int|
                    0 <= i < j < fields.len() ==> (#[trigger] fields[i]).0 != (
                    #[trigger] fields[j]).0
                &&& forall|i: int| 0 <= i < fields.len() ==> (#[trigger] fields[i]).1.keys_unique()
            },
            DynamicModel::LazyRecord(fields) => {
                &&& forall|i: int, j: int|
                    0 <= i < j < fields.len() ==> (#[trigger] fields[i]).0 != (
                    #[trigger] fields[j]).0
                &&& forall|i: int| 0 <= i < fields.len() ==> (#[trigger] fields[i]).1.keys_unique()
            },
            _ => true,
        }
    }
}

} // verus!
