use crate::binary64::{real_from_unsigned, real_of_unsigned};
use crate::date::{convert_date, utc_date};
use crate::dynamic::{
    dynamic_fields, dynamic_models, lemma_list_view, lemma_record_view, DynamicModel,
    DynamicValue,
};
use crate::error::{ConversionError, ErrorModel, Failure, FailureModel, Place, PlaceModel};
use crate::gather::{gathered, lemma_first_failure_wins, lemma_gathered_next, lemma_gathered_ok};
use crate::structured::{
    lemma_mapping_view, lemma_sequence_view, structured_entries, structured_models,
    StructuredModel, StructuredValue,
};
use vstd::prelude::*;

verus! {

/// What a structured value becomes on the host's side.
///
/// Each kind of leaf has its one counterpart. An integer becomes one only
/// where it fits a signed 64-bit integer, and is the one value that can
/// fail. An identifier becomes the float nearest to its number. A sequence
/// and a mapping become a list and a record of what their items become, in
/// the same order and under the same keys, or fail as the first of their
/// items that fails. A kind without a counterpart becomes the mark of
/// absence.
pub open spec fn decoded(value: StructuredModel) -> Result<DynamicModel, ErrorModel>
    decreases value,
{
    match value {
        StructuredModel::Text(text) => Ok(DynamicModel::String(text)),
        StructuredModel::Boolean(b) => Ok(DynamicModel::Bool(b)),
        StructuredModel::Real(bits) => Ok(DynamicModel::Float(bits)),
        StructuredModel::Timestamp(instant) => Ok(DynamicModel::Date(utc_date(instant))),
        StructuredModel::Integer(n) => if i64::MIN <= n <= i64::MAX {
            Ok(DynamicModel::Int(n as i64))
        } else {
            Err(ErrorModel::at_root(FailureModel::IntegerRange(n)))
        },
        StructuredModel::UniqueId(id) => Ok(DynamicModel::Float(real_of_unsigned(id))),
        StructuredModel::Binary(bytes) => Ok(DynamicModel::Binary(bytes)),
        StructuredModel::Sequence(items) => match gathered(decoded_each(items)) {
            Ok(list) => Ok(DynamicModel::List(list)),
            Err(e) => Err(e),
        },
        StructuredModel::Mapping(entries) => match gathered(decoded_entries(entries)) {
            Ok(fields) => Ok(DynamicModel::Record(fields)),
            Err(e) => Err(e),
        },
        StructuredModel::Reserved => Ok(DynamicModel::Nothing),
    }
}

/// What each item of a sequence becomes, item by item. An item that fails
/// does so with its place in the sequence before the path of its failure.
pub open spec fn decoded_each(items: Seq<StructuredModel>) -> Seq<
    Result<DynamicModel, ErrorModel>,
>
    decreases items,
{
    Seq::new(
        items.len(),
        |i: int|
            if 0 <= i < items.len() {
                match decoded(items[i]) {
                    Ok(made) => Ok(made),
                    Err(e) => Err(e.under(PlaceModel::Item(i))),
                }
            } else {
                Ok(DynamicModel::Nothing)
            },
    )
}

/// What each entry of a mapping becomes, entry by entry: the same key with
/// what its value becomes. A value that fails does so with its key before the
/// path of its failure.
pub open spec fn decoded_entries(entries: Seq<(Seq<char>, StructuredModel)>) -> Seq<
    Result<(Seq<char>, DynamicModel), ErrorModel>,
>
    decreases entries,
{
    Seq::new(
        entries.len(),
        |i: int|
            if 0 <= i < entries.len() {
                match decoded(entries[i].1) {
                    Ok(made) => Ok((entries[i].0, made)),
                    Err(e) => Err(e.under(PlaceModel::Key(entries[i].0))),
                }
            } else {
                Ok((Seq::empty(), DynamicModel::Nothing))
            },
    )
}

/// What a conversion to the host's side hands back, as what it stands for.
pub open spec fn dynamic_outcome(outcome: Result<DynamicValue, ConversionError>) -> Result<
    DynamicModel,
    ErrorModel,
> {
    match outcome {
        Ok(value) => Ok(value@),
        Err(e) => Err(e@),
    }
}

/// Converts a structured value to a value of the host.
///
/// The conversion fails only on an integer that does not fit a signed 64-bit
/// integer, wherever in the tree it stands, and then hands back that integer
/// and the path to it, and no part of the tree.
pub fn convert_plist_value(plist_val: &StructuredValue) -> (r: Result<
    DynamicValue,
    ConversionError,
>)
    ensures
        dynamic_outcome(r) == decoded(plist_val@),
    decreases plist_val@,
{
    match plist_val {
        StructuredValue::Text(s) => Ok(DynamicValue::String(s.clone())),
        StructuredValue::Boolean(b) => Ok(DynamicValue::Bool(*b)),
        StructuredValue::Real(r) => Ok(DynamicValue::Float(*r)),
        StructuredValue::Timestamp(d) => Ok(DynamicValue::Date(convert_date(d))),
        StructuredValue::Integer(i) => match i.as_signed() {
            Some(signed) => Ok(DynamicValue::Int(signed)),
            None => Err(ConversionError::at_root(Failure::IntegerRange(*i))),
        },
        StructuredValue::UniqueId(uid) => Ok(DynamicValue::Float(real_from_unsigned(*uid))),
        StructuredValue::Binary(data) => Ok(DynamicValue::Binary(data.clone())),
        StructuredValue::Sequence(arr) => {
            proof {
                lemma_sequence_view(*plist_val);
            }
            match convert_array(arr.as_slice()) {
                Ok(list) => {
                    let made = DynamicValue::List(list);
                    proof {
                        lemma_list_view(made);
                    }
                    Ok(made)
                },
                Err(e) => Err(e),
            }
        },
        StructuredValue::Mapping(dict) => {
            proof {
                lemma_mapping_view(*plist_val);
            }
            convert_dict(dict)
        },
        StructuredValue::Reserved => Ok(DynamicValue::Nothing),
    }
}

/// Converts the entries of a mapping to a record of the host: the same keys
/// in the same order, each with what its value becomes. The first value that
/// fails gives the failure of the whole.
pub fn convert_dict(dict: &Vec<(String, StructuredValue)>) -> (r: Result<
    DynamicValue,
    ConversionError,
>)
    ensures
        dynamic_outcome(r) == decoded(StructuredModel::Mapping(structured_entries(dict@))),
    decreases structured_entries(dict@),
{
    let ghost entries = structured_entries(dict@);
    let ghost outcomes = decoded_entries(entries);
    let mut fields: Vec<(String, DynamicValue)> = Vec::new();
    let mut i: usize = 0;
    proof {
        assert(dynamic_fields(fields@) =~= Seq::empty());
    }
    while i < dict.len()
        invariant
            i <= dict.len(),
            entries == structured_entries(dict@),
            outcomes == decoded_entries(entries),
            gathered(outcomes.take(i as int)) == Ok::<Seq<(Seq<char>, DynamicModel)>, ErrorModel>(
                dynamic_fields(fields@),
            ),
        decreases dict.len() - i,
    {
        proof {
            lemma_gathered_next(outcomes, i as int);
        }
        let ghost before = fields@;
        match convert_plist_value(&dict[i].1) {
            Ok(made) => {
                fields.push((dict[i].0.clone(), made));
                assert(dynamic_fields(fields@) =~= dynamic_fields(before).push(
                    (entries[i as int].0, made@),
                ));
            },
            Err(e) => {
                let failed = e.under(Place::Key(dict[i].0.clone()));
                proof {
                    lemma_gathered_ok(outcomes.take(i as int));
                    assert forall|j: int| 0 <= j < i implies (#[trigger] outcomes[j]) is Ok by {
                        assert(outcomes.take(i as int)[j] is Ok);
                    }
                    lemma_first_failure_wins(outcomes, i as int, failed@);
                }
                return Err(failed);
            },
        }
        i = i + 1;
    }
    proof {
        assert(outcomes.take(i as int) =~= outcomes);
    }
    let made = DynamicValue::Record(fields);
    proof {
        lemma_record_view(made);
    }
    Ok(made)
}

/// Converts the items of a sequence to values of the host, in order. The
/// first item that fails gives the failure of the whole.
pub fn convert_array(plist_array: &[StructuredValue]) -> (r: Result<
    Vec<DynamicValue>,
    ConversionError,
>)
    ensures
        match r {
            Ok(list) => gathered(decoded_each(structured_models(plist_array@))) == Ok::<
                Seq<DynamicModel>,
                ErrorModel,
            >(dynamic_models(list@)),
            Err(e) => gathered(decoded_each(structured_models(plist_array@))) == Err::<
                Seq<DynamicModel>,
                ErrorModel,
            >(e@),
        },
    decreases structured_models(plist_array@),
{
    let ghost items = structured_models(plist_array@);
    let ghost outcomes = decoded_each(items);
    let mut list: Vec<DynamicValue> = Vec::new();
    let mut i: usize = 0;
    proof {
        assert(dynamic_models(list@) =~= Seq::empty());
    }
    while i < plist_array.len()
        invariant
            i <= plist_array.len(),
            items == structured_models(plist_array@),
            outcomes == decoded_each(items),
            gathered(outcomes.take(i as int)) == Ok::<Seq<DynamicModel>, ErrorModel>(
                dynamic_models(list@),
            ),
        decreases plist_array.len() - i,
    {
        proof {
            lemma_gathered_next(outcomes, i as int);
        }
        let ghost before = list@;
        match convert_plist_value(&plist_array[i]) {
            Ok(made) => {
                list.push(made);
                assert(dynamic_models(list@) =~= dynamic_models(before).push(made@));
            },
            Err(e) => {
                let failed = e.under(Place::Item(i));
                proof {
                    lemma_gathered_ok(outcomes.take(i as int));
                    assert forall|j: int| 0 <= j < i implies (#[trigger] outcomes[j]) is Ok by {
                        assert(outcomes.take(i as int)[j] is Ok);
                    }
                    lemma_first_failure_wins(outcomes, i as int, failed@);
                }
                return Err(failed);
            },
        }
        i = i + 1;
    }
    proof {
        assert(outcomes.take(i as int) =~= outcomes);
    }
    Ok(list)
}

} // verus!
