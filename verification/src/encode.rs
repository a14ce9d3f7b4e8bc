use crate::date::discard_offset;
use crate::dynamic::{
    dynamic_fields, dynamic_models, lemma_lazy_record_view, lemma_list_view, lemma_record_view,
    DynamicModel, DynamicValue,
};
use crate::error::{ConversionError, ErrorModel, Failure, FailureModel, Place, PlaceModel};
use crate::gather::{gathered, lemma_first_failure_wins, lemma_gathered_next, lemma_gathered_ok};
use crate::integer::Integer;
use crate::structured::{
    lemma_mapping_view, lemma_sequence_view, structured_entries, structured_models,
    StructuredModel, StructuredValue,
};
use vstd::prelude::*;

verus! {

/// What the mark of absence is called where it is reported as a value that
/// cannot be converted.
pub open spec fn absence() -> Seq<char> {
    "Nothing"@
}

/// What a value of the host becomes in a structured document.
///
/// A string, a boolean, a float and a byte string become their one
/// counterpart; an integer and a number of bytes become the integer of the
/// same value; a date becomes its instant, without its offset. A list and a
/// record become a sequence and a mapping of what their items become, in the
/// same order and under the same keys, or fail as the first of their items
/// that fails. A lazy record that the host could make becomes what a record
/// of its fields becomes, and one that it could not make fails with the
/// host's report. Every other value fails as a value that cannot be
/// converted, with what it is.
pub open spec fn encoded(value: DynamicModel) -> Result<StructuredModel, ErrorModel>
    decreases value,
{
    match value {
        DynamicModel::String(text) => Ok(StructuredModel::Text(text)),
        DynamicModel::Bool(b) => Ok(StructuredModel::Boolean(b)),
        DynamicModel::Float(bits) => Ok(StructuredModel::Real(bits)),
        DynamicModel::Int(n) => Ok(StructuredModel::Integer(n as int)),
        DynamicModel::Binary(bytes) => Ok(StructuredModel::Binary(bytes)),
        DynamicModel::Record(fields) => match gathered(encoded_fields(fields)) {
            Ok(entries) => Ok(StructuredModel::Mapping(entries)),
            Err(e) => Err(e),
        },
        DynamicModel::List(items) => match gathered(encoded_each(items)) {
            Ok(sequence) => Ok(StructuredModel::Sequence(sequence)),
            Err(e) => Err(e),
        },
        DynamicModel::Date(date) => Ok(StructuredModel::Timestamp(date.instant())),
        DynamicModel::LazyRecord(fields) => match gathered(encoded_fields(fields)) {
            Ok(entries) => Ok(StructuredModel::Mapping(entries)),
            Err(e) => Err(e),
        },
        DynamicModel::FailedLazyRecord(report) => Err(
            ErrorModel::at_root(FailureModel::Materialization(report)),
        ),
        DynamicModel::Filesize(n) => Ok(StructuredModel::Integer(n as int)),
        DynamicModel::Nothing => Err(
            ErrorModel::at_root(FailureModel::UnconvertibleValue(absence())),
        ),
        DynamicModel::Other(what) => Err(
            ErrorModel::at_root(FailureModel::UnconvertibleValue(what)),
        ),
    }
}

/// What each item of a list becomes, item by item. An item that fails does
/// so with its place in the list before the path of its failure.
pub open spec fn encoded_each(items: Seq<DynamicModel>) -> Seq<
    Result<StructuredModel, ErrorModel>,
>
    decreases items,
{
    Seq::new(
        items.len(),
        |i: int|
            if 0 <= i < items.len() {
                match encoded(items[i]) {
                    Ok(made) => Ok(made),
                    Err(e) => Err(e.under(PlaceModel::Item(i))),
                }
            } else {
                Ok(StructuredModel::Reserved)
            },
    )
}

/// What each field of a record becomes, field by field: the same key with
/// what its value becomes. A value that fails does so with its key before the
/// path of its failure.
pub open spec fn encoded_fields(fields: Seq<(Seq<char>, DynamicModel)>) -> Seq<
    Result<(Seq<char>, StructuredModel), ErrorModel>,
>
    decreases fields,
{
    Seq::new(
        fields.len(),
        |i: int|
            if 0 <= i < fields.len() {
                match encoded(fields[i].1) {
                    Ok(made) => Ok((fields[i].0, made)),
                    Err(e) => Err(e.under(PlaceModel::Key(fields[i].0))),
                }
            } else {
                Ok((Seq::empty(), StructuredModel::Reserved))
            },
    )
}

/// What a conversion to a structured document hands back, as what it stands
/// for.
pub open spec fn structured_outcome(outcome: Result<StructuredValue, ConversionError>) -> Result<
    StructuredModel,
    ErrorModel,
> {
    match outcome {
        Ok(value) => Ok(value@),
        Err(e) => Err(e@),
    }
}

/// Converts a value of the host to a structured value.
///
/// The conversion fails on a value that has no counterpart and on a lazy
/// record that the host could not make, wherever in the tree either stands,
/// and then hands back the first such failure and the path to it, and no part
/// of the tree.
pub fn convert_nu_value(nu_val: &DynamicValue) -> (r: Result<StructuredValue, ConversionError>)
    ensures
        structured_outcome(r) == encoded(nu_val@),
    decreases nu_val@,
{
    match nu_val {
        DynamicValue::String(val) => Ok(StructuredValue::Text(val.clone())),
        DynamicValue::Bool(val) => Ok(StructuredValue::Boolean(*val)),
        DynamicValue::Float(val) => Ok(StructuredValue::Real(*val)),
        DynamicValue::Int(val) => {
            proof {
                Integer::lemma_of_view(*val as int);
            }
            Ok(StructuredValue::Integer(Integer::from(*val)))
        },
        DynamicValue::Binary(val) => Ok(StructuredValue::Binary(val.clone())),
        DynamicValue::Record(val) => {
            proof {
                lemma_record_view(*nu_val);
            }
            convert_nu_dict(val)
        },
        DynamicValue::List(vals) => {
            let ghost items = dynamic_models(vals@);
            let ghost outcomes = encoded_each(items);
            let mut sequence: Vec<StructuredValue> = Vec::new();
            let mut i: usize = 0;
            proof {
                lemma_list_view(*nu_val);
                assert(structured_models(sequence@) =~= Seq::empty());
            }
            while i < vals.len()
                invariant
                    i <= vals.len(),
                    nu_val@ == DynamicModel::List(items),
                    items == dynamic_models(vals@),
                    outcomes == encoded_each(items),
                    gathered(outcomes.take(i as int)) == Ok::<Seq<StructuredModel>, ErrorModel>(
                        structured_models(sequence@),
                    ),
                decreases vals.len() - i,
            {
                proof {
                    lemma_gathered_next(outcomes, i as int);
                }
                let ghost before = sequence@;
                match convert_nu_value(&vals[i]) {
                    Ok(made) => {
                        sequence.push(made);
                        assert(structured_models(sequence@) =~= structured_models(before).push(
                            made@,
                        ));
                    },
                    Err(e) => {
                        let failed = e.under(Place::Item(i));
                        proof {
                            lemma_gathered_ok(outcomes.take(i as int));
                            assert forall|j: int| 0 <= j < i implies (
                            #[trigger] outcomes[j]) is Ok by {
                                assert(outcomes.take(i as int)[j] is Ok);
                            }
                            lemma_first_failure_wins(outcomes, i as int, failed@);
                        }
                        return Err(failed);
                    },
                }
                i = i + 1;
            }
            proof {
                assert(outcomes.take(i as int) =~= outcomes);
            }
            let made = StructuredValue::Sequence(sequence);
            proof {
                lemma_sequence_view(made);
            }
            Ok(made)
        },
        DynamicValue::Date(val) => Ok(StructuredValue::Timestamp(discard_offset(val))),
        DynamicValue::LazyRecord(val) => {
            proof {
                lemma_lazy_record_view(*nu_val);
            }
            convert_nu_dict(val)
        },
        DynamicValue::FailedLazyRecord(report) => Err(
            ConversionError::at_root(Failure::Materialization(report.clone())),
        ),
        DynamicValue::Filesize(val) => {
            proof {
                Integer::lemma_of_view(*val as int);
            }
            Ok(StructuredValue::Integer(Integer::from(*val)))
        },
        DynamicValue::Nothing => Err(
            ConversionError::at_root(Failure::UnconvertibleValue("Nothing".to_owned())),
        ),
        DynamicValue::Other(what) => Err(
            ConversionError::at_root(Failure::UnconvertibleValue(what.clone())),
        ),
    }
}

/// Converts the fields of a record to a mapping of a structured document:
/// the same keys in the same order, each with what its value becomes. The
/// first value that fails gives the failure of the whole.
pub fn convert_nu_dict(record: &Vec<(String, DynamicValue)>) -> (r: Result<
    StructuredValue,
    ConversionError,
>)
    ensures
        structured_outcome(r) == encoded(DynamicModel::Record(dynamic_fields(record@))),
    decreases dynamic_fields(record@),
{
    let ghost fields = dynamic_fields(record@);
    let ghost outcomes = encoded_fields(fields);
    let mut entries: Vec<(String, StructuredValue)> = Vec::new();
    let mut i: usize = 0;
    proof {
        assert(structured_entries(entries@) =~= Seq::empty());
    }
    while i < record.len()
        invariant
            i <= record.len(),
            fields == dynamic_fields(record@),
            outcomes == encoded_fields(fields),
            gathered(outcomes.take(i as int)) == Ok::<
                Seq<(Seq<char>, StructuredModel)>,
                ErrorModel,
            >(structured_entries(entries@)),
        decreases record.len() - i,
    {
        proof {
            lemma_gathered_next(outcomes, i as int);
        }
        let ghost before = entries@;
        match convert_nu_value(&record[i].1) {
            Ok(made) => {
                entries.push((record[i].0.clone(), made));
                assert(structured_entries(entries@) =~= structured_entries(before).push(
                    (fields[i as int].0, made@),
                ));
            },
            Err(e) => {
                let failed = e.under(Place::Key(record[i].0.clone()));
                proof {
                    lemma_gathered_ok(outcomes.take(i as int));
                    assert forall|j: int| 0 <= j < i implies (#[trigger] outcomes[j]) is Ok by {
                        assert(outcomes.take(i as int)[j] is Ok);
                    }
                    lemma_first_failure_wins(outcomes, i as int, failed@);
                }
                return Err(failed);
            },
        }
        i = i + 1;
    }
    proof {
        assert(outcomes.take(i as int) =~= outcomes);
    }
    let made = StructuredValue::Mapping(entries);
    proof {
        lemma_mapping_view(made);
    }
    Ok(made)
}

} // verus!
