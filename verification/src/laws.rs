use crate::date::utc_date;
use crate::decode::{decoded, decoded_each, decoded_entries};
use crate::dynamic::DynamicModel;
use crate::encode::{absence, encoded, encoded_each, encoded_fields};
use crate::error::{ErrorModel, FailureModel, PlaceModel};
use crate::path::lemma_value_under;
use crate::gather::{gathered, lemma_first_failure_wins, lemma_gathered_err, lemma_gathered_ok};
use crate::structured::StructuredModel;
use vstd::prelude::*;

verus! {

impl StructuredModel {
    /// Every integer in the tree fits a signed 64-bit integer.
    pub open spec fn integers_fit(self) -> bool
        decreases self,
    {
        match self {
            StructuredModel::Integer(n) => i64::MIN <= n <= i64::MAX,
            StructuredModel::Sequence(items) => forall|i: int|
                0 <= i < items.len() ==> (#[trigger] items[i]).integers_fit(),
            StructuredModel::Mapping(entries) => forall|i: int|
                0 <= i < entries.len() ==> (#[trigger] entries[i]).1.integers_fit(),
            _ => true,
        }
    }

    /// Every value in the tree is of a kind that the format defines: the tree
    /// holds none of the kind that stands for the others.
    pub open spec fn defined(self) -> bool
        decreases self,
    {
        match self {
            StructuredModel::Reserved => false,
            StructuredModel::Sequence(items) => forall|i: int|
                0 <= i < items.len() ==> (#[trigger] items[i]).defined(),
            StructuredModel::Mapping(entries) => forall|i: int|
                0 <= i < entries.len() ==> (#[trigger] entries[i]).1.defined(),
            _ => true,
        }
    }

    /// The tree can be told from what it becomes on the host's side: it holds
    /// no identifier and no kind without a counterpart, and its integers fit a
    /// signed 64-bit integer.
    pub open spec fn recoverable(self) -> bool
        decreases self,
    {
        match self {
            StructuredModel::UniqueId(_) => false,
            StructuredModel::Reserved => false,
            StructuredModel::Integer(n) => i64::MIN <= n <= i64::MAX,
            StructuredModel::Sequence(items) => forall|i: int|
                0 <= i < items.len() ==> (#[trigger] items[i]).recoverable(),
            StructuredModel::Mapping(entries) => forall|i: int|
                0 <= i < entries.len() ==> (#[trigger] entries[i]).1.recoverable(),
            _ => true,
        }
    }
}

impl DynamicModel {
    /// Every value in the tree has a counterpart in a structured document:
    /// the tree holds no mark of absence, no lazy record that the host could
    /// not make and no value of another kind.
    pub open spec fn convertible(self) -> bool
        decreases self,
    {
        match self {
            DynamicModel::Nothing => false,
            DynamicModel::Other(_) => false,
            DynamicModel::FailedLazyRecord(_) => false,
            DynamicModel::List(items) => forall|i: int|
                0 <= i < items.len() ==> (#[trigger] items[i]).convertible(),
            DynamicModel::Record(fields) => forall|i: int|
                0 <= i < fields.len() ==> (#[trigger] fields[i]).1.convertible(),
            DynamicModel::LazyRecord(fields) => forall|i: int|
                0 <= i < fields.len() ==> (#[trigger] fields[i]).1.convertible(),
            _ => true,
        }
    }

    /// The tree can be told from what it becomes in a structured document: it
    /// is made of strings, booleans, floats, integers, byte strings, dates in
    /// UTC outside a leap second, lists and records.
    pub open spec fn recoverable(self) -> bool
        decreases self,
    {
        match self {
            DynamicModel::String(_) => true,
            DynamicModel::Bool(_) => true,
            DynamicModel::Float(_) => true,
            DynamicModel::Int(_) => true,
            DynamicModel::Binary(_) => true,
            DynamicModel::Date(date) => date.offset == 0 && 0 <= date.nanos < 1_000_000_000,
            DynamicModel::List(items) => forall|i: int|
                0 <= i < items.len() ==> (#[trigger] items[i]).recoverable(),
            DynamicModel::Record(fields) => forall|i: int|
                0 <= i < fields.len() ==> (#[trigger] fields[i]).1.recoverable(),
            _ => false,
        }
    }
}

/// A text, a boolean, a real and a byte string come back from the host's
/// side as they went.
pub proof fn lemma_leaf_round_trip(value: StructuredModel)
    requires
        value is Text || value is Boolean || value is Real || value is Binary,
    ensures
        decoded(value) is Ok,
        encoded(decoded(value)->Ok_0) == Ok::<StructuredModel, ErrorModel>(value),
{
}

/// Every signed 64-bit integer comes back from a structured document as it
/// went.
pub proof fn lemma_int_round_trip(n: i64)
    ensures
        encoded(DynamicModel::Int(n)) is Ok,
        decoded(encoded(DynamicModel::Int(n))->Ok_0) == Ok::<DynamicModel, ErrorModel>(
            DynamicModel::Int(n),
        ),
{
}

/// An integer beyond the signed 64-bit range fails, as itself, and nothing
/// comes of it.
pub proof fn lemma_integer_out_of_range(n: int)
    requires
        n < i64::MIN || n > i64::MAX,
    ensures
        decoded(StructuredModel::Integer(n)) == Err::<DynamicModel, ErrorModel>(
            ErrorModel::at_root(FailureModel::IntegerRange(n)),
        ),
{
}

/// A sequence that becomes a list becomes one of the same length, each item
/// of which is what the item at the same place becomes.
pub proof fn lemma_sequence_keeps_order(items: Seq<StructuredModel>)
    requires
        decoded(StructuredModel::Sequence(items)) is Ok,
    ensures
        decoded(StructuredModel::Sequence(items))->Ok_0 matches DynamicModel::List(list) && {
            &&& list.len() == items.len()
            &&& forall|i: int|
                0 <= i < items.len() ==> decoded(#[trigger] items[i]) == Ok::<
                    DynamicModel,
                    ErrorModel,
                >(list[i])
        },
{
    let outcomes = decoded_each(items);
    lemma_gathered_ok(outcomes);
    let list = gathered(outcomes)->Ok_0;
    assert forall|i: int| 0 <= i < items.len() implies decoded(#[trigger] items[i]) == Ok::<
        DynamicModel,
        ErrorModel,
    >(list[i]) by {
        assert(outcomes[i] is Ok);
    }
}

/// A mapping that becomes a record becomes one of the same length, each
/// field of which has the key of the entry at the same place and what that
/// entry's value becomes.
pub proof fn lemma_mapping_keeps_order(entries: Seq<(Seq<char>, StructuredModel)>)
    requires
        decoded(StructuredModel::Mapping(entries)) is Ok,
    ensures
        decoded(StructuredModel::Mapping(entries))->Ok_0 matches DynamicModel::Record(fields) && {
            &&& fields.len() == entries.len()
            &&& forall|i: int|
                0 <= i < entries.len() ==> {
                    &&& fields[i].0 == (#[trigger] entries[i]).0
                    &&& decoded(entries[i].1) == Ok::<DynamicModel, ErrorModel>(fields[i].1)
                }
        },
{
    let outcomes = decoded_entries(entries);
    lemma_gathered_ok(outcomes);
    let fields = gathered(outcomes)->Ok_0;
    assert forall|i: int| 0 <= i < entries.len() implies {
        &&& fields[i].0 == (#[trigger] entries[i]).0
        &&& decoded(entries[i].1) == Ok::<DynamicModel, ErrorModel>(fields[i].1)
    } by {
        assert(outcomes[i] is Ok);
    }
}

/// A list that becomes a sequence becomes one of the same length, each item
/// of which is what the item at the same place becomes.
pub proof fn lemma_list_keeps_order(items: Seq<DynamicModel>)
    requires
        encoded(DynamicModel::List(items)) is Ok,
    ensures
        encoded(DynamicModel::List(items))->Ok_0 matches StructuredModel::Sequence(sequence) && {
            &&& sequence.len() == items.len()
            &&& forall|i: int|
                0 <= i < items.len() ==> encoded(#[trigger] items[i]) == Ok::<
                    StructuredModel,
                    ErrorModel,
                >(sequence[i])
        },
{
    let outcomes = encoded_each(items);
    lemma_gathered_ok(outcomes);
    let sequence = gathered(outcomes)->Ok_0;
    assert forall|i: int| 0 <= i < items.len() implies encoded(#[trigger] items[i]) == Ok::<
        StructuredModel,
        ErrorModel,
    >(sequence[i]) by {
        assert(outcomes[i] is Ok);
    }
}

/// A record that becomes a mapping becomes one of the same length, each
/// entry of which has the key of the field at the same place and what that
/// field's value becomes.
pub proof fn lemma_record_keeps_order(fields: Seq<(Seq<char>, DynamicModel)>)
    requires
        encoded(DynamicModel::Record(fields)) is Ok,
    ensures
        encoded(DynamicModel::Record(fields))->Ok_0 matches StructuredModel::Mapping(entries) && {
            &&& entries.len() == fields.len()
            &&& forall|i: int|
                0 <= i < fields.len() ==> {
                    &&& entries[i].0 == (#[trigger] fields[i]).0
                    &&& encoded(fields[i].1) == Ok::<StructuredModel, ErrorModel>(entries[i].1)
                }
        },
{
    let outcomes = encoded_fields(fields);
    lemma_gathered_ok(outcomes);
    let entries = gathered(outcomes)->Ok_0;
    assert forall|i: int| 0 <= i < fields.len() implies {
        &&& entries[i].0 == (#[trigger] fields[i]).0
        &&& encoded(fields[i].1) == Ok::<StructuredModel, ErrorModel>(entries[i].1)
    } by {
        assert(outcomes[i] is Ok);
    }
}

/// A mapping without entries becomes a record without fields, not the mark
/// of absence.
pub proof fn lemma_empty_mapping()
    ensures
        decoded(StructuredModel::Mapping(Seq::empty())) == Ok::<DynamicModel, ErrorModel>(
            DynamicModel::Record(Seq::empty()),
        ),
{
    assert(decoded_entries(Seq::empty()) =~= Seq::empty());
}

/// The mark of absence and every other kind of value without a counterpart
/// fail as a value that cannot be converted, with what they are.
pub proof fn lemma_no_counterpart(what: Seq<char>)
    ensures
        encoded(DynamicModel::Nothing) == Err::<StructuredModel, ErrorModel>(
            ErrorModel::at_root(FailureModel::UnconvertibleValue(absence())),
        ),
        encoded(DynamicModel::Other(what)) == Err::<StructuredModel, ErrorModel>(
            ErrorModel::at_root(FailureModel::UnconvertibleValue(what)),
        ),
{
}

/// A list with an item that fails fails as a whole, whatever its other items
/// are.
pub proof fn lemma_list_fails_with_item(items: Seq<DynamicModel>, k: int)
    requires
        0 <= k < items.len(),
        encoded(items[k]) is Err,
    ensures
        encoded(DynamicModel::List(items)) is Err,
{
    let outcomes = encoded_each(items);
    lemma_gathered_ok(outcomes);
    assert(outcomes[k] is Err);
}

/// A list fails as the first of its items that fails, and says which item
/// that is.
pub proof fn lemma_list_fails_as_first(items: Seq<DynamicModel>, k: int)
    requires
        0 <= k < items.len(),
        encoded(items[k]) is Err,
        forall|j: int| 0 <= j < k ==> encoded(#[trigger] items[j]) is Ok,
    ensures
        encoded(DynamicModel::List(items)) == Err::<StructuredModel, ErrorModel>(
            encoded(items[k])->Err_0.under(PlaceModel::Item(k)),
        ),
{
    let outcomes = encoded_each(items);
    let failed = encoded(items[k])->Err_0.under(PlaceModel::Item(k));
    assert(outcomes[k] == Err::<StructuredModel, ErrorModel>(failed));
    assert forall|j: int| 0 <= j < k implies (#[trigger] outcomes[j]) is Ok by {
        assert(encoded(items[j]) is Ok);
    }
    lemma_first_failure_wins(outcomes, k, failed);
}

/// The conversion to the host's side succeeds exactly on the trees whose
/// integers all fit a signed 64-bit integer, and where it fails it fails with
/// an integer that does not.
pub proof fn lemma_decode_fails_on_range_only(value: StructuredModel)
    ensures
        decoded(value) is Ok <==> value.integers_fit(),
        decoded(value) matches Err(e) ==> e.failure matches FailureModel::IntegerRange(n) && (n
            < i64::MIN || n > i64::MAX),
    decreases value,
{
    match value {
        StructuredModel::Sequence(items) => {
            let outcomes = decoded_each(items);
            lemma_gathered_ok(outcomes);
            lemma_gathered_err(outcomes);
            assert forall|i: int| 0 <= i < items.len() implies (outcomes[i] is Ok <==> (
            #[trigger] items[i]).integers_fit()) && (outcomes[i] matches Err(e)
                ==> e.failure matches FailureModel::IntegerRange(n) && (n < i64::MIN || n
                > i64::MAX)) by {
                lemma_decode_fails_on_range_only(items[i]);
            }
            if value.integers_fit() {
                assert forall|i: int| 0 <= i < outcomes.len() implies (#[trigger] outcomes[i]) is Ok by {
                    assert(items[i].integers_fit());
                }
            }
        },
        StructuredModel::Mapping(entries) => {
            let outcomes = decoded_entries(entries);
            lemma_gathered_ok(outcomes);
            lemma_gathered_err(outcomes);
            assert forall|i: int| 0 <= i < entries.len() implies (outcomes[i] is Ok <==> (
            #[trigger] entries[i]).1.integers_fit()) && (outcomes[i] matches Err(e)
                ==> e.failure matches FailureModel::IntegerRange(n) && (n < i64::MIN || n
                > i64::MAX)) by {
                lemma_decode_fails_on_range_only(entries[i].1);
            }
            if value.integers_fit() {
                assert forall|i: int| 0 <= i < outcomes.len() implies (#[trigger] outcomes[i]) is Ok by {
                    assert(entries[i].1.integers_fit());
                }
            }
        },
        _ => {},
    }
}

/// A structured value that holds only what the host's side can tell apart
/// comes back from there as it went: keys, order and every leaf.
pub proof fn lemma_decode_then_encode(value: StructuredModel)
    requires
        value.recoverable(),
    ensures
        decoded(value) is Ok,
        decoded(value)->Ok_0.recoverable(),
        encoded(decoded(value)->Ok_0) == Ok::<StructuredModel, ErrorModel>(value),
    decreases value,
{
    match value {
        StructuredModel::Timestamp(instant) => {
            assert(utc_date(instant).instant() == instant);
        },
        StructuredModel::Sequence(items) => {
            let outcomes = decoded_each(items);
            assert forall|i: int| 0 <= i < outcomes.len() implies (#[trigger] outcomes[i]) is Ok by {
                assert(items[i].recoverable());
                lemma_decode_then_encode(items[i]);
            }
            lemma_gathered_ok(outcomes);
            let list = gathered(outcomes)->Ok_0;
            let back = encoded_each(list);
            assert forall|i: int| 0 <= i < back.len() implies (#[trigger] back[i]) == Ok::<
                StructuredModel,
                ErrorModel,
            >(items[i]) && list[i].recoverable() by {
                assert(items[i].recoverable());
                lemma_decode_then_encode(items[i]);
                assert(outcomes[i] == Ok::<DynamicModel, ErrorModel>(list[i]));
            }
            lemma_gathered_ok(back);
            let again = gathered(back)->Ok_0;
            assert forall|i: int| 0 <= i < items.len() implies again[i] == items[i] by {
                assert(back[i] is Ok);
            }
            assert(again =~= items);
            assert forall|i: int| 0 <= i < list.len() implies (#[trigger] list[i]).recoverable() by {
                assert(back[i] is Ok);
            }
        },
        StructuredModel::Mapping(entries) => {
            let outcomes = decoded_entries(entries);
            assert forall|i: int| 0 <= i < outcomes.len() implies (#[trigger] outcomes[i]) is Ok by {
                assert(entries[i].1.recoverable());
                lemma_decode_then_encode(entries[i].1);
            }
            lemma_gathered_ok(outcomes);
            let fields = gathered(outcomes)->Ok_0;
            let back = encoded_fields(fields);
            assert forall|i: int| 0 <= i < back.len() implies (#[trigger] back[i]) == Ok::<
                (Seq<char>, StructuredModel),
                ErrorModel,
            >(entries[i]) && fields[i].1.recoverable() by {
                assert(entries[i].1.recoverable());
                lemma_decode_then_encode(entries[i].1);
                assert(outcomes[i] == Ok::<(Seq<char>, DynamicModel), ErrorModel>(fields[i]));
            }
            lemma_gathered_ok(back);
            let again = gathered(back)->Ok_0;
            assert forall|i: int| 0 <= i < entries.len() implies again[i] == entries[i] by {
                assert(back[i] is Ok);
            }
            assert(again =~= entries);
            assert forall|i: int| 0 <= i < fields.len() implies (#[trigger] fields[i]).1.recoverable() by {
                assert(back[i] is Ok);
            }
        },
        _ => {},
    }
}

/// A value of the host that holds only what a structured document can tell
/// apart comes back from there as it went: keys, order and every leaf.
pub proof fn lemma_encode_then_decode(value: DynamicModel)
    requires
        value.recoverable(),
    ensures
        encoded(value) is Ok,
        encoded(value)->Ok_0.recoverable(),
        decoded(encoded(value)->Ok_0) == Ok::<DynamicModel, ErrorModel>(value),
    decreases value,
{
    match value {
        DynamicModel::Date(date) => {
            assert(utc_date(date.instant()) == date);
        },
        DynamicModel::List(items) => {
            let outcomes = encoded_each(items);
            assert forall|i: int| 0 <= i < outcomes.len() implies (#[trigger] outcomes[i]) is Ok by {
                assert(items[i].recoverable());
                lemma_encode_then_decode(items[i]);
            }
            lemma_gathered_ok(outcomes);
            let sequence = gathered(outcomes)->Ok_0;
            let back = decoded_each(sequence);
            assert forall|i: int| 0 <= i < back.len() implies (#[trigger] back[i]) == Ok::<
                DynamicModel,
                ErrorModel,
            >(items[i]) && sequence[i].recoverable() by {
                assert(items[i].recoverable());
                lemma_encode_then_decode(items[i]);
                assert(outcomes[i] == Ok::<StructuredModel, ErrorModel>(sequence[i]));
            }
            lemma_gathered_ok(back);
            let again = gathered(back)->Ok_0;
            assert forall|i: int| 0 <= i < items.len() implies again[i] == items[i] by {
                assert(back[i] is Ok);
            }
            assert(again =~= items);
            assert forall|i: int| 0 <= i < sequence.len() implies (#[trigger] sequence[i]).recoverable() by {
                assert(back[i] is Ok);
            }
        },
        DynamicModel::Record(fields) => {
            let outcomes = encoded_fields(fields);
            assert forall|i: int| 0 <= i < outcomes.len() implies (#[trigger] outcomes[i]) is Ok by {
                assert(fields[i].1.recoverable());
                lemma_encode_then_decode(fields[i].1);
            }
            lemma_gathered_ok(outcomes);
            let entries = gathered(outcomes)->Ok_0;
            let back = decoded_entries(entries);
            assert forall|i: int| 0 <= i < back.len() implies (#[trigger] back[i]) == Ok::<
                (Seq<char>, DynamicModel),
                ErrorModel,
            >(fields[i]) && entries[i].1.recoverable() by {
                assert(fields[i].1.recoverable());
                lemma_encode_then_decode(fields[i].1);
                assert(outcomes[i] == Ok::<(Seq<char>, StructuredModel), ErrorModel>(entries[i]));
            }
            lemma_gathered_ok(back);
            let again = gathered(back)->Ok_0;
            assert forall|i: int| 0 <= i < fields.len() implies again[i] == fields[i] by {
                assert(back[i] is Ok);
            }
            assert(again =~= fields);
            assert forall|i: int| 0 <= i < entries.len() implies (#[trigger] entries[i]).1.recoverable() by {
                assert(back[i] is Ok);
            }
        },
        _ => {},
    }
}

/// The conversion to a structured document succeeds exactly on the trees in
/// which every value has a counterpart, and where it fails it fails over a
/// value without one or a lazy record that the host could not make.
pub proof fn lemma_encode_fails_without_counterpart_only(value: DynamicModel)
    ensures
        encoded(value) is Ok <==> value.convertible(),
        encoded(value) matches Err(e) ==> e.failure is UnconvertibleValue
            || e.failure is Materialization,
    decreases value,
{
    match value {
        DynamicModel::List(items) => {
            let outcomes = encoded_each(items);
            lemma_gathered_ok(outcomes);
            lemma_gathered_err(outcomes);
            assert forall|i: int| 0 <= i < items.len() implies (outcomes[i] is Ok <==> (
            #[trigger] items[i]).convertible()) && (outcomes[i] matches Err(e)
                ==> e.failure is UnconvertibleValue || e.failure is Materialization) by {
                lemma_encode_fails_without_counterpart_only(items[i]);
            }
            if value.convertible() {
                assert forall|i: int| 0 <= i < outcomes.len() implies (
                #[trigger] outcomes[i]) is Ok by {
                    assert(items[i].convertible());
                }
            }
        },
        DynamicModel::Record(fields) => {
            lemma_fields_fail_without_counterpart_only(fields);
        },
        DynamicModel::LazyRecord(fields) => {
            lemma_fields_fail_without_counterpart_only(fields);
        },
        _ => {},
    }
}

/// The fields of a record become entries exactly where the value of each has
/// a counterpart throughout.
proof fn lemma_fields_fail_without_counterpart_only(fields: Seq<(Seq<char>, DynamicModel)>)
    ensures
        gathered(encoded_fields(fields)) is Ok <==> forall|i: int|
            0 <= i < fields.len() ==> (#[trigger] fields[i]).1.convertible(),
        gathered(encoded_fields(fields)) matches Err(e) ==> e.failure is UnconvertibleValue
            || e.failure is Materialization,
    decreases fields,
{
    let outcomes = encoded_fields(fields);
    lemma_gathered_ok(outcomes);
    lemma_gathered_err(outcomes);
    assert forall|i: int| 0 <= i < fields.len() implies (outcomes[i] is Ok <==> (
    #[trigger] fields[i]).1.convertible()) && (outcomes[i] matches Err(e)
        ==> e.failure is UnconvertibleValue || e.failure is Materialization) by {
        lemma_encode_fails_without_counterpart_only(fields[i].1);
    }
    if forall|i: int| 0 <= i < fields.len() ==> (#[trigger] fields[i]).1.convertible() {
        assert forall|i: int| 0 <= i < outcomes.len() implies (#[trigger] outcomes[i]) is Ok by {
            assert(fields[i].1.convertible());
        }
    }
}

/// Where no key occurs twice in a mapping of a structured value, none does
/// in a record of what the value becomes.
pub proof fn lemma_decode_keeps_keys_unique(value: StructuredModel)
    requires
        value.keys_unique(),
        decoded(value) is Ok,
    ensures
        decoded(value)->Ok_0.keys_unique(),
    decreases value,
{
    match value {
        StructuredModel::Sequence(items) => {
            let outcomes = decoded_each(items);
            lemma_gathered_ok(outcomes);
            let list = gathered(outcomes)->Ok_0;
            assert forall|i: int| 0 <= i < list.len() implies (#[trigger] list[i]).keys_unique() by {
                assert(outcomes[i] is Ok);
                assert(items[i].keys_unique());
                lemma_decode_keeps_keys_unique(items[i]);
            }
        },
        StructuredModel::Mapping(entries) => {
            let outcomes = decoded_entries(entries);
            lemma_gathered_ok(outcomes);
            let fields = gathered(outcomes)->Ok_0;
            assert forall|i: int| 0 <= i < fields.len() implies (#[trigger] fields[i]).0
                == entries[i].0 && fields[i].1.keys_unique() by {
                assert(outcomes[i] is Ok);
                assert(entries[i].1.keys_unique());
                lemma_decode_keeps_keys_unique(entries[i].1);
            }
            assert forall|i: int, j: int| 0 <= i < j < fields.len() implies (
            #[trigger] fields[i]).0 != (#[trigger] fields[j]).0 by {
                assert(entries[i].0 != entries[j].0);
            }
        },
        _ => {},
    }
}

/// Where no key occurs twice in a record of a value of the host, none does
/// in a mapping of what the value becomes.
pub proof fn lemma_encode_keeps_keys_unique(value: DynamicModel)
    requires
        value.keys_unique(),
        encoded(value) is Ok,
    ensures
        encoded(value)->Ok_0.keys_unique(),
    decreases value,
{
    match value {
        DynamicModel::List(items) => {
            let outcomes = encoded_each(items);
            lemma_gathered_ok(outcomes);
            let sequence = gathered(outcomes)->Ok_0;
            assert forall|i: int| 0 <= i < sequence.len() implies (
            #[trigger] sequence[i]).keys_unique() by {
                assert(outcomes[i] is Ok);
                assert(items[i].keys_unique());
                lemma_encode_keeps_keys_unique(items[i]);
            }
        },
        DynamicModel::Record(fields) => {
            lemma_fields_keep_keys_unique(fields);
        },
        DynamicModel::LazyRecord(fields) => {
            lemma_fields_keep_keys_unique(fields);
        },
        _ => {},
    }
}

/// Fields without a key that occurs twice become entries without one.
proof fn lemma_fields_keep_keys_unique(fields: Seq<(Seq<char>, DynamicModel)>)
    requires
        forall|i: int, j: int|
            0 <= i < j < fields.len() ==> (#[trigger] fields[i]).0 != (#[trigger] fields[j]).0,
        forall|i: int| 0 <= i < fields.len() ==> (#[trigger] fields[i]).1.keys_unique(),
        gathered(encoded_fields(fields)) is Ok,
    ensures
        StructuredModel::Mapping(gathered(encoded_fields(fields))->Ok_0).keys_unique(),
    decreases fields,
{
    let outcomes = encoded_fields(fields);
    lemma_gathered_ok(outcomes);
    let entries = gathered(outcomes)->Ok_0;
    assert forall|i: int| 0 <= i < entries.len() implies (#[trigger] entries[i]).0 == fields[i].0
        && entries[i].1.keys_unique() by {
        assert(outcomes[i] is Ok);
        assert(fields[i].1.keys_unique());
        lemma_encode_keeps_keys_unique(fields[i].1);
    }
    assert forall|i: int, j: int| 0 <= i < j < entries.len() implies (#[trigger] entries[i]).0 != (
    #[trigger] entries[j]).0 by {
        assert(fields[i].0 != fields[j].0);
    }
}

/// The path of a failure leads to the integer that failed: where no key
/// occurs twice in a mapping, the value at the end of the path is the integer
/// that the failure holds.
pub proof fn lemma_decode_path_leads_to_failure(value: StructuredModel)
    requires
        value.keys_unique(),
        decoded(value) is Err,
    ensures
        ({
            let e = decoded(value)->Err_0;
            e.failure matches FailureModel::IntegerRange(n) && value.at(e.path) == Some(
                StructuredModel::Integer(n),
            )
        }),
    decreases value,
{
    let e = decoded(value)->Err_0;
    match value {
        StructuredModel::Sequence(items) => {
            let outcomes = decoded_each(items);
            lemma_gathered_err(outcomes);
            let k = choose|k: int| 0 <= k < outcomes.len() && #[trigger] outcomes[k] == Err::<
                DynamicModel,
                ErrorModel,
            >(e);
            let inner = decoded(items[k])->Err_0;
            assert(decoded(items[k]) is Err);
            assert(e == inner.under(PlaceModel::Item(k)));
            assert(e.path.drop_first() =~= inner.path);
            assert(items[k].keys_unique());
            lemma_decode_path_leads_to_failure(items[k]);
        },
        StructuredModel::Mapping(entries) => {
            let outcomes = decoded_entries(entries);
            lemma_gathered_err(outcomes);
            let k = choose|k: int| 0 <= k < outcomes.len() && #[trigger] outcomes[k] == Err::<
                (Seq<char>, DynamicModel),
                ErrorModel,
            >(e);
            let inner = decoded(entries[k].1)->Err_0;
            assert(decoded(entries[k].1) is Err);
            assert(e == inner.under(PlaceModel::Key(entries[k].0)));
            assert(e.path.drop_first() =~= inner.path);
            assert(entries[k].1.keys_unique());
            lemma_value_under(entries, k);
            lemma_decode_path_leads_to_failure(entries[k].1);
        },
        _ => {},
    }
}

/// The path of a failure leads to the value that failed: where no key
/// occurs twice in a record, the value at the end of the path is one that
/// fails by itself, in the same way.
pub proof fn lemma_encode_path_leads_to_failure(value: DynamicModel)
    requires
        value.keys_unique(),
        encoded(value) is Err,
    ensures
        ({
            let e = encoded(value)->Err_0;
            value.at(e.path) matches Some(failed) && encoded(failed) == Err::<
                StructuredModel,
                ErrorModel,
            >(ErrorModel::at_root(e.failure)) && (failed is Nothing || failed is Other
                || failed is FailedLazyRecord)
        }),
    decreases value,
{
    let e = encoded(value)->Err_0;
    match value {
        DynamicModel::List(items) => {
            let outcomes = encoded_each(items);
            lemma_gathered_err(outcomes);
            let k = choose|k: int| 0 <= k < outcomes.len() && #[trigger] outcomes[k] == Err::<
                StructuredModel,
                ErrorModel,
            >(e);
            let inner = encoded(items[k])->Err_0;
            assert(encoded(items[k]) is Err);
            assert(e == inner.under(PlaceModel::Item(k)));
            assert(e.path.drop_first() =~= inner.path);
            assert(items[k].keys_unique());
            lemma_encode_path_leads_to_failure(items[k]);
        },
        DynamicModel::Record(fields) => {
            lemma_fields_path_leads_to_failure(fields);
        },
        DynamicModel::LazyRecord(fields) => {
            lemma_fields_path_leads_to_failure(fields);
        },
        _ => {},
    }
}

/// The path of the failure of a record's fields starts at the key of the
/// field that failed and leads on to the value that failed.
proof fn lemma_fields_path_leads_to_failure(fields: Seq<(Seq<char>, DynamicModel)>)
    requires
        forall|i: int, j: int|
            0 <= i < j < fields.len() ==> (#[trigger] fields[i]).0 != (#[trigger] fields[j]).0,
        forall|i: int| 0 <= i < fields.len() ==> (#[trigger] fields[i]).1.keys_unique(),
        gathered(encoded_fields(fields)) is Err,
    ensures
        ({
            let e = gathered(encoded_fields(fields))->Err_0;
            &&& e.path.len() > 0
            &&& e.path[0] matches PlaceModel::Key(key) && crate::path::value_under(fields, key)
                matches Some(field) && field.at(e.path.drop_first()) matches Some(failed)
                && encoded(failed) == Err::<StructuredModel, ErrorModel>(
                ErrorModel::at_root(e.failure),
            ) && (failed is Nothing || failed is Other || failed is FailedLazyRecord)
        }),
    decreases fields,
{
    let e = gathered(encoded_fields(fields))->Err_0;
    let outcomes = encoded_fields(fields);
    lemma_gathered_err(outcomes);
    let k = choose|k: int| 0 <= k < outcomes.len() && #[trigger] outcomes[k] == Err::<
        (Seq<char>, StructuredModel),
        ErrorModel,
    >(e);
    let inner = encoded(fields[k].1)->Err_0;
    assert(encoded(fields[k].1) is Err);
    assert(e == inner.under(PlaceModel::Key(fields[k].0)));
    assert(e.path.drop_first() =~= inner.path);
    assert(fields[k].1.keys_unique());
    lemma_value_under(fields, k);
    lemma_encode_path_leads_to_failure(fields[k].1);
}

/// What a value of the host becomes holds only kinds of value that the
/// format defines, so that all of it can be written.
pub proof fn lemma_encoded_is_defined(value: DynamicModel)
    requires
        encoded(value) is Ok,
    ensures
        encoded(value)->Ok_0.defined(),
    decreases value,
{
    match value {
        DynamicModel::List(items) => {
            let outcomes = encoded_each(items);
            lemma_gathered_ok(outcomes);
            let sequence = gathered(outcomes)->Ok_0;
            assert forall|i: int| 0 <= i < sequence.len() implies (
            #[trigger] sequence[i]).defined() by {
                assert(outcomes[i] is Ok);
                lemma_encoded_is_defined(items[i]);
            }
        },
        DynamicModel::Record(fields) => {
            lemma_fields_are_defined(fields);
        },
        DynamicModel::LazyRecord(fields) => {
            lemma_fields_are_defined(fields);
        },
        _ => {},
    }
}

/// What the fields of a record become holds only kinds of value that the
/// format defines.
proof fn lemma_fields_are_defined(fields: Seq<(Seq<char>, DynamicModel)>)
    requires
        gathered(encoded_fields(fields)) is Ok,
    ensures
        StructuredModel::Mapping(gathered(encoded_fields(fields))->Ok_0).defined(),
    decreases fields,
{
    let outcomes = encoded_fields(fields);
    lemma_gathered_ok(outcomes);
    let entries = gathered(outcomes)->Ok_0;
    assert forall|i: int| 0 <= i < entries.len() implies (#[trigger] entries[i]).1.defined() by {
        assert(outcomes[i] is Ok);
        lemma_encoded_is_defined(fields[i].1);
    }
}

} // verus!
