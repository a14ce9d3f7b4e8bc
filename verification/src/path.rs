use crate::dynamic::DynamicModel;
use crate::error::PlaceModel;
use crate::structured::StructuredModel;
use vstd::prelude::*;

verus! {

/// The value under a key in a run of keyed entries: that of the first entry
/// with the key, if there is one.
pub open spec fn value_under<V>(entries: Seq<(Seq<char>, V)>, key: Seq<char>) -> Option<V>
    decreases entries.len(),
{
    if entries.len() == 0 {
        None
    } else if entries[0].0 == key {
        Some(entries[0].1)
    } else {
        value_under(entries.drop_first(), key)
    }
}

/// Where no key occurs twice, the value under the key of an entry is that
/// entry's value.
pub proof fn lemma_value_under<V>(entries: Seq<(Seq<char>, V)>, k: int)
    requires
        0 <= k < entries.len(),
        forall|i: int, j: int|
            0 <= i < j < entries.len() ==> (#[trigger] entries[i]).0 != (#[trigger] entries[j]).0,
    ensures
        value_under(entries, entries[k].0) == Some(entries[k].1),
    decreases entries.len(),
{
    if k > 0 {
        let rest = entries.drop_first();
        assert(entries[0].0 != entries[k].0);
        assert(rest[k - 1] == entries[k]);
        assert forall|i: int, j: int| 0 <= i < j < rest.len() implies (#[trigger] rest[i]).0 != (
        #[trigger] rest[j]).0 by {
            assert(rest[i] == entries[i + 1]);
            assert(rest[j] == entries[j + 1]);
        }
        lemma_value_under(rest, k - 1);
    }
}

impl StructuredModel {
    /// The value that a path leads to from this one: this value for the
    /// empty path, and else what the rest of the path leads to from the item
    /// that its first step names.
    pub open spec fn at(self, path: Seq<PlaceModel>) -> Option<StructuredModel>
        decreases path.len(),
    {
        if path.len() == 0 {
            Some(self)
        } else {
            match (self, path[0]) {
                (StructuredModel::Sequence(items), PlaceModel::Item(i)) => if 0 <= i
                    < items.len() {
                    items[i].at(path.drop_first())
                } else {
                    None
                },
                (StructuredModel::Mapping(entries), PlaceModel::Key(key)) => match value_under(
                    entries,
                    key,
                ) {
                    Some(value) => value.at(path.drop_first()),
                    None => None,
                },
                _ => None,
            }
        }
    }
}

impl DynamicModel {
    /// The value that a path leads to from this one: this value for the
    /// empty path, and else what the rest of the path leads to from the item
    /// that its first step names.
    pub open spec fn at(self, path: Seq<PlaceModel>) -> Option<DynamicModel>
        decreases path.len(),
    {
        if path.len() == 0 {
            Some(self)
        } else {
            match (self, path[0]) {
                (DynamicModel::List(items), PlaceModel::Item(i)) => if 0 <= i < items.len() {
                    items[i].at(path.drop_first())
                } else {
                    None
                },
                (DynamicModel::Record(fields), PlaceModel::Key(key)) => match value_under(
                    fields,
                    key,
                ) {
                    Some(value) => value.at(path.drop_first()),
                    None => None,
                },
                (DynamicModel::LazyRecord(fields), PlaceModel::Key(key)) => match value_under(
                    fields,
                    key,
                ) {
                    Some(value) => value.at(path.drop_first()),
                    None => None,
                },
                _ => None,
            }
        }
    }
}

} // verus!
