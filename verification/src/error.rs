use crate::integer::Integer;
use vstd::prelude::*;

verus! {

/// What went wrong in a conversion.
#[derive(Clone, Debug, PartialEq, Eq)]
pub enum Failure {
    /// An integer of a structured document does not fit a signed 64-bit
    /// integer: the integer.
    IntegerRange(Integer),
    /// A value of the host has no counterpart in a structured document: what
    /// the value is.
    UnconvertibleValue(String),
    /// A lazy record could not be made into a record: the host's report.
    Materialization(String),
    /// What was handed in to be read as a document is neither a string nor a
    /// byte string.
    InvalidInput,
}

/// One step from a list or a record to one of its items.
#[derive(Clone, Debug, PartialEq, Eq)]
pub enum Place {
    /// The item at this place in a sequence or a list, counted from zero.
    Item(usize),
    /// The value under this key in a mapping or a record.
    Key(String),
}

/// Why a value could not be converted, and where in the tree the value
/// stands that could not: the steps that lead to it from the root, in
/// order. Each failure ends the whole conversion: no part of a tree is
/// handed out.
#[derive(Clone, Debug, PartialEq, Eq)]
pub struct ConversionError {
    pub failure: Failure,
    pub path: Vec<Place>,
}

/// What a `Failure` stands for.
pub enum FailureModel {
    IntegerRange(int),
    UnconvertibleValue(Seq<char>),
    Materialization(Seq<char>),
    InvalidInput,
}

/// What a `Place` stands for.
pub enum PlaceModel {
    Item(int),
    Key(Seq<char>),
}

/// What a `ConversionError` stands for.
pub struct ErrorModel {
    pub failure: FailureModel,
    pub path: Seq<PlaceModel>,
}

impl View for Failure {
    type V = FailureModel;

    open spec fn view(&self) -> FailureModel {
        match self {
            Failure::IntegerRange(i) => FailureModel::IntegerRange(i@),
            Failure::UnconvertibleValue(what) => FailureModel::UnconvertibleValue(what@),
            Failure::Materialization(report) => FailureModel::Materialization(report@),
            Failure::InvalidInput => FailureModel::InvalidInput,
        }
    }
}

impl View for Place {
    type V = PlaceModel;

    open spec fn view(&self) -> PlaceModel {
        match self {
            Place::Item(i) => PlaceModel::Item(*i as int),
            Place::Key(key) => PlaceModel::Key(key@),
        }
    }
}

/// What a path stands for, step by step.
pub open spec fn place_models(path: Seq<Place>) -> Seq<PlaceModel> {
    Seq::new(path.len(), |i: int| path[i]@)
}

impl View for ConversionError {
    type V = ErrorModel;

    open spec fn view(&self) -> ErrorModel {
        ErrorModel { failure: self.failure@, path: place_models(self.path@) }
    }
}

impl ErrorModel {
    /// The error of a value that failed by itself.
    pub open spec fn at_root(failure: FailureModel) -> ErrorModel {
        ErrorModel { failure, path: Seq::empty() }
    }

    /// The error of a list or a record, one of whose items failed with this
    /// error: the same failure, one step further from the root.
    pub open spec fn under(self, place: PlaceModel) -> ErrorModel {
        ErrorModel { failure: self.failure, path: seq![place] + self.path }
    }
}

impl ConversionError {
    /// The error of a value that failed by itself.
    pub fn at_root(failure: Failure) -> (r: ConversionError)
        ensures
            r@ == ErrorModel::at_root(failure@),
    {
        let r = ConversionError { failure, path: Vec::new() };
        assert(place_models(r.path@) =~= Seq::empty());
        r
    }

    /// The error of a list or a record, one of whose items failed with this
    /// error.
    pub fn under(self, place: Place) -> (r: ConversionError)
        ensures
            r@ == self@.under(place@),
    {
        let ghost before = self.path@;
        let mut path = self.path;
        path.insert(0, place);
        assert(place_models(path@) =~= seq![place@] + place_models(before));
        ConversionError { failure: self.failure, path }
    }
}

} // verus!
