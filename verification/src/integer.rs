use vstd::prelude::*;
use vstd::std_specs::convert::FromSpecImpl;

verus! {

/// An integer of a structured document: any whole number that a signed or an
/// unsigned 64-bit integer can hold.
#[derive(Clone, Copy, Debug, PartialEq, Eq, Hash)]
pub struct Integer {
    value: i128,
}

impl View for Integer {
    type V = int;

    /// The number itself.
    closed spec fn view(&self) -> int {
        self.value as int
    }
}

impl Integer {
    /// The numbers that an `Integer` can hold.
    pub open spec fn holds(n: int) -> bool {
        i64::MIN <= n <= u64::MAX
    }

    /// The `Integer` that holds `n`.
    pub closed spec fn of(n: int) -> Integer {
        Integer { value: n as i128 }
    }

    /// The number is one that fits either width.
    #[verifier::type_invariant]
    spec fn in_range(self) -> bool {
        Self::holds(self@)
    }

    /// The `Integer` that holds a number that fits has that number for its
    /// view.
    pub proof fn lemma_of_view(n: int)
        requires
            Self::holds(n),
        ensures
            Self::of(n)@ == n,
    {
    }

    /// Two integers with the same view are the same integer.
    pub proof fn lemma_view_injective(a: Integer, b: Integer)
        requires
            a@ == b@,
        ensures
            a == b,
    {
    }

    /// The integer that holds `value`, where one can.
    pub fn new(value: i128) -> (r: Option<Integer>)
        ensures
            r.is_some() <==> Self::holds(value as int),
            r matches Some(i) ==> i@ == value,
    {
        if value >= i64::MIN as i128 && value <= u64::MAX as i128 {
            Some(Integer { value })
        } else {
            None
        }
    }

    /// The number itself.
    pub fn value(self) -> (r: i128)
        ensures
            r == self@,
            Self::holds(self@),
    {
        proof {
            use_type_invariant(self);
        }
        self.value
    }

    /// The value as an `i64`, if it fits one.
    pub fn as_signed(self) -> (r: Option<i64>)
        ensures
            Self::holds(self@),
            r == (if i64::MIN <= self@ <= i64::MAX {
                Some(self@ as i64)
            } else {
                None
            }),
    {
        proof {
            use_type_invariant(self);
        }
        if self.value >= i64::MIN as i128 && self.value <= i64::MAX as i128 {
            Some(self.value as i64)
        } else {
            None
        }
    }

    /// The value as a `u64`, if it fits one.
    pub fn as_unsigned(self) -> (r: Option<u64>)
        ensures
            Self::holds(self@),
            r == (if 0 <= self@ <= u64::MAX {
                Some(self@ as u64)
            } else {
                None
            }),
    {
        proof {
            use_type_invariant(self);
        }
        if self.value >= 0 && self.value <= u64::MAX as i128 {
            Some(self.value as u64)
        } else {
            None
        }
    }
}

impl From<i64> for Integer {
    fn from(value: i64) -> (r: Integer) {
        Integer { value: value as i128 }
    }
}

impl FromSpecImpl<i64> for Integer {
    open spec fn obeys_from_spec() -> bool {
        true
    }

    open spec fn from_spec(v: i64) -> Integer {
        Integer::of(v as int)
    }
}

impl From<u64> for Integer {
    fn from(value: u64) -> (r: Integer) {
        Integer { value: value as i128 }
    }
}

impl FromSpecImpl<u64> for Integer {
    open spec fn obeys_from_spec() -> bool {
        true
    }

    open spec fn from_spec(v: u64) -> Integer {
        Integer::of(v as int)
    }
}

} // verus!
