//! `+` and `-` on amounts, for sums and differences that are known to fit.
//! Where that is not known, `checked_add` and `checked_sub` say so in their
//! result.

use crate::decimal::Value;
use std::ops::{Add, Sub};
use vstd::prelude::*;
use vstd::std_specs::ops::{AddSpecImpl, SubSpecImpl};

verus! {

impl Add for Value {
    type Output = Value;

    fn add(self, rhs: Value) -> (r: Value) {
        match self.checked_add(rhs) {
            Some(sum) => sum,
            None => vstd::pervasive::unreached(),
        }
    }
}

impl AddSpecImpl for Value {
    open spec fn obeys_add_spec() -> bool {
        true
    }

    open spec fn add_req(self, rhs: Value) -> bool {
        self.spec_add(rhs) is Some
    }

    open spec fn add_spec(self, rhs: Value) -> Value {
        self.spec_add(rhs).unwrap()
    }
}

impl Sub for Value {
    type Output = Value;

    fn sub(self, rhs: Value) -> (r: Value) {
        match self.checked_sub(rhs) {
            Some(difference) => difference,
            None => vstd::pervasive::unreached(),
        }
    }
}

impl SubSpecImpl for Value {
    open spec fn obeys_sub_spec() -> bool {
        true
    }

    open spec fn sub_req(self, rhs: Value) -> bool {
        self.spec_sub(rhs) is Some
    }

    open spec fn sub_spec(self, rhs: Value) -> Value {
        self.spec_sub(rhs).unwrap()
    }
}

} // verus!
