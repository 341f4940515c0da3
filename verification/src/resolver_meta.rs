//! What resolution records of a package it has resolved.

use vstd::prelude::*;
use vstd::std_specs::cmp::PartialEqSpecImpl;
use std::hash::{Hash, Hasher};

verus! {

/// A resolved package: its id and where its chosen file is downloaded from.
/// Two records are equal when they are of the same package.
#[derive(Debug)]
pub struct LocalDependency {
    pub id: i64,
    pub url: String,
}

/// What a [`LocalDependency`] holds, as plain values.
pub struct LocalDependencyView {
    pub id: i64,
    pub url: Seq<char>,
}

impl View for LocalDependency {
    type V = LocalDependencyView;

    open spec fn view(&self) -> LocalDependencyView {
        LocalDependencyView { id: self.id, url: self.url@ }
    }
}

impl Clone for LocalDependency {
    fn clone(&self) -> (r: Self)
        ensures
            r == *self,
    {
        LocalDependency { id: self.id, url: self.url.clone() }
    }
}

impl PartialEq for LocalDependency {
    fn eq(&self, other: &Self) -> (r: bool) {
        self.id == other.id
    }
}

impl PartialEqSpecImpl for LocalDependency {
    open spec fn obeys_eq_spec() -> bool {
        true
    }

    open spec fn eq_spec(&self, other: &Self) -> bool {
        self.id == other.id
    }
}

impl Eq for LocalDependency {

}

/// `Hash::hash` of `i64` feeds the number to the hasher; nothing is claimed
/// of the hasher's state afterwards.
pub assume_specification<H: Hasher>[ <i64 as Hash>::hash ](value: &i64, state: &mut H);

impl Hash for LocalDependency {
    fn hash<H: Hasher>(&self, state: &mut H) {
        self.id.hash(state);
    }
}

} // verus!
