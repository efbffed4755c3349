//! Operations: named, categorized units of work whose duration is measured.

use vstd::prelude::*;

use crate::category::CategoryInfo;

verus! {

/// A value identifying "what is being timed". It must deterministically
/// yield a human-meaningful name and a category descriptor; the two
/// together form the operation key `"<category-name>::<operation-name>"`
/// under which measurements aggregate.
pub trait Operation {
    /// The category metadata for this operation.
    fn get_category(&self) -> CategoryInfo;

    /// The stable, human-meaningful name of this operation. Payload data
    /// carried by the value must not leak into this name, so that it does
    /// not fragment aggregation.
    fn to_str(&self) -> String;
}

/// A simple operation for basic profiling: a bare name without a category.
pub struct SimpleOperation {
    /// The operation name.
    pub name: String,
}

impl SimpleOperation {
    /// Wrap a name as an operation.
    pub fn new(name: &str) -> (r: SimpleOperation)
        ensures
            r.name@ == name@,
    {
        SimpleOperation { name: name.to_owned() }
    }
}

impl Operation for SimpleOperation {
    fn get_category(&self) -> (r: CategoryInfo)
        ensures
            r@.name == ""@,
    {
        CategoryInfo::new("", "Default category when none is specified", None, 999)
    }

    fn to_str(&self) -> (r: String)
        ensures
            r@ == self.name@,
    {
        self.name.clone()
    }
}

/// An operation carrying both a name and an explicit category descriptor.
pub struct CategorizedOperation {
    /// The operation name.
    pub name: String,
    /// The category this operation belongs to.
    pub category: CategoryInfo,
}

impl CategorizedOperation {
    /// Pair a name with a category descriptor.
    pub fn new(name: &str, category: CategoryInfo) -> (r: CategorizedOperation)
        ensures
            r.name@ == name@,
            r.category@ == category@,
    {
        CategorizedOperation { name: name.to_owned(), category }
    }
}

impl Operation for CategorizedOperation {
    fn get_category(&self) -> (r: CategoryInfo)
        ensures
            r@ == self.category@,
    {
        self.category.duplicate()
    }

    fn to_str(&self) -> (r: String)
        ensures
            r@ == self.name@,
    {
        self.name.clone()
    }
}

} // verus!
