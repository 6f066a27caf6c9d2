//! Nominal class contracts.
use vstd::prelude::*;

use crate::ids::{ClassId, InterfaceId};
use crate::order::{sort_unique_interfaces, strictly_ascending_interfaces};

verus! {

/// How a class method is dispatched.
#[derive(Clone, Copy, Debug, PartialEq, Eq, Structural)]
pub enum ClassMethodDispatch {
    Static,
    Receiver,
}

/// Whether other classes may extend a class.
#[derive(Clone, Copy, Debug, PartialEq, Eq, Structural)]
pub enum ClassExtensibility {
    Sealed,
    Open,
}

/// A class, its base, and the interfaces it implements (sorted, without duplicates).
#[derive(Debug, PartialEq, Eq)]
pub struct ClassContract {
    class: ClassId,
    base: Option<ClassId>,
    interfaces: Vec<InterfaceId>,
    extensibility: ClassExtensibility,
}

/// The abstract content of a class contract.
pub struct ClassContractView {
    pub class: ClassId,
    pub base: Option<ClassId>,
    pub interfaces: Seq<InterfaceId>,
    pub extensibility: ClassExtensibility,
}

impl ClassContract {
    pub closed spec fn view(&self) -> ClassContractView {
        ClassContractView {
            class: self.class,
            base: self.base,
            interfaces: self.interfaces@,
            extensibility: self.extensibility,
        }
    }

    /// A sealed contract whose interface list is sorted and deduplicated.
    pub fn new(class: ClassId, base: Option<ClassId>, interfaces: Vec<InterfaceId>) -> (r: Self)
        ensures
            r@.class == class,
            r@.base == base,
            strictly_ascending_interfaces(r@.interfaces),
            forall|t: InterfaceId| r@.interfaces.contains(t) <==> interfaces@.contains(t),
            r@.extensibility == ClassExtensibility::Sealed,
    {
        ClassContract {
            class,
            base,
            interfaces: sort_unique_interfaces(interfaces),
            extensibility: ClassExtensibility::Sealed,
        }
    }

    /// The same contract, open for extension.
    pub fn open(self) -> (r: Self)
        ensures
            r@ == (ClassContractView { extensibility: ClassExtensibility::Open, ..self@ }),
    {
        ClassContract { extensibility: ClassExtensibility::Open, ..self }
    }

    pub fn class(&self) -> (r: ClassId)
        ensures
            r == self@.class,
    {
        self.class
    }

    pub fn base(&self) -> (r: Option<ClassId>)
        ensures
            r == self@.base,
    {
        self.base
    }

    pub fn interfaces(&self) -> (r: &[InterfaceId])
        ensures
            r@ == self@.interfaces,
    {
        self.interfaces.as_slice()
    }

    pub fn extensibility(&self) -> (r: ClassExtensibility)
        ensures
            r == self@.extensibility,
    {
        self.extensibility
    }
}

impl Clone for ClassContract {
    fn clone(&self) -> (r: Self)
        ensures
            r@ == self@,
    {
        ClassContract {
            class: self.class,
            base: self.base,
            interfaces: crate::ids::copy_vec(&self.interfaces),
            extensibility: self.extensibility,
        }
    }
}

} // verus!
