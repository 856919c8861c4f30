//! A read-only API for inspecting a device tree property.

use vstd::prelude::*;
use vstd::string::StringSliceAdditionalSpecFns;

use crate::fdt::tree::PropertyView;
use crate::property::Property;

verus! {

/// A property of a device tree node.
#[derive(Debug, PartialEq)]
pub struct FdtProperty<'a> {
    name: &'a str,
    value: &'a [u8],
}

impl<'a> View for FdtProperty<'a> {
    type V = PropertyView;

    /// The name and the value of the property.
    closed spec fn view(&self) -> PropertyView {
        PropertyView { name: self.name.spec_bytes(), value: self.value@ }
    }
}

impl<'a> FdtProperty<'a> {
    /// Makes the property with the given name and value.
    pub(crate) fn new(name: &'a str, value: &'a [u8]) -> (r: FdtProperty<'a>)
        ensures
            r@.name == name.spec_bytes(),
            r@.value == value@,
    {
        FdtProperty { name, value }
    }
}

impl<'a> Property<'a> for FdtProperty<'a> {
    open spec fn model(&self) -> PropertyView {
        self@
    }

    fn name(&self) -> (r: &'a str) {
        self.name
    }

    fn value(&self) -> (r: &'a [u8]) {
        self.value
    }
}

} // verus!
