//! An owned property of a device tree node.

use vstd::prelude::*;
use vstd::string::StringSliceAdditionalSpecFns;
use vstd::utf8::encode_utf8;

use crate::fdt::property::FdtProperty;
use crate::fdt::tree::PropertyView;
use crate::property::Property;

verus! {

/// A mutable, in-memory representation of a device tree property.
#[derive(Debug, PartialEq, Eq)]
pub struct DeviceTreeProperty {
    pub(crate) name: String,
    pub(crate) value: Vec<u8>,
}

impl View for DeviceTreeProperty {
    type V = PropertyView;

    /// The name, as its UTF-8 bytes, and the value of the property.
    closed spec fn view(&self) -> PropertyView {
        PropertyView { name: encode_utf8(self.name@), value: self.value@ }
    }
}

impl Clone for DeviceTreeProperty {
    /// Copies the property.
    fn clone(&self) -> (r: DeviceTreeProperty)
        ensures
            r@ == self@,
    {
        DeviceTreeProperty { name: self.name.clone(), value: self.value.clone() }
    }
}

impl DeviceTreeProperty {
    /// The view of a property is made of its name and its value.
    pub(crate) proof fn lemma_view(&self)
        ensures
            self@ == (PropertyView { name: encode_utf8(self.name@), value: self.value@ }),
    {
    }

    /// Creates a new `DeviceTreeProperty` with the given name and value.
    pub fn new(name: &str, value: Vec<u8>) -> (r: DeviceTreeProperty)
        ensures
            r@ == (PropertyView { name: name.spec_bytes(), value: value@ }),
    {
        DeviceTreeProperty { name: name.to_owned(), value }
    }

    /// Returns the name of this property.
    pub fn name(&self) -> (r: &str)
        ensures
            r.spec_bytes() == self@.name,
    {
        self.name.as_str()
    }

    /// Returns the value of this property.
    pub fn value(&self) -> (r: &[u8])
        ensures
            r@ == self@.value,
    {
        self.value.as_slice()
    }

    /// Sets the value of this property.
    pub fn set_value(&mut self, value: Vec<u8>)
        ensures
            final(self)@ == (PropertyView { name: old(self)@.name, value: value@ }),
    {
        self.value = value;
    }

    /// Copies a property of a flattened device tree.
    pub fn from_fdt(prop: &FdtProperty<'_>) -> (r: DeviceTreeProperty)
        ensures
            r@ == prop@,
    {
        let name = prop.name().to_owned();
        let value = vstd::slice::slice_to_vec(prop.value());
        DeviceTreeProperty { name, value }
    }
}

impl<'a> Property<'a> for &'a DeviceTreeProperty {
    open spec fn model(&self) -> PropertyView {
        (**self)@
    }

    fn name(&self) -> (r: &'a str) {
        self.name.as_str()
    }

    fn value(&self) -> (r: &'a [u8]) {
        self.value.as_slice()
    }
}

} // verus!
