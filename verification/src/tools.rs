//! Per-tool named numeric settings, read before each draw call.

use vstd::prelude::*;

verus! {

/// The setting names a tool can carry.
#[derive(Clone, Copy, PartialEq, Eq, Structural, Debug)]
pub enum PropKey {
    Size,
    Opacity,
    Filled,
    Sides,
    Shape,
    Antialias,
}

/// One named numeric setting.
#[derive(Clone, Copy, PartialEq, Eq, Structural, Debug)]
pub struct Property {
    pub key: PropKey,
    pub value: i32,
}

impl Property {
    pub fn new(key: PropKey, value: i32) -> (p: Property)
        ensures
            p == (Property { key, value }),
    {
        Property { key, value }
    }

    /// Rename the setting, keeping its value.
    pub fn name(&mut self, key: PropKey)
        ensures
            final(self).key == key,
            final(self).value == old(self).value,
    {
        self.key = key;
    }

    /// Change the setting's value, keeping its name.
    pub fn value(&mut self, value: i32)
        ensures
            final(self).key == old(self).key,
            final(self).value == value,
    {
        self.value = value;
    }
}

/// The value of the first setting named `key`, if any.
pub fn property_get(properties: &Vec<Property>, key: PropKey) -> (r: Option<i32>)
    ensures
        match r {
            Option::Some(v) => exists|i: int| 0 <= i < properties.view().len()
                && (#[trigger] properties.view()[i]).key == key
                && properties.view()[i].value == v
                && forall|j: int| 0 <= j < i ==> (#[trigger] properties.view()[j]).key != key,
            Option::None => forall|i: int| 0 <= i < properties.view().len()
                ==> (#[trigger] properties.view()[i]).key != key,
        },
{
    let n = properties.len();
    let mut i: usize = 0;
    while i < n
        invariant
            i <= n,
            n == properties.view().len(),
            forall|j: int| 0 <= j < i ==> (#[trigger] properties.view()[j]).key != key,
        decreases n - i,
    {
        let p = properties[i];
        if matches_key(p.key, key) {
            return Option::Some(p.value);
        }
        i = i + 1;
    }
    Option::None
}

/// Set every setting named `key` to `value`; others are untouched.
pub fn property_set(properties: &mut Vec<Property>, key: PropKey, value: i32)
    ensures
        final(properties).view().len() == old(properties).view().len(),
        forall|i: int| 0 <= i < old(properties).view().len()
            ==> #[trigger] final(properties).view()[i] == (
                if old(properties).view()[i].key == key {
                    Property { key, value }
                } else {
                    old(properties).view()[i]
                }),
{
    let n = properties.len();
    let mut i: usize = 0;
    while i < n
        invariant
            i <= n,
            n == properties.view().len(),
            properties.view().len() == old(properties).view().len(),
            forall|j: int| i <= j < n
                ==> #[trigger] properties.view()[j] == old(properties).view()[j],
            forall|j: int| 0 <= j < i
                ==> #[trigger] properties.view()[j] == (
                    if old(properties).view()[j].key == key {
                        Property { key, value }
                    } else {
                        old(properties).view()[j]
                    }),
        decreases n - i,
    {
        let p = properties[i];
        if matches_key(p.key, key) {
            properties.set(i, Property { key, value });
        }
        i = i + 1;
    }
}

/// Key equality, spelled out arm by arm.
fn matches_key(a: PropKey, b: PropKey) -> (r: bool)
    ensures
        r == (a == b),
{
    match (a, b) {
        (PropKey::Size, PropKey::Size) => true,
        (PropKey::Opacity, PropKey::Opacity) => true,
        (PropKey::Filled, PropKey::Filled) => true,
        (PropKey::Sides, PropKey::Sides) => true,
        (PropKey::Shape, PropKey::Shape) => true,
        (PropKey::Antialias, PropKey::Antialias) => true,
        _ => false,
    }
}

} // verus!
