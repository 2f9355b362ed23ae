use vstd::prelude::*;
use crate::attributes::Value;

verus! {

/// An item of a catalog reads its own state from named values: each kind of
/// value is handed to its own visit method, which an item implements for the
/// values it handles and leaves as it is for the others. Floating point
/// values are handed over as their bit patterns.
pub trait Item: Sized {
    /// The item itself.
    fn item_ref(&self) -> (r: &Self)
        ensures
            r == self,
    {
        self
    }

    /// The item itself, to change in place.
    fn item_mut(&mut self) -> (r: &mut Self)
        ensures
            *r == *old(self),
            *final(self) == *final(r),
    {
        self
    }

    /// Visits the item with a name and a bool.
    fn visit_bool(&mut self, name: &str, value: bool) {
    }

    /// Visits the item with a name and an int.
    fn visit_int(&mut self, name: &str, value: i32) {
    }

    /// Visits the item with a name and a pair of ints.
    fn visit_int_pair(&mut self, name: &str, value: [i32; 2]) {
    }

    /// Visits the item with a name and a range of ints.
    fn visit_int_range(&mut self, name: &str, value: [i32; 3]) {
    }

    /// Visits the item with a name and a float.
    fn visit_float(&mut self, name: &str, value: u32) {
    }

    /// Visits the item with a name and a pair of floats.
    fn visit_float_pair(&mut self, name: &str, value: [u32; 2]) {
    }

    /// Visits the item with a name and a range of floats.
    fn visit_float_range(&mut self, name: &str, value: [u32; 3]) {
    }

    /// Visits the item with a name and bytes.
    fn visit_binary_vec(&mut self, name: &str, value: &Vec<u8>) {
    }

    /// Visits the item with a name and a symbol.
    fn visit_symbol(&mut self, name: &str, value: &str) {
    }

    /// Visits the item with a name and text.
    fn visit_text(&mut self, name: &str, value: &str) {
    }

    /// Visits the item with a name and a reference.
    fn visit_reference(&mut self, name: &str, value: u64) {
    }

    /// Visits the item with a name and a set of strings.
    fn visit_complex(&mut self, name: &str, value: &Vec<String>) {
    }

    /// Visits the item with a name and a value, through the visit method of the
    /// value's kind: the item is what that method, given the name and the
    /// value's contents, leaves it. An empty value has no kind to visit.
    fn visit(&mut self, name: &str, value: &Value)
        requires
            !(value@ is Empty),
        ensures
            value matches Value::Bool(b) ==> exists|r: &mut Self| #[trigger] call_ensures(Self::visit_bool, (r, name, *b), ())
                && mut_ref_current(r) == *old(self) && mut_ref_future(r) == *final(self),
            value matches Value::TextBuffer(t) ==> exists|r: &mut Self, x: &str| #[trigger] call_ensures(Self::visit_text, (r, name, x), ())
                && x@ == t@ && mut_ref_current(r) == *old(self) && mut_ref_future(r) == *final(self),
            value matches Value::Int(i) ==> exists|r: &mut Self| #[trigger] call_ensures(Self::visit_int, (r, name, *i), ())
                && mut_ref_current(r) == *old(self) && mut_ref_future(r) == *final(self),
            value matches Value::IntPair(i0, i1) ==> exists|r: &mut Self, a: [i32; 2]| #[trigger] call_ensures(Self::visit_int_pair, (r, name, a), ())
                && a@ == seq![*i0, *i1] && mut_ref_current(r) == *old(self) && mut_ref_future(r) == *final(self),
            value matches Value::IntRange(i0, i1, i2) ==> exists|r: &mut Self, a: [i32; 3]| #[trigger] call_ensures(Self::visit_int_range, (r, name, a), ())
                && a@ == seq![*i0, *i1, *i2] && mut_ref_current(r) == *old(self) && mut_ref_future(r) == *final(self),
            value matches Value::Float(f) ==> exists|r: &mut Self| #[trigger] call_ensures(Self::visit_float, (r, name, *f), ())
                && mut_ref_current(r) == *old(self) && mut_ref_future(r) == *final(self),
            value matches Value::FloatPair(f0, f1) ==> exists|r: &mut Self, a: [u32; 2]| #[trigger] call_ensures(Self::visit_float_pair, (r, name, a), ())
                && a@ == seq![*f0, *f1] && mut_ref_current(r) == *old(self) && mut_ref_future(r) == *final(self),
            value matches Value::FloatRange(f0, f1, f2) ==> exists|r: &mut Self, a: [u32; 3]| #[trigger] call_ensures(Self::visit_float_range, (r, name, a), ())
                && a@ == seq![*f0, *f1, *f2] && mut_ref_current(r) == *old(self) && mut_ref_future(r) == *final(self),
            value matches Value::BinaryVector(v) ==> exists|r: &mut Self, x: &Vec<u8>| #[trigger] call_ensures(Self::visit_binary_vec, (r, name, x), ())
                && x@ == v@ && mut_ref_current(r) == *old(self) && mut_ref_future(r) == *final(self),
            value matches Value::Symbol(t) ==> exists|r: &mut Self, x: &str| #[trigger] call_ensures(Self::visit_symbol, (r, name, x), ())
                && x@ == t@ && mut_ref_current(r) == *old(self) && mut_ref_future(r) == *final(self),
            value matches Value::Reference(n) ==> exists|r: &mut Self| #[trigger] call_ensures(Self::visit_reference, (r, name, *n), ())
                && mut_ref_current(r) == *old(self) && mut_ref_future(r) == *final(self),
            value matches Value::Complex(c) ==> exists|r: &mut Self, x: &Vec<String>| #[trigger] call_ensures(Self::visit_complex, (r, name, x), ())
                && x@ == c@ && mut_ref_current(r) == *old(self) && mut_ref_future(r) == *final(self),
    {
        match value {
            Value::Bool(b) => self.visit_bool(name, *b),
            Value::TextBuffer(t) => self.visit_text(name, t.as_str()),
            Value::Int(i) => self.visit_int(name, *i),
            Value::IntPair(i0, i1) => self.visit_int_pair(name, [*i0, *i1]),
            Value::IntRange(i0, i1, i2) => self.visit_int_range(name, [*i0, *i1, *i2]),
            Value::Float(f) => self.visit_float(name, *f),
            Value::FloatPair(f0, f1) => self.visit_float_pair(name, [*f0, *f1]),
            Value::FloatRange(f0, f1, f2) => self.visit_float_range(name, [*f0, *f1, *f2]),
            Value::BinaryVector(v) => self.visit_binary_vec(name, v),
            Value::Symbol(s) => self.visit_symbol(name, s.as_str()),
            Value::Reference(r) => self.visit_reference(name, *r),
            Value::Complex(c) => self.visit_complex(name, c),
            Value::Empty => vstd::pervasive::unreached(),
        }
    }
}

} // verus!
