//! Named configuration parameters with a default value.
use vstd::prelude::*;

verus! {

/// A configuration value: an explicitly set value falls back to a default.
#[derive(Default)]
pub struct Parameter<T> {
    value: Option<T>,
    def_value: T,
    name: &'static str,
    description: &'static str,
}

impl<T> Parameter<T> {
    pub closed spec fn set_value(&self) -> Option<T> {
        self.value
    }

    pub closed spec fn default_value(&self) -> T {
        self.def_value
    }

    pub closed spec fn label(&self) -> Seq<char> {
        self.name@
    }

    pub closed spec fn text(&self) -> Seq<char> {
        self.description@
    }

    /// The value in force: the one set, else the default.
    pub open spec fn current(&self) -> T {
        match self.set_value() {
            Some(v) => v,
            None => self.default_value(),
        }
    }

    /// Builds an unset parameter with default `v` and empty name and description.
    pub fn with_default(v: T) -> (r: Parameter<T>)
        ensures
            r.set_value() is None,
            r.default_value() == v,
            r.label() == Seq::<char>::empty(),
            r.text() == Seq::<char>::empty(),
    {
        proof {
            reveal_strlit("");
        }
        Parameter { value: None, def_value: v, name: "", description: "" }
    }

    pub fn set(&mut self, v: T) -> (r: &mut Self)
        ensures
            r.set_value() == Some(v),
            r.default_value() == old(self).default_value(),
            r.label() == old(self).label(),
            r.text() == old(self).text(),
            *final(self) == *final(r),
    {
        self.value = Some(v);
        self
    }

    pub fn name(&mut self, n: &'static str) -> (r: &mut Self)
        ensures
            r.set_value() == old(self).set_value(),
            r.default_value() == old(self).default_value(),
            r.label() == n@,
            r.text() == old(self).text(),
            *final(self) == *final(r),
    {
        self.name = n;
        self
    }

    pub fn get(&self) -> (r: &T)
        ensures
            *r == self.current(),
    {
        match &self.value {
            Some(v) => v,
            None => &self.def_value,
        }
    }

    pub fn default(&mut self, v: T) -> (r: &mut Self)
        ensures
            r.set_value() == old(self).set_value(),
            r.default_value() == v,
            r.label() == old(self).label(),
            r.text() == old(self).text(),
            *final(self) == *final(r),
    {
        self.def_value = v;
        self
    }

    pub fn description(&mut self, d: &'static str) -> (r: &mut Self)
        ensures
            r.set_value() == old(self).set_value(),
            r.default_value() == old(self).default_value(),
            r.label() == old(self).label(),
            r.text() == d@,
            *final(self) == *final(r),
    {
        self.description = d;
        self
    }

    /// The parameter's name.
    pub fn get_name(&self) -> (r: &'static str)
        ensures
            r@ == self.label(),
    {
        self.name
    }

    /// The parameter's description.
    pub fn get_description(&self) -> (r: &'static str)
        ensures
            r@ == self.text(),
    {
        self.description
    }
}

} // verus!
