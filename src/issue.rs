use vstd::prelude::*;

use crate::attrs::Attrs;

verus! {

/// The body of an issue.
pub trait Content {
    fn content(&self) -> String;
}

impl Content for String {
    fn content(&self) -> (r: String)
        ensures
            r@ == self@,
    {
        self.clone()
    }
}

/// An issue: its attributes and the key of its identifier attribute.
#[derive(Clone, Debug, Default)]
pub struct Issue<T: Content> {
    pub id_attr_key: String,
    pub attrs: Attrs,
    pub content: Option<T>,
}

impl<T: Content> Issue<T> {
    pub fn get_id(&self) -> (r: Option<&String>)
        requires
            self.attrs.wf(),
        ensures
            match r {
                Some(v) => self.attrs.value_map().contains_key(self.id_attr_key@) && v@
                    == self.attrs.value_map()[self.id_attr_key@],
                None => !self.attrs.value_map().contains_key(self.id_attr_key@),
            },
    {
        self.attrs.attr_value(self.id_attr_key.as_str())
    }
}

} // verus!
