use vstd::prelude::*;

use crate::create::{set_in, Create};
use crate::error::TodoError;
use crate::issue::Issue;
use crate::text::{lower_of, lowercase};

verus! {

/// The command that creates a new issue.
#[derive(Clone, Debug, Default)]
pub struct New {
    pub create: Option<Create>,
    pub issue: Issue<String>,
}

impl New {
    /// Both registries are well formed.
    pub open spec fn ready(&self) -> bool {
        &&& self.issue.attrs.wf()
        &&& (self.create matches Some(c) ==> c.attrs.wf())
    }

    /// The create command takes the parameter of this (lower-case) name.
    pub open spec fn create_takes(&self, lowered: Seq<char>) -> bool {
        self.create matches Some(c) && c.accepts(lowered)
    }

    /// Sets a parameter given its name in lower case: a nameless value goes
    /// to the issue's default attribute; a parameter of the create command
    /// goes there; any other goes to the issue's attribute of that name.
    pub fn set_lowered_param(&mut self, lowered: &str, param: &str, value: &str) -> (r: Result<(), TodoError>)
        requires
            old(self).ready(),
        ensures
            final(self).ready(),
            r is Ok,
            param@.len() == 0 ==> final(self).create == old(self).create
                && final(self).issue.id_attr_key == old(self).issue.id_attr_key
                && final(self).issue.attrs.value_map() == old(self).issue.attrs.value_map().insert(
                old(self).issue.attrs.default_name(),
                value@,
            ),
            param@.len() > 0 && old(self).create_takes(lowered@) ==> final(self).issue == old(self).issue
                && set_in(
                old(self).create.unwrap().attrs,
                final(self).create.unwrap().attrs,
                old(self).create.unwrap().attrs.resolve(lowered@),
                value@,
            ),
            param@.len() > 0 && !old(self).create_takes(lowered@) ==> final(self).create == old(self).create
                && final(self).issue.id_attr_key == old(self).issue.id_attr_key
                && set_in(
                old(self).issue.attrs,
                final(self).issue.attrs,
                old(self).issue.attrs.resolve(lowered@),
                value@,
            ),
    {
        if param.is_empty() {
            self.issue.attrs.set_default_attr(value);
            return Ok(());
        }
        let mut taken = false;
        if let Some(c) = &mut self.create {
            taken = c.set_lowered_param(lowered, param, value).is_ok();
        }
        if !taken {
            self.issue.attrs.set_attr_value(lowered, value);
        }
        Ok(())
    }

    /// Sets a parameter named in any case.
    pub fn set_param(&mut self, param: &str, value: &str) -> (r: Result<(), TodoError>)
        requires
            old(self).ready(),
        ensures
            final(self).ready(),
            r is Ok,
            param@.len() == 0 ==> final(self).create == old(self).create
                && final(self).issue.attrs.value_map() == old(self).issue.attrs.value_map().insert(
                old(self).issue.attrs.default_name(),
                value@,
            ),
            param@.len() > 0 && old(self).create_takes(lower_of(param@)) ==> final(self).issue
                == old(self).issue && set_in(
                old(self).create.unwrap().attrs,
                final(self).create.unwrap().attrs,
                old(self).create.unwrap().attrs.resolve(lower_of(param@)),
                value@,
            ),
            param@.len() > 0 && !old(self).create_takes(lower_of(param@)) ==> final(self).create
                == old(self).create && set_in(
                old(self).issue.attrs,
                final(self).issue.attrs,
                old(self).issue.attrs.resolve(lower_of(param@)),
                value@,
            ),
    {
        let lowered = lowercase(param);
        self.set_lowered_param(lowered.as_str(), param, value)
    }
}

} // verus!
