use vstd::prelude::*;

use crate::create::set_in;
use crate::error::TodoError;
use crate::find::{Find, FindAttr};
use crate::issue::Issue;
use crate::text::{lower_of, lowercase};

verus! {

/// The command that lists issues.
#[derive(Clone, Debug)]
pub struct List {
    pub find: Option<Find>,
    pub issue: Issue<String>,
}

impl List {
    /// Both registries are well formed.
    pub open spec fn ready(&self) -> bool {
        &&& self.issue.attrs.wf()
        &&& (self.find matches Some(f) ==> f.attrs.wf())
    }

    /// The find settings take the parameter of this (lower-case) name.
    pub open spec fn find_takes(&self, lowered: Seq<char>) -> bool {
        self.find matches Some(f) && f.accepts(lowered)
    }

    /// Sets a parameter given its name in lower case: a parameter of the
    /// find settings goes there, any other to the issue attribute of that
    /// name; a nameless value goes to the find setting that takes nameless
    /// values. Tells which find setting was set, if one was.
    pub fn set_lowered_param(&mut self, lowered: &str, param: &str, value: &str) -> (r: Result<Option<FindAttr>, TodoError>)
        requires
            old(self).ready(),
        ensures
            final(self).ready(),
            param@.len() > 0 && old(self).find_takes(lowered@) ==> final(self).issue == old(self).issue
                && r is Ok && r.unwrap() is Some && r.unwrap().unwrap().key_text() == old(
                self,
            ).find.unwrap().attrs.resolve(lowered@) && final(self).find is Some && set_in(
                old(self).find.unwrap().attrs,
                final(self).find.unwrap().attrs,
                old(self).find.unwrap().attrs.resolve(lowered@),
                value@,
            ),
            param@.len() > 0 && !old(self).find_takes(lowered@) ==> final(self).find == old(self).find
                && r == Ok::<Option<FindAttr>, TodoError>(None) && final(self).issue.id_attr_key
                == old(self).issue.id_attr_key && set_in(
                old(self).issue.attrs,
                final(self).issue.attrs,
                old(self).issue.attrs.resolve(lowered@),
                value@,
            ),
            param@.len() == 0 && old(self).find is None ==> *final(self) == *old(self) && r == Ok::<
                Option<FindAttr>,
                TodoError,
            >(None),
            param@.len() == 0 && old(self).find is Some ==> final(self).issue == old(self).issue && ({
                let f = old(self).find.unwrap();
                let k = lower_of(f.attrs.default_name());
                if f.accepts(k) {
                    r is Ok && r.unwrap() is Some && r.unwrap().unwrap().key_text() == f.attrs.resolve(k)
                        && final(self).find is Some && set_in(
                        f.attrs,
                        final(self).find.unwrap().attrs,
                        f.attrs.resolve(k),
                        value@,
                    )
                } else {
                    final(self).find == old(self).find && (r matches Err(
                        TodoError::UnknownCommandParam { param: p },
                    ) && p@ == f.attrs.default_name())
                }
            }),
    {
        if param.is_empty() {
            if let Some(f) = &mut self.find {
                let key = f.attrs.get_default_key().clone();
                let a = f.set_param(key.as_str(), value)?;
                return Ok(Some(a));
            }
            return Ok(None);
        }
        if let Some(f) = &mut self.find {
            if let Ok(a) = f.set_lowered_param(lowered, param, value) {
                return Ok(Some(a));
            }
        }
        self.issue.attrs.set_attr_value(lowered, value);
        Ok(None)
    }

    /// Sets a parameter named in any case.
    pub fn set_param(&mut self, param: &str, value: &str) -> (r: Result<Option<FindAttr>, TodoError>)
        requires
            old(self).ready(),
        ensures
            final(self).ready(),
            param@.len() > 0 && old(self).find_takes(lower_of(param@)) ==> final(self).issue == old(
                self,
            ).issue && r is Ok && r.unwrap() is Some && final(self).find is Some && set_in(
                old(self).find.unwrap().attrs,
                final(self).find.unwrap().attrs,
                old(self).find.unwrap().attrs.resolve(lower_of(param@)),
                value@,
            ),
            param@.len() > 0 && !old(self).find_takes(lower_of(param@)) ==> final(self).find == old(
                self,
            ).find && r == Ok::<Option<FindAttr>, TodoError>(None) && set_in(
                old(self).issue.attrs,
                final(self).issue.attrs,
                old(self).issue.attrs.resolve(lower_of(param@)),
                value@,
            ),
    {
        let lowered = lowercase(param);
        self.set_lowered_param(lowered.as_str(), param, value)
    }

    /// The name of the find setting that takes nameless values.
    pub fn default_param_key(&self) -> (r: &String)
        requires
            self.find is Some,
        ensures
            r@ == self.find.unwrap().attrs.default_name(),
    {
        let f = self.find.as_ref().unwrap();
        f.attrs.get_default_key()
    }
}

} // verus!
