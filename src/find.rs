use vstd::prelude::*;

use crate::attr_parser::{plain_part, AttrParser};
use crate::attrs::Attrs;
use crate::create::{lemma_resolve_registered, set_in};
use crate::error::TodoError;
use crate::settings::Settings;
use crate::text::{lower_of, lowercase};

verus! {

/// The settings of the list command.
#[derive(Clone, Copy, Debug, PartialEq, Eq, Structural)]
pub enum FindAttr {
    IssuesDir,
    Capture,
    Filter,
    All,
}

impl FindAttr {
    pub open spec fn key_text(self) -> Seq<char> {
        match self {
            FindAttr::IssuesDir => "issues_dir"@,
            FindAttr::Capture => "capture"@,
            FindAttr::Filter => "filter"@,
            FindAttr::All => "all"@,
        }
    }

    pub fn by_key(key: &str) -> (r: Option<FindAttr>)
        ensures
            match r {
                Some(a) => key@ == a.key_text(),
                None => forall|a: FindAttr| key@ != #[trigger] a.key_text(),
            },
    {
        let k = key.to_owned();
        if k == FindAttr::IssuesDir.key().to_owned() {
            Some(FindAttr::IssuesDir)
        } else if k == FindAttr::Capture.key().to_owned() {
            Some(FindAttr::Capture)
        } else if k == FindAttr::Filter.key().to_owned() {
            Some(FindAttr::Filter)
        } else if k == FindAttr::All.key().to_owned() {
            Some(FindAttr::All)
        } else {
            assert forall|a: FindAttr| key@ != #[trigger] a.key_text() by {
                match a {
                    FindAttr::IssuesDir => {},
                    FindAttr::Capture => {},
                    FindAttr::Filter => {},
                    FindAttr::All => {},
                }
            }
            None
        }
    }

    pub fn key(&self) -> (r: &'static str)
        ensures
            r@ == self.key_text(),
    {
        match *self {
            FindAttr::IssuesDir => "issues_dir",
            FindAttr::Capture => "capture",
            FindAttr::Filter => "filter",
            FindAttr::All => "all",
        }
    }
}

/// The settings of the list command, and the issue attributes it looks for.
#[derive(Clone, Debug)]
pub struct Find {
    pub issue_attrs: Option<Attrs>,
    pub attrs: Attrs,
}

impl Find {
    /// A list command with its four settings registered, in the order
    /// issues directory, capture, filter, all; the filter takes nameless
    /// values.
    pub fn new() -> (r: Find)
        ensures
            r.attrs.wf(),
            r.issue_attrs is None,
            r.attrs.key_list() == seq![
                FindAttr::IssuesDir.key_text(),
                FindAttr::Capture.key_text(),
                FindAttr::Filter.key_text(),
                FindAttr::All.key_text(),
            ],
            r.attrs.default_name() == FindAttr::Filter.key_text(),
            r.attrs.value_map() == Map::<Seq<char>, Seq<char>>::empty(),
            r.attrs.alias_map() == Map::<Seq<char>, Seq<char>>::empty(),
    {
        proof {
            reveal_strlit("issues_dir");
            reveal_strlit("capture");
            reveal_strlit("filter");
            reveal_strlit("all");
        }
        let ghost n1 = FindAttr::IssuesDir.key_text();
        let ghost n2 = FindAttr::Capture.key_text();
        let ghost n3 = FindAttr::Filter.key_text();
        let ghost n4 = FindAttr::All.key_text();
        let mut attrs = Attrs::default();
        attrs.add_key(FindAttr::IssuesDir.key());
        assert(attrs.key_list() =~= seq![n1]);
        assert(n1.len() == 10 && n2.len() == 7 && n3.len() == 6 && n4.len() == 3);
        attrs.add_key(FindAttr::Capture.key());
        assert(!seq![n1].contains(n2)) by {
            assert(seq![n1][0] != n2);
        }
        assert(attrs.key_list() =~= seq![n1, n2]);
        let key = attrs.add_key(FindAttr::Filter.key());
        assert(!seq![n1, n2].contains(n3)) by {
            assert(seq![n1, n2][0] != n3 && seq![n1, n2][1] != n3);
        }
        assert(attrs.key_list() =~= seq![n1, n2, n3]);
        attrs.add_key(FindAttr::All.key());
        assert(!seq![n1, n2, n3].contains(n4)) by {
            assert(seq![n1, n2, n3][0] != n4 && seq![n1, n2, n3][1] != n4 && seq![n1, n2, n3][2] != n4);
        }
        attrs.set_default_key(key.as_str());
        proof {
            assert(attrs.key_list() =~= seq![
                FindAttr::IssuesDir.key_text(),
                FindAttr::Capture.key_text(),
                FindAttr::Filter.key_text(),
                FindAttr::All.key_text(),
            ]);
        }
        Find { issue_attrs: None, attrs }
    }

    /// The command takes a parameter of this (lower-case) name: it names a
    /// key or an alias of one, and the key is a setting of the command.
    pub open spec fn accepts(&self, lowered: Seq<char>) -> bool {
        &&& (self.attrs.key_list().contains(lowered) || self.attrs.alias_map().contains_key(lowered))
        &&& exists|a: FindAttr| a.key_text() == self.attrs.resolve(lowered)
    }

    /// Sets a parameter given its name in lower case; tells which setting
    /// it was.
    pub fn set_lowered_param(&mut self, lowered: &str, param: &str, value: &str) -> (r: Result<FindAttr, TodoError>)
        requires
            old(self).attrs.wf(),
        ensures
            final(self).attrs.wf(),
            final(self).issue_attrs == old(self).issue_attrs,
            old(self).accepts(lowered@) ==> r is Ok && r.unwrap().key_text() == old(self).attrs.resolve(
                lowered@,
            ) && set_in(old(self).attrs, final(self).attrs, old(self).attrs.resolve(lowered@), value@),
            !old(self).accepts(lowered@) ==> *final(self) == *old(self) && (r matches Err(
                TodoError::UnknownCommandParam { param: p },
            ) && p@ == param@),
    {
        match self.attrs.key_by_alias(lowered) {
            Some(k) => match FindAttr::by_key(k.as_str()) {
                Some(a) => {
                    proof {
                        lemma_resolve_registered(self.attrs, lowered@);
                    }
                    self.attrs.set_attr_value(a.key(), value);
                    Ok(a)
                },
                None => Err(TodoError::UnknownCommandParam { param: param.to_owned() }),
            },
            None => Err(TodoError::UnknownCommandParam { param: param.to_owned() }),
        }
    }

    /// Sets a parameter named in any case; tells which setting it was.
    pub fn set_param(&mut self, param: &str, value: &str) -> (r: Result<FindAttr, TodoError>)
        requires
            old(self).attrs.wf(),
        ensures
            final(self).attrs.wf(),
            final(self).issue_attrs == old(self).issue_attrs,
            old(self).accepts(lower_of(param@)) ==> r is Ok && r.unwrap().key_text() == old(
                self,
            ).attrs.resolve(lower_of(param@)) && set_in(
                old(self).attrs,
                final(self).attrs,
                old(self).attrs.resolve(lower_of(param@)),
                value@,
            ),
            !old(self).accepts(lower_of(param@)) ==> *final(self) == *old(self) && (r matches Err(
                TodoError::UnknownCommandParam { param: p },
            ) && p@ == param@),
    {
        let lowered = lowercase(param);
        self.set_lowered_param(lowered.as_str(), param, value)
    }

    /// Whether hidden files are listed too.
    pub fn all(&self) -> (r: bool)
        requires
            self.attrs.wf(),
        ensures
            r == (self.attrs.value_map().contains_key(FindAttr::All.key_text()) && !is_off_word(
                lower_of(self.attrs.value_map()[FindAttr::All.key_text()]),
            )),
    {
        match self.attrs.attr_value(FindAttr::All.key()) {
            Some(v) => all_enabled(Some(v.as_str())),
            None => all_enabled(None),
        }
    }
}

/// Sets the list command from the settings: the `all` flag when hidden
/// issues are to be listed, the issues directory, and the configured
/// aliases of its keys where it has them.
pub fn find_setup(f: Find, settings: &Settings) -> (r: Find)
    requires
        f.attrs.wf(),
    ensures
        r.attrs.wf(),
        r.issue_attrs == f.issue_attrs,
        !f.attrs.alias_map().contains_key(FindAttr::All.key_text()) && !f.attrs.alias_map().contains_key(
            FindAttr::IssuesDir.key_text(),
        ) ==> r.attrs.value_map() == (if settings.store.fs.find_all {
            f.attrs.value_map().insert(FindAttr::All.key_text(), "true"@)
        } else {
            f.attrs.value_map()
        }).insert(FindAttr::IssuesDir.key_text(), settings.store.fs.issues_dir@),
{
    let mut find = f;
    let ghost a0 = find.attrs;
    if settings.store.fs.find_all {
        find.attrs.set_attr_value(FindAttr::All.key(), "true");
    }
    let ghost a1 = find.attrs;
    find.attrs.set_attr_value(FindAttr::IssuesDir.key(), settings.store.fs.issues_dir.as_str());
    let ghost a2 = find.attrs;
    proof {
        let n1 = FindAttr::All.key_text();
        let n2 = FindAttr::IssuesDir.key_text();
        if !a0.alias_map().contains_key(n1) && !a0.alias_map().contains_key(n2) {
            assert(a0.resolve(n1) == n1);
            assert(a1.resolve(n2) == n2);
        }
    }
    let attrs = &settings.store.fs.attrs;
    let mut j: usize = 0;
    while j < attrs.len()
        invariant
            j <= attrs.len(),
            find.attrs.wf(),
            find.attrs.value_map() == a2.value_map(),
            find.issue_attrs == f.issue_attrs,
        decreases attrs.len() - j,
    {
        let _ = find.attrs.add_aliases(attrs[j].0.as_str(), attrs[j].1.as_slice());
        j += 1;
    }
    find
}

/// The lower-case words that switch a flag off.
pub open spec fn is_off_word(l: Seq<char>) -> bool {
    l == "false"@ || l == "f"@ || l == "not"@ || l == "no"@ || l == "n"@ || l == "0"@
}

/// Whether the `all` flag is on, given its value in lower case: on when set
/// to anything but an off word.
pub fn all_enabled_lowered(lowered: Option<&str>) -> (r: bool)
    ensures
        r == (lowered is Some && !is_off_word(lowered.unwrap()@)),
{
    match lowered {
        None => false,
        Some(l) => {
            let w = l.to_owned();
            !(w == "false".to_owned() || w == "f".to_owned() || w == "not".to_owned() || w
                == "no".to_owned() || w == "n".to_owned() || w == "0".to_owned())
        },
    }
}

/// Whether the `all` flag is on, given its value in any case.
pub fn all_enabled(value: Option<&str>) -> (r: bool)
    ensures
        r == (value is Some && !is_off_word(lower_of(value.unwrap()@))),
{
    match value {
        None => false,
        Some(v) => {
            let l = lowercase(v);
            all_enabled_lowered(Some(l.as_str()))
        },
    }
}

/// Every wanted attribute is among those found: some found attribute has
/// its key and, in its plain part, its value.
pub open spec fn all_found(wanted: Seq<(String, String)>, found: Seq<(String, String)>) -> bool {
    forall|i: int| 0 <= i < wanted.len() ==> has_attr(found, #[trigger] wanted[i])
}

/// Some found attribute has the key of `w` and, in its plain part, its value.
pub open spec fn has_attr(found: Seq<(String, String)>, w: (String, String)) -> bool {
    exists|j: int| 0 <= j < found.len() && #[trigger] found[j].0@ == w.0@ && plain_part(found[j].1@) == w.1@
}

/// Whether an issue file with the attributes `found` has every attribute
/// in `wanted`.
pub fn issue_matches(parser: &AttrParser, wanted: &Vec<(String, String)>, found: &Vec<(String, String)>) -> (r: bool)
    ensures
        r == all_found(wanted@, found@),
{
    let mut i: usize = 0;
    while i < wanted.len()
        invariant
            i <= wanted.len(),
            forall|x: int| 0 <= x < i ==> has_attr(found@, #[trigger] wanted@[x]),
        decreases wanted.len() - i,
    {
        let mut j: usize = 0;
        let mut hit = false;
        while j < found.len()
            invariant_except_break
                !hit,
            invariant
                i < wanted.len(),
                j <= found.len(),
                forall|y: int|
                    0 <= y < j ==> !(found@[y].0@ == wanted@[i as int].0@ && plain_part(found@[y].1@)
                        == wanted@[i as int].1@),
            ensures
                hit ==> j < found.len() && found@[j as int].0@ == wanted@[i as int].0@ && plain_part(
                    found@[j as int].1@,
                ) == wanted@[i as int].1@,
                !hit ==> forall|y: int|
                    0 <= y < found@.len() ==> !(found@[y].0@ == wanted@[i as int].0@ && plain_part(
                        found@[y].1@,
                    ) == wanted@[i as int].1@),
            decreases found.len() - j,
        {
            if found[j].0 == wanted[i].0 {
                let (plain, _) = parser.parse_value(found[j].1.as_str());
                if plain == wanted[i].1 {
                    hit = true;
                    break;
                }
            }
            j += 1;
        }
        if !hit {
            assert(!has_attr(found@, wanted@[i as int]));
            return false;
        }
        assert(found@[j as int].0@ == wanted@[i as int].0@);
        assert(has_attr(found@, wanted@[i as int]));
        i += 1;
    }
    true
}

} // verus!
