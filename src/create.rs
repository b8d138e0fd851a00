use vstd::prelude::*;

use crate::attr_parser::{encoded, AttrParser};
use crate::attrs::Attrs;
use crate::format::{
    find_from, find_seq, key_replaced, lemma_absent_key_unchanged, matches_at, placeholder,
    placeholder_span, replace_key,
};
use crate::generator::SequenceGenerator;
use crate::issue::{Content, Issue};
use crate::error::TodoError;
use crate::text::{chars_of, lower_of, lowercase, string_of};

verus! {

/// The settings of the create command.
#[derive(Clone, Copy, Debug, PartialEq, Eq, Structural)]
pub enum CreateAttr {
    IssuesDir,
    Format,
    Ext,
}

impl CreateAttr {
    pub open spec fn key_text(self) -> Seq<char> {
        match self {
            CreateAttr::IssuesDir => "issues_dir"@,
            CreateAttr::Format => "format"@,
            CreateAttr::Ext => "ext"@,
        }
    }

    pub fn by_key(key: &str) -> (r: Option<CreateAttr>)
        ensures
            match r {
                Some(a) => key@ == a.key_text(),
                None => forall|a: CreateAttr| key@ != #[trigger] a.key_text(),
            },
    {
        let k = key.to_owned();
        if k == CreateAttr::IssuesDir.key().to_owned() {
            Some(CreateAttr::IssuesDir)
        } else if k == CreateAttr::Format.key().to_owned() {
            Some(CreateAttr::Format)
        } else if k == CreateAttr::Ext.key().to_owned() {
            Some(CreateAttr::Ext)
        } else {
            assert forall|a: CreateAttr| key@ != #[trigger] a.key_text() by {
                match a {
                    CreateAttr::IssuesDir => {},
                    CreateAttr::Format => {},
                    CreateAttr::Ext => {},
                }
            }
            None
        }
    }

    pub fn key(&self) -> (r: &'static str)
        ensures
            r@ == self.key_text(),
    {
        match *self {
            CreateAttr::IssuesDir => "issues_dir",
            CreateAttr::Format => "format",
            CreateAttr::Ext => "ext",
        }
    }
}

/// The value of `k` in `m`, the empty text where it has none.
pub open spec fn value_or_empty(m: Map<Seq<char>, Seq<char>>, k: Seq<char>) -> Seq<char> {
    if m.contains_key(k) {
        m[k]
    } else {
        Seq::empty()
    }
}

/// Fills in the placeholders of `keys` (all but `id_key`) in the template
/// `s`, in order; an attribute without a placeholder is appended to
/// `content` as an attribute line instead.
pub open spec fn fill_keys(
    s: Seq<char>,
    content: Seq<char>,
    keys: Seq<Seq<char>>,
    values: Map<Seq<char>, Seq<char>>,
    id_key: Seq<char>,
) -> (Seq<char>, Seq<char>)
    decreases keys.len(),
{
    if keys.len() == 0 {
        (s, content)
    } else {
        let (s1, c1) = fill_keys(s, content, keys.drop_last(), values, id_key);
        let k = keys.last();
        if k == id_key {
            (s1, c1)
        } else {
            let v = value_or_empty(values, k);
            let (s2, replaced) = key_replaced(s1, k, v);
            if replaced {
                (s2, c1)
            } else {
                (s2, c1 + encoded(k, v) + seq!['\n'])
            }
        }
    }
}

/// Keys that occur nowhere in a template leave its text as it is: filling
/// them in only adds attribute lines to the content.
pub proof fn lemma_fill_absent_keys(
    s: Seq<char>,
    content: Seq<char>,
    keys: Seq<Seq<char>>,
    values: Map<Seq<char>, Seq<char>>,
    id_key: Seq<char>,
)
    requires
        forall|j: int, i: int| 0 <= j < keys.len() ==> !#[trigger] matches_at(s, i, keys[j]),
    ensures
        fill_keys(s, content, keys, values, id_key).0 == s,
    decreases keys.len(),
{
    if keys.len() > 0 {
        let d = keys.drop_last();
        assert forall|j: int, i: int| 0 <= j < d.len() implies !#[trigger] matches_at(s, i, d[j]) by {
            assert(d[j] == keys[j]);
        }
        lemma_fill_absent_keys(s, content, d, values, id_key);
        let k = keys.last();
        assert forall|i: int| !#[trigger] matches_at(s, i, k) by {
            assert(!matches_at(s, i, keys[keys.len() - 1]));
        }
        lemma_absent_key_unchanged(s, k, value_or_empty(values, k));
    }
}

/// `after` is `before` with `value` written to the registered key `k`.
pub open spec fn set_in(before: Attrs, after: Attrs, k: Seq<char>, value: Seq<char>) -> bool {
    &&& after.value_map() == before.value_map().insert(k, value)
    &&& after.key_list() == crate::attrs::touched(before.key_list(), before.pinned(), k)
    &&& after.alias_map() == before.alias_map()
    &&& after.pinned() == before.pinned()
    &&& after.default_name() == before.default_name()
}

/// A name that is a key or an alias resolves to a registered key, which
/// resolves to itself.
pub proof fn lemma_resolve_registered(a: Attrs, name: Seq<char>)
    requires
        a.wf(),
        a.key_list().contains(name) || a.alias_map().contains_key(name),
    ensures
        a.key_list().contains(a.resolve(name)),
        a.resolve(a.resolve(name)) == a.resolve(name),
{
    if !a.key_list().contains(name) {
        a.lemma_alias_targets(name);
    }
}

/// Creates an issue file from a path template.
#[derive(Clone, Debug, Default)]
pub struct Create {
    pub content: String,
    pub attrs: Attrs,
    pub path: Option<String>,
    pub id_generator: Option<SequenceGenerator>,
}

impl Create {
    /// The path template.
    pub open spec fn template(&self) -> Seq<char> {
        value_or_empty(self.attrs.value_map(), CreateAttr::Format.key_text())
    }

    /// A fresh identifier is wanted: there is a generator, the first
    /// occurrence of the identifier key in the template is a placeholder,
    /// and the issue has no identifier of its own.
    pub open spec fn wants_id<T: Content>(&self, issue: &Issue<T>) -> bool {
        let t = self.template();
        let k = issue.id_attr_key@;
        &&& self.id_generator is Some
        &&& find_from(t, 0, k) is Some
        &&& placeholder(t, find_from(t, 0, k).unwrap(), k.len() as int) is Some
        &&& !issue.attrs.value_map().contains_key(k)
    }

    pub fn needs_id<T: Content>(&self, issue: &Issue<T>) -> (r: bool)
        requires
            self.attrs.wf(),
            issue.attrs.wf(),
        ensures
            r == self.wants_id(issue),
    {
        if self.id_generator.is_none() || issue.get_id().is_some() {
            return false;
        }
        let t = chars_of(self.attrs.attr_value_as_str(CreateAttr::Format.key()));
        let k = chars_of(issue.id_attr_key.as_str());
        match find_seq(&t, 0, &k) {
            Some(pos) => placeholder_span(&t, pos, k.len()).is_some(),
            None => false,
        }
    }

    /// Renders the issue: the identifier (the generated one, where one is
    /// wanted and given), then the extension, then every other attribute in
    /// the registry's order, each into its placeholders of the template.
    /// Attributes without a placeholder become attribute lines of the
    /// content. With an issues directory set, the path is that directory,
    /// `/` and the rendered template.
    pub fn init_from<T: Content>(&mut self, issue: &Issue<T>, generated_id: Option<&str>)
        requires
            old(self).attrs.wf(),
            issue.attrs.wf(),
        ensures
            ({
                let idk = issue.id_attr_key@;
                let id = if old(self).wants_id(issue) && generated_id is Some {
                    generated_id.unwrap()@
                } else {
                    value_or_empty(issue.attrs.value_map(), idk)
                };
                let s1 = key_replaced(old(self).template(), idk, id).0;
                let s2 = key_replaced(
                    s1,
                    CreateAttr::Ext.key_text(),
                    value_or_empty(old(self).attrs.value_map(), CreateAttr::Ext.key_text()),
                ).0;
                let (s3, c) = fill_keys(
                    s2,
                    old(self).content@,
                    issue.attrs.key_list(),
                    issue.attrs.value_map(),
                    idk,
                );
                &&& final(self).content@ == c
                &&& if old(self).attrs.value_map().contains_key(CreateAttr::IssuesDir.key_text()) {
                    final(self).path is Some && final(self).path.unwrap()@ == old(self).attrs.value_map()[CreateAttr::IssuesDir.key_text()]
                        + seq!['/'] + s3
                } else {
                    final(self).path == old(self).path
                }
            }),
            final(self).attrs == old(self).attrs,
            final(self).id_generator == old(self).id_generator,
    {
        let wants = self.needs_id(issue);
        let mut t = chars_of(self.attrs.attr_value_as_str(CreateAttr::Format.key()));
        let id: String = match generated_id {
            Some(g) => if wants {
                g.to_owned()
            } else {
                self.own_id(issue)
            },
            None => self.own_id(issue),
        };
        replace_key(&mut t, &chars_of(issue.id_attr_key.as_str()), &chars_of(id.as_str()));
        replace_key(
            &mut t,
            &chars_of(CreateAttr::Ext.key()),
            &chars_of(self.attrs.attr_value_as_str(CreateAttr::Ext.key())),
        );
        let ghost s2 = t@;
        let ghost c0 = self.content@;
        let ghost keys = issue.attrs.key_list();
        let ghost values = issue.attrs.value_map();
        let ghost idk = issue.id_attr_key@;
        let mut content = chars_of(self.content.as_str());
        let mut i: usize = 0;
        let n = issue.attrs.key_count();
        proof {
            assert(keys.subrange(0, 0) =~= Seq::<Seq<char>>::empty());
        }
        while i < n
            invariant
                n == keys.len(),
                keys == issue.attrs.key_list(),
                values == issue.attrs.value_map(),
                idk == issue.id_attr_key@,
                issue.attrs.wf(),
                i <= n,
                (t@, content@) == fill_keys(s2, c0, keys.subrange(0, i as int), values, idk),
            decreases n - i,
        {
            let key = issue.attrs.key_at(i);
            proof {
                assert(keys.subrange(0, i + 1).drop_last() =~= keys.subrange(0, i as int));
                assert(keys.subrange(0, i + 1).last() == keys[i as int]);
            }
            if !(*key == issue.id_attr_key) {
                let value = issue.attrs.attr_value_as_str(key.as_str());
                let replaced = replace_key(&mut t, &chars_of(key.as_str()), &chars_of(value));
                if !replaced {
                    let line = AttrParser::encode_attr(key.as_str(), value);
                    let lc = chars_of(line.as_str());
                    let mut j: usize = 0;
                    let ghost before = content@;
                    while j < lc.len()
                        invariant
                            j <= lc.len(),
                            content@ == before + lc@.subrange(0, j as int),
                        decreases lc.len() - j,
                    {
                        content.push(lc[j]);
                        j += 1;
                        assert(content@ =~= before + lc@.subrange(0, j as int));
                    }
                    content.push('\n');
                    assert(lc@.subrange(0, lc@.len() as int) =~= lc@);
                    assert(content@ =~= before + encoded(key@, value@) + seq!['\n']);
                }
            }
            i += 1;
        }
        proof {
            assert(keys.subrange(0, n as int) =~= keys);
        }
        self.content = string_of(&content);
        if let Some(dir) = self.attrs.attr_value(CreateAttr::IssuesDir.key()) {
            let mut p = chars_of(dir.as_str());
            let ghost d = p@;
            p.push('/');
            let mut j: usize = 0;
            while j < t.len()
                invariant
                    j <= t.len(),
                    p@ == d.push('/') + t@.subrange(0, j as int),
                decreases t.len() - j,
            {
                p.push(t[j]);
                j += 1;
                assert(p@ =~= d.push('/') + t@.subrange(0, j as int));
            }
            assert(t@.subrange(0, t@.len() as int) =~= t@);
            assert(p@ =~= d + seq!['/'] + t@);
            self.path = Some(string_of(&p));
        }
    }

    /// The command takes a parameter of this (lower-case) name: it names a
    /// key or an alias of one, and the key is a setting of the command.
    pub open spec fn accepts(&self, lowered: Seq<char>) -> bool {
        &&& (self.attrs.key_list().contains(lowered) || self.attrs.alias_map().contains_key(lowered))
        &&& exists|a: CreateAttr| a.key_text() == self.attrs.resolve(lowered)
    }

    /// Sets a parameter of the command, named by its key or an alias in any
    /// case.
    pub fn set_param(&mut self, param: &str, value: &str) -> (r: Result<(), TodoError>)
        requires
            old(self).attrs.wf(),
        ensures
            final(self).attrs.wf(),
            old(self).accepts(lower_of(param@)) ==> r is Ok && set_in(
                old(self).attrs,
                final(self).attrs,
                old(self).attrs.resolve(lower_of(param@)),
                value@,
            ),
            !old(self).accepts(lower_of(param@)) ==> *final(self) == *old(self) && (r matches Err(
                TodoError::UnknownCommandParam { param: p },
            ) && p@ == param@),
    {
        let lowered = lowercase(param);
        self.set_lowered_param(lowered.as_str(), param, value)
    }

    /// Sets a parameter of the command, given its name in lower case.
    pub fn set_lowered_param(&mut self, lowered: &str, param: &str, value: &str) -> (r: Result<(), TodoError>)
        requires
            old(self).attrs.wf(),
        ensures
            final(self).attrs.wf(),
            old(self).accepts(lowered@) ==> r is Ok && set_in(
                old(self).attrs,
                final(self).attrs,
                old(self).attrs.resolve(lowered@),
                value@,
            ),
            !old(self).accepts(lowered@) ==> *final(self) == *old(self) && (r matches Err(
                TodoError::UnknownCommandParam { param: p },
            ) && p@ == param@),
    {
        match self.attrs.key_by_alias(lowered) {
            Some(k) => match CreateAttr::by_key(k.as_str()) {
                Some(a) => {
                    proof {
                        lemma_resolve_registered(self.attrs, lowered@);
                    }
                    self.attrs.set_attr_value(a.key(), value);
                    Ok(())
                },
                None => Err(TodoError::UnknownCommandParam { param: param.to_owned() }),
            },
            None => Err(TodoError::UnknownCommandParam { param: param.to_owned() }),
        }
    }

    /// The issue's own identifier, or the empty text.
    fn own_id<T: Content>(&self, issue: &Issue<T>) -> (r: String)
        requires
            issue.attrs.wf(),
        ensures
            r@ == value_or_empty(issue.attrs.value_map(), issue.id_attr_key@),
    {
        match issue.get_id() {
            Some(v) => v.clone(),
            None => String::new(),
        }
    }
}

} // verus!
