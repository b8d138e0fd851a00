use vstd::prelude::*;

use crate::attrs::{alias_fold, Attrs};
use crate::create::{set_in, Create, CreateAttr};
use crate::entries::names_view;
use crate::error::TodoError;
use crate::generator;
use crate::issue::{Content, Issue};
use crate::new::New;
use crate::settings::{Settings, SEQUENCE};

verus! {

/// The names of configured attributes.
pub open spec fn attr_names(attrs: Seq<(String, Vec<String>)>) -> Seq<Seq<char>> {
    attrs.map_values(|p: (String, Vec<String>)| p.0@)
}

/// The `x`-th alias configured for the `j`-th attribute.
pub open spec fn alias_at(attrs: Seq<(String, Vec<String>)>, j: int, x: int) -> Seq<char> {
    attrs[j].1@[x]@
}

/// No alias is configured for two attribute entries, and none is bound in
/// `m` already.
pub open spec fn aliases_free(attrs: Seq<(String, Vec<String>)>, m: Map<Seq<char>, Seq<char>>) -> bool {
    &&& forall|j1: int, x1: int, j2: int, x2: int|
        0 <= j1 < attrs.len() && 0 <= j2 < attrs.len() && 0 <= x1 < attrs[j1].1@.len() && 0 <= x2
            < attrs[j2].1@.len() && #[trigger] alias_at(attrs, j1, x1) == #[trigger] alias_at(
            attrs,
            j2,
            x2,
        ) ==> j1 == j2
    &&& forall|j: int, x: int|
        0 <= j < attrs.len() && 0 <= x < attrs[j].1@.len() ==> !m.contains_key(
            #[trigger] alias_at(attrs, j, x),
        )
}

/// Every alias in `m` was bound in `start` already, or is configured for an
/// attribute entry and names that attribute.
pub open spec fn bound_from(
    m: Map<Seq<char>, Seq<char>>,
    start: Map<Seq<char>, Seq<char>>,
    attrs: Seq<(String, Vec<String>)>,
) -> bool {
    forall|a: Seq<char>|
        #[trigger] m.contains_key(a) ==> (start.contains_key(a) && m[a] == start[a]) || exists|
            j: int,
            x: int,
        |
            0 <= j < attrs.len() && 0 <= x < attrs[j].1@.len() && #[trigger] alias_at(attrs, j, x) == a
                && m[a] == attrs[j].0@
}

/// Aliases that are free or already name `key` are all registered.
pub proof fn lemma_fold_free(m: Map<Seq<char>, Seq<char>>, key: Seq<char>, l: Seq<Seq<char>>)
    requires
        forall|i: int| 0 <= i < l.len() ==> !m.contains_key(#[trigger] l[i]) || m[l[i]] == key,
    ensures
        alias_fold(m, key, l).1 is None,
        forall|a: Seq<char>|
            #[trigger] alias_fold(m, key, l).0.contains_key(a) ==> (m.contains_key(a)
                && alias_fold(m, key, l).0[a] == m[a]) || (l.contains(a) && alias_fold(m, key, l).0[a]
                == key),
    decreases l.len(),
{
    if l.len() > 0 {
        let m2 = m.insert(l[0], key);
        let t = l.drop_first();
        assert forall|i: int| 0 <= i < t.len() implies !m2.contains_key(#[trigger] t[i]) || m2[t[i]] == key by {
            assert(t[i] == l[i + 1]);
        }
        lemma_fold_free(m2, key, t);
        assert forall|a: Seq<char>| #[trigger] alias_fold(m, key, l).0.contains_key(a) implies (m.contains_key(a)
            && alias_fold(m, key, l).0[a] == m[a]) || (l.contains(a) && alias_fold(m, key, l).0[a] == key) by {
            if a == l[0] {
                assert(l.contains(a));
                if !t.contains(a) {
                    assert(alias_fold(m, key, l).0[a] == m2[a]);
                }
            } else if t.contains(a) {
                let i = choose|i: int| 0 <= i < t.len() && t[i] == a;
                assert(l[i + 1] == a);
            }
        }
    }
}

/// Registering the aliases of the `j`-th entry under its own name cannot
/// collide while aliases are free, and keeps every alias accounted for.
pub proof fn lemma_register_free(
    m: Map<Seq<char>, Seq<char>>,
    start: Map<Seq<char>, Seq<char>>,
    attrs: Seq<(String, Vec<String>)>,
    j: int,
)
    requires
        aliases_free(attrs, start),
        bound_from(m, start, attrs),
        0 <= j < attrs.len(),
    ensures
        alias_fold(m, attrs[j].0@, names_view(attrs[j].1@)).1 is None,
        bound_from(alias_fold(m, attrs[j].0@, names_view(attrs[j].1@)).0, start, attrs),
{
    let key = attrs[j].0@;
    let l = names_view(attrs[j].1@);
    assert forall|i: int| 0 <= i < l.len() implies !m.contains_key(#[trigger] l[i]) || m[l[i]] == key by {
        assert(l[i] == alias_at(attrs, j, i));
        if m.contains_key(l[i]) {
            assert(!start.contains_key(alias_at(attrs, j, i)));
            let (j2, x2) = choose|j2: int, x2: int|
                0 <= j2 < attrs.len() && 0 <= x2 < attrs[j2].1@.len() && #[trigger] alias_at(attrs, j2, x2)
                    == l[i] && m[l[i]] == attrs[j2].0@;
            assert(alias_at(attrs, j2, x2) == alias_at(attrs, j, i));
        }
    }
    lemma_fold_free(m, key, l);
    let r = alias_fold(m, key, l).0;
    assert forall|a: Seq<char>| #[trigger] r.contains_key(a) implies (start.contains_key(a) && r[a] == start[a])
        || exists|j2: int, x2: int|
        0 <= j2 < attrs.len() && 0 <= x2 < attrs[j2].1@.len() && #[trigger] alias_at(attrs, j2, x2) == a
            && r[a] == attrs[j2].0@ by {
        if l.contains(a) && r[a] == key {
            let i = choose|i: int| 0 <= i < l.len() && l[i] == a;
            assert(alias_at(attrs, j, i) == a);
        } else {
            assert(m.contains_key(a));
        }
    }
}

/// The entry of `attrs` for `name`.
fn find_attr(attrs: &Vec<(String, Vec<String>)>, name: &String) -> (r: Option<usize>)
    ensures
        match r {
            Some(j) => j < attrs.len() && attrs@[j as int].0@ == name@,
            None => !attr_names(attrs@).contains(name@),
        },
{
    let mut j: usize = 0;
    while j < attrs.len()
        invariant
            j <= attrs.len(),
            forall|k: int| 0 <= k < j ==> attrs@[k].0@ != name@,
        decreases attrs.len() - j,
    {
        if attrs[j].0 == *name {
            return Some(j);
        }
        j += 1;
    }
    proof {
        assert forall|k: int| 0 <= k < attr_names(attrs@).len() implies attr_names(attrs@)[k] != name@ by {
            assert(attrs@[k].0@ != name@);
        }
    }
    None
}

/// Whether `name` is listed in `order`.
fn listed(order: &Vec<String>, name: &String) -> (r: bool)
    ensures
        r == names_view(order@).contains(name@),
{
    let mut j: usize = 0;
    while j < order.len()
        invariant
            j <= order.len(),
            forall|k: int| 0 <= k < j ==> order@[k]@ != name@,
        decreases order.len() - j,
    {
        if order[j] == *name {
            assert(names_view(order@)[j as int] == name@);
            return true;
        }
        j += 1;
    }
    proof {
        assert forall|k: int| 0 <= k < names_view(order@).len() implies names_view(order@)[k] != name@ by {
            assert(order@[k]@ != name@);
        }
    }
    false
}

/// Registers the configured attributes of issues: first those named in the
/// configured order, in that order, then the others; each with its aliases.
/// Then registers the identifier key and the default key.
pub fn issue_setup<T: Content>(given: Issue<T>, settings: &Settings) -> (r: Result<Issue<T>, TodoError>)
    requires
        given.attrs.wf(),
    ensures
        match r {
            Ok(i) => {
                &&& i.attrs.wf()
                &&& i.id_attr_key@ == settings.issue.id_attr_key@
                &&& i.attrs.default_name() == settings.issue.default_attr_key@
                &&& i.attrs.key_list().contains(settings.issue.id_attr_key@)
                &&& i.attrs.key_list().contains(settings.issue.default_attr_key@)
                &&& forall|k: Seq<char>| #[trigger] given.attrs.key_list().contains(k) ==> i.attrs.key_list().contains(k)
                &&& forall|k: Seq<char>| #[trigger] attr_names(settings.issue.attrs@).contains(k) ==> i.attrs.key_list().contains(k)
            },
            Err(e) => e is AliasAlreadyExists,
        },
        aliases_free(settings.issue.attrs@, given.attrs.alias_map()) ==> r is Ok,
{
    let ghost start_map = given.attrs.alias_map();
    let ghost free = aliases_free(settings.issue.attrs@, start_map);
    let mut issue = given;
    let attrs = &settings.issue.attrs;
    let ghost names = attr_names(attrs@);
    let ghost start = issue.attrs.key_list();
    let empty: Vec<String> = Vec::new();
    let order = match &settings.issue.attrs_order {
        Some(o) => o,
        None => &empty,
    };
    let ghost ov = names_view(order@);
    let mut i: usize = 0;
    while i < order.len()
        invariant
            i <= order.len(),
            issue.attrs.wf(),
            ov == names_view(order@),
            names == attr_names(attrs@),
            free == aliases_free(attrs@, start_map),
            start_map == given.attrs.alias_map(),
            attrs@ == settings.issue.attrs@,
            free ==> bound_from(issue.attrs.alias_map(), start_map, attrs@),
            forall|k: Seq<char>| #[trigger] start.contains(k) ==> issue.attrs.key_list().contains(k),
            forall|j: int| 0 <= j < i && #[trigger] names.contains(ov[j]) ==> issue.attrs.key_list().contains(ov[j]),
        decreases order.len() - i,
    {
        let name = &order[i];
        if let Some(j) = find_attr(attrs, name) {
            let ghost before = issue.attrs.key_list();
            let key = issue.attrs.add_key(name.as_str());
            proof {
                crate::attrs::lemma_with_key_contains(before, name@);
                assert forall|k: Seq<char>| #[trigger] before.contains(k) implies issue.attrs.key_list().contains(k) by {
                    if !before.contains(name@) {
                        let x = choose|x: int| 0 <= x < before.len() && before[x] == k;
                        assert(issue.attrs.key_list()[x] == k);
                    }
                }
            }
            proof {
                if free {
                    lemma_register_free(issue.attrs.alias_map(), start_map, attrs@, j as int);
                }
            }
            match issue.attrs.add_aliases(key.as_str(), attrs[j].1.as_slice()) {
                Ok(()) => {},
                Err(e) => {
                    assert(!free);
                    return Err(e);
                },
            }
        }
        proof {
            assert(ov[i as int] == name@);
        }
        i += 1;
    }
    let mut j: usize = 0;
    while j < attrs.len()
        invariant
            j <= attrs.len(),
            issue.attrs.wf(),
            ov == names_view(order@),
            names == attr_names(attrs@),
            free == aliases_free(attrs@, start_map),
            start_map == given.attrs.alias_map(),
            attrs@ == settings.issue.attrs@,
            free ==> bound_from(issue.attrs.alias_map(), start_map, attrs@),
            forall|k: Seq<char>| #[trigger] start.contains(k) ==> issue.attrs.key_list().contains(k),
            forall|x: int| 0 <= x < ov.len() && #[trigger] names.contains(ov[x]) ==> issue.attrs.key_list().contains(ov[x]),
            forall|x: int| 0 <= x < j ==> issue.attrs.key_list().contains(#[trigger] names[x]),
        decreases attrs.len() - j,
    {
        let name = &attrs[j].0;
        proof {
            assert(names[j as int] == name@);
        }
        if listed(order, name) {
            proof {
                let x = choose|x: int| 0 <= x < ov.len() && ov[x] == name@;
                assert(names.contains(ov[x]));
            }
        } else {
            let ghost before = issue.attrs.key_list();
            let key = issue.attrs.add_key(name.as_str());
            proof {
                crate::attrs::lemma_with_key_contains(before, name@);
                assert forall|k: Seq<char>| #[trigger] before.contains(k) implies issue.attrs.key_list().contains(k) by {
                    if !before.contains(name@) {
                        let x = choose|x: int| 0 <= x < before.len() && before[x] == k;
                        assert(issue.attrs.key_list()[x] == k);
                    }
                }
            }
            proof {
                if free {
                    lemma_register_free(issue.attrs.alias_map(), start_map, attrs@, j as int);
                }
            }
            match issue.attrs.add_aliases(key.as_str(), attrs[j].1.as_slice()) {
                Ok(()) => {},
                Err(e) => {
                    assert(!free);
                    return Err(e);
                },
            }
        }
        j += 1;
    }
    let ghost before = issue.attrs.key_list();
    let key = issue.attrs.add_key(settings.issue.id_attr_key.as_str());
    proof {
        crate::attrs::lemma_with_key_contains(before, settings.issue.id_attr_key@);
        if !before.contains(settings.issue.id_attr_key@) {
            assert forall|k: Seq<char>| #[trigger] before.contains(k) implies issue.attrs.key_list().contains(k) by {
                let x = choose|x: int| 0 <= x < before.len() && before[x] == k;
                assert(issue.attrs.key_list()[x] == k);
            }
        }
    }
    issue.id_attr_key = key;
    let ghost before2 = issue.attrs.key_list();
    let dkey = issue.attrs.add_key(settings.issue.default_attr_key.as_str());
    proof {
        crate::attrs::lemma_with_key_contains(before2, settings.issue.default_attr_key@);
        if !before2.contains(settings.issue.default_attr_key@) {
            assert forall|k: Seq<char>| #[trigger] before2.contains(k) implies issue.attrs.key_list().contains(k) by {
                let x = choose|x: int| 0 <= x < before2.len() && before2[x] == k;
                assert(issue.attrs.key_list()[x] == k);
            }
        }
    }
    issue.attrs.set_default_key(dkey.as_str());
    proof {
        assert forall|k: Seq<char>| #[trigger] names.contains(k) implies issue.attrs.key_list().contains(k) by {
            let x = choose|x: int| 0 <= x < names.len() && names[x] == k;
            assert(before.contains(names[x]));
        }
    }
    Ok(issue)
}

/// Sets the create command's issues directory, path template and extension
/// from the settings, registers the configured aliases of its keys where it
/// has them, and picks its identifier generator: the sequence generator for
/// `sequence`, none for the empty name. Any other name is refused.
pub fn create_setup(cr: Create, settings: &Settings) -> (r: Result<Create, TodoError>)
    requires
        cr.attrs.wf(),
    ensures
        settings.store.fs.id_generator@ == SEQUENCE@ || settings.store.fs.id_generator@.len() == 0 ==> r is Ok,
        !(settings.store.fs.id_generator@ == SEQUENCE@ || settings.store.fs.id_generator@.len() == 0) ==> (r matches Err(
            TodoError::UnknownGenerator { name },
        ) && name@ == settings.store.fs.id_generator@),
        r is Ok ==> r.unwrap().attrs.wf() && r.unwrap().content == cr.content && r.unwrap().path
            == cr.path,
        r is Ok && settings.store.fs.id_generator@.len() == 0 ==> r.unwrap().id_generator is None,
        r is Ok && settings.store.fs.id_generator@ == SEQUENCE@ ==> r.unwrap().id_generator is Some
            && r.unwrap().id_generator.unwrap().required == settings.generator.sequence.required
            && r.unwrap().id_generator.unwrap().file is Some
            && r.unwrap().id_generator.unwrap().file.unwrap()@ == settings.generator.sequence.file@,
        r is Ok && !cr.attrs.alias_map().contains_key(CreateAttr::IssuesDir.key_text())
            && !cr.attrs.alias_map().contains_key(CreateAttr::Format.key_text())
            && !cr.attrs.alias_map().contains_key(CreateAttr::Ext.key_text())
            ==> r.unwrap().attrs.value_map() == cr.attrs.value_map().insert(
            CreateAttr::IssuesDir.key_text(),
            settings.store.fs.issues_dir@,
        ).insert(CreateAttr::Format.key_text(), settings.store.fs.format@).insert(
            CreateAttr::Ext.key_text(),
            settings.store.fs.ext@,
        ),
{
    let mut create = cr;
    let ghost a0 = create.attrs;
    create.attrs.set_attr_value(CreateAttr::IssuesDir.key(), settings.store.fs.issues_dir.as_str());
    let ghost a1 = create.attrs;
    create.attrs.set_attr_value(CreateAttr::Format.key(), settings.store.fs.format.as_str());
    let ghost a2 = create.attrs;
    create.attrs.set_attr_value(CreateAttr::Ext.key(), settings.store.fs.ext.as_str());
    let ghost a3 = create.attrs;
    let attrs = &settings.store.fs.attrs;
    let mut j: usize = 0;
    while j < attrs.len()
        invariant
            j <= attrs.len(),
            create.attrs.wf(),
            create.attrs.value_map() == a3.value_map(),
            create.content == cr.content,
            create.path == cr.path,
        decreases attrs.len() - j,
    {
        let _ = create.attrs.add_aliases(attrs[j].0.as_str(), attrs[j].1.as_slice());
        j += 1;
    }
    proof {
        let n1 = CreateAttr::IssuesDir.key_text();
        let n2 = CreateAttr::Format.key_text();
        let n3 = CreateAttr::Ext.key_text();
        if !a0.alias_map().contains_key(n1) && !a0.alias_map().contains_key(n2) && !a0.alias_map().contains_key(n3) {
            assert(a0.resolve(n1) == n1);
            assert(a1.resolve(n2) == n2);
            assert(a2.resolve(n3) == n3);
            assert(create.attrs.value_map() == a0.value_map().insert(n1, settings.store.fs.issues_dir@).insert(n2, settings.store.fs.format@).insert(n3, settings.store.fs.ext@));
        }
        assert(create.attrs.wf());
    }
    let g = settings.store.fs.id_generator.as_str();
    proof {
        reveal_strlit("sequence");
    }
    if g.to_owned() == SEQUENCE.to_owned() {
        create.id_generator = Some(
            generator::SequenceGenerator {
                required: settings.generator.sequence.required,
                file: Some(settings.generator.sequence.file.clone()),
            },
        );
        Ok(create)
    } else if g.is_empty() {
        create.id_generator = None;
        Ok(create)
    } else {
        Err(TodoError::UnknownGenerator { name: g.to_owned() })
    }
}

/// `st` runs from one registry to the next by writing the default values
/// `d` one after another, each to the key that its name resolves to.
pub open spec fn writes_chain(st: Seq<Attrs>, d: Seq<(String, String)>) -> bool {
    &&& st.len() == d.len() + 1
    &&& forall|i: int|
        0 <= i < d.len() ==> set_in(st[i], st[i + 1], st[i].resolve(#[trigger] d[i].0@), d[i].1@)
}

/// `after` is `before` with the default values `d` written in order.
pub open spec fn defaults_written(before: Attrs, after: Attrs, d: Seq<(String, String)>) -> bool {
    exists|st: Seq<Attrs>| #[trigger] writes_chain(st, d) && st[0] == before && st.last() == after
}

/// Gives the new issue the attribute values that the settings start every
/// new issue with, in their order.
pub fn new_setup(new: New, settings: &Settings) -> (r: New)
    requires
        new.ready(),
    ensures
        r.ready(),
        r.create == new.create,
        r.issue.id_attr_key == new.issue.id_attr_key,
        settings.command.new.default_attrs is None ==> r == new,
        settings.command.new.default_attrs is Some ==> defaults_written(
            new.issue.attrs,
            r.issue.attrs,
            settings.command.new.default_attrs.unwrap()@,
        ),
{
    let ghost start = new;
    let mut new = new;
    if let Some(defaults) = &settings.command.new.default_attrs {
        let mut j: usize = 0;
        let ghost mut st: Seq<Attrs> = seq![new.issue.attrs];
        proof {
            assert(writes_chain(st, defaults@.subrange(0, 0)));
        }
        while j < defaults.len()
            invariant
                j <= defaults.len(),
                new.ready(),
                new.create == start.create,
                new.issue.id_attr_key == start.issue.id_attr_key,
                writes_chain(st, defaults@.subrange(0, j as int)),
                st[0] == start.issue.attrs,
                st.last() == new.issue.attrs,
            decreases defaults.len() - j,
        {
            let ghost prev = st;
            new.issue.attrs.set_attr_value(defaults[j].0.as_str(), defaults[j].1.as_str());
            proof {
                st = prev.push(new.issue.attrs);
                let d = defaults@.subrange(0, j + 1);
                assert forall|i: int| 0 <= i < d.len() implies set_in(
                    st[i],
                    st[i + 1],
                    st[i].resolve(#[trigger] d[i].0@),
                    d[i].1@,
                ) by {
                    if i < j {
                        assert(d[i] == defaults@.subrange(0, j as int)[i]);
                        assert(st[i] == prev[i] && st[i + 1] == prev[i + 1]);
                    }
                }
            }
            j += 1;
        }
        proof {
            assert(defaults@.subrange(0, defaults@.len() as int) =~= defaults@);
            assert(writes_chain(st, defaults@));
        }
    }
    new
}

} // verus!
