use vstd::prelude::*;

use crate::entries::{
    distinct_names, entries_map, entries_view, entry_index, lemma_entries_map_at,
    lemma_entries_map_domain, lemma_entries_map_update, lemma_entries_push_distinct, name_index,
    names_view,
};
use crate::error::TodoError;

verus! {

/// The registry of attribute keys: their order, their aliases, the keys
/// whose position is pinned, and the value set for each key.
#[derive(Clone, Debug)]
pub struct Attrs {
    attrs: Vec<(String, String)>,
    aliases: Vec<(String, String)>,
    keep_order_keys: Vec<String>,
    pub keys: Vec<String>,
    pub default_key: String,
}

/// The key list after `k` is registered: unchanged if it is there, else `k`
/// is appended.
pub open spec fn with_key(keys: Seq<Seq<char>>, k: Seq<char>) -> Seq<Seq<char>> {
    if keys.contains(k) {
        keys
    } else {
        keys.push(k)
    }
}

/// The key list after a value is written to `k`: a pinned key stays where it
/// is, any other key moves to the end (and is appended if it was absent).
pub open spec fn touched(keys: Seq<Seq<char>>, pinned: Seq<Seq<char>>, k: Seq<char>) -> Seq<Seq<char>> {
    if pinned.contains(k) {
        keys
    } else {
        keys.remove_value(k).push(k)
    }
}

/// The keys that have a value, with it, in the order of `keys`.
pub open spec fn set_values(keys: Seq<Seq<char>>, m: Map<Seq<char>, Seq<char>>) -> Seq<(Seq<char>, Seq<char>)>
    decreases keys.len(),
{
    if keys.len() == 0 {
        Seq::empty()
    } else {
        let rest = set_values(keys.drop_last(), m);
        let k = keys.last();
        if m.contains_key(k) {
            rest.push((k, m[k]))
        } else {
            rest
        }
    }
}

/// Registers `als` one after another as aliases of `key` in the alias map
/// `m`. Stops at the first alias that already names another key, keeping the
/// aliases registered before it; that alias is returned beside the map.
pub open spec fn alias_fold(
    m: Map<Seq<char>, Seq<char>>,
    key: Seq<char>,
    als: Seq<Seq<char>>,
) -> (Map<Seq<char>, Seq<char>>, Option<Seq<char>>)
    decreases als.len(),
{
    if als.len() == 0 {
        (m, None)
    } else if m.contains_key(als[0]) && m[als[0]] != key {
        (m, Some(als[0]))
    } else {
        alias_fold(m.insert(als[0], key), key, als.drop_first())
    }
}

impl Attrs {
    /// The registered keys, in iteration order.
    pub closed spec fn key_list(&self) -> Seq<Seq<char>> {
        names_view(self.keys@)
    }

    /// The value set for each key.
    pub closed spec fn value_map(&self) -> Map<Seq<char>, Seq<char>> {
        entries_map(entries_view(self.attrs@))
    }

    /// The key that each alias stands for.
    pub closed spec fn alias_map(&self) -> Map<Seq<char>, Seq<char>> {
        entries_map(entries_view(self.aliases@))
    }

    /// The key that receives values given without a name.
    pub closed spec fn default_name(&self) -> Seq<char> {
        self.default_key@
    }

    /// The keys whose position in the order is fixed.
    pub closed spec fn pinned(&self) -> Seq<Seq<char>> {
        names_view(self.keep_order_keys@)
    }

    /// Keys are unique, every alias and every pinned key names a registered
    /// key.
    pub closed spec fn wf(&self) -> bool {
        &&& self.key_list().no_duplicates()
        &&& distinct_names(entries_view(self.attrs@))
        &&& distinct_names(entries_view(self.aliases@))
        &&& forall|a: Seq<char>| #[trigger]
            self.alias_map().contains_key(a) ==> self.key_list().contains(self.alias_map()[a])
        &&& forall|k: Seq<char>| #[trigger] self.pinned().contains(k) ==> self.key_list().contains(k)
    }

    /// The key that a name resolves to: a key of that name, else the key of
    /// that alias, else a new key of that name.
    pub open spec fn resolve(&self, name: Seq<char>) -> Seq<char> {
        if self.key_list().contains(name) {
            name
        } else if self.alias_map().contains_key(name) {
            self.alias_map()[name]
        } else {
            name
        }
    }

    /// An alias names a registered key.
    pub proof fn lemma_alias_targets(&self, name: Seq<char>)
        requires
            self.wf(),
            self.alias_map().contains_key(name),
        ensures
            self.key_list().contains(self.alias_map()[name]),
    {
    }

    /// Makes `key` the key that takes nameless values.
    pub fn set_default_key(&mut self, key: &str)
        requires
            old(self).wf(),
        ensures
            final(self).wf(),
            final(self).default_name() == key@,
            final(self).key_list() == old(self).key_list(),
            final(self).value_map() == old(self).value_map(),
            final(self).alias_map() == old(self).alias_map(),
            final(self).pinned() == old(self).pinned(),
    {
        self.default_key = key.to_owned();
        proof {
            lemma_wf_frame(*old(self), *self);
        }
    }

    /// The keys that have a value, with it, in iteration order.
    pub fn values(&self) -> (r: Vec<(String, String)>)
        requires
            self.wf(),
        ensures
            entries_view(r@) == set_values(self.key_list(), self.value_map()),
    {
        let mut r: Vec<(String, String)> = Vec::new();
        let mut i: usize = 0;
        assert(entries_view(r@) =~= Seq::empty());
        while i < self.keys.len()
            invariant
                self.wf(),
                i <= self.keys.len(),
                entries_view(r@) == set_values(self.key_list().subrange(0, i as int), self.value_map()),
            decreases self.keys.len() - i,
        {
            let k = &self.keys[i];
            proof {
                assert(self.key_list().subrange(0, i + 1).drop_last() =~= self.key_list().subrange(0, i as int));
                assert(self.key_list()[i as int] == k@);
            }
            if let Some(v) = self.attr_value(k.as_str()) {
                let ghost before = entries_view(r@);
                r.push((k.clone(), v.clone()));
                assert(entries_view(r@) =~= before.push((k@, v@)));
            }
            i += 1;
        }
        assert(self.key_list().subrange(0, self.keys.len() as int) =~= self.key_list());
        r
    }

    /// The key that takes nameless values.
    pub fn get_default_key(&self) -> (r: &String)
        ensures
            r@ == self.default_name(),
    {
        &self.default_key
    }

    /// The number of registered keys.
    pub fn key_count(&self) -> (r: usize)
        ensures
            r == self.key_list().len(),
    {
        self.keys.len()
    }

    /// The key at position `i` of the order.
    pub fn key_at(&self, i: usize) -> (r: &String)
        requires
            i < self.key_list().len(),
        ensures
            r@ == self.key_list()[i as int],
    {
        &self.keys[i]
    }

    pub fn is_keep_order_key(&self, key: &str) -> (r: bool)
        ensures
            r == self.pinned().contains(key@),
    {
        let k = key.to_owned();
        let r = name_index(&self.keep_order_keys, &k);
        proof {
            if let Some(i) = r {
                assert(self.pinned()[i as int] == key@);
            } else {
                assert forall|i: int| 0 <= i < self.pinned().len() implies self.pinned()[i] != key@ by {
                    assert(self.keep_order_keys@[i]@ != key@);
                }
            }
        }
        r.is_some()
    }

    pub fn find_key(&self, key: &str) -> (r: Option<String>)
        ensures
            match r {
                Some(k) => k@ == key@ && self.key_list().contains(key@),
                None => !self.key_list().contains(key@),
            },
    {
        let k = key.to_owned();
        match name_index(&self.keys, &k) {
            Some(i) => {
                assert(self.key_list()[i as int] == key@);
                Some(self.keys[i].clone())
            },
            None => {
                assert forall|i: int| 0 <= i < self.key_list().len() implies self.key_list()[i] != key@ by {
                    assert(self.keys@[i]@ != key@);
                }
                None
            },
        }
    }

    pub fn attr_value(&self, key: &str) -> (r: Option<&String>)
        requires
            self.wf(),
        ensures
            match r {
                Some(v) => self.value_map().contains_key(key@) && v@ == self.value_map()[key@],
                None => !self.value_map().contains_key(key@),
            },
    {
        let k = key.to_owned();
        let ghost ev = entries_view(self.attrs@);
        match entry_index(&self.attrs, &k) {
            Some(i) => {
                proof {
                    lemma_entries_map_at(ev, i as int);
                }
                Some(&self.attrs[i].1)
            },
            None => {
                proof {
                    lemma_entries_map_domain(ev, key@);
                    assert forall|x: int| 0 <= x < ev.len() implies ev[x].0 != key@ by {
                        assert(self.attrs@[x].0@ != key@);
                    }
                }
                None
            },
        }
    }

    pub fn attr_value_as_str(&self, key: &str) -> (r: &str)
        requires
            self.wf(),
        ensures
            r@ == (if self.value_map().contains_key(key@) {
                self.value_map()[key@]
            } else {
                Seq::empty()
            }),
    {
        match self.attr_value(key) {
            Some(v) => v.as_str(),
            None => {
                proof {
                    reveal_strlit("");
                }
                ""
            },
        }
    }

    /// Stores `value` under `k`, returning the value it replaces.
    fn store_value(&mut self, k: String, value: &str) -> (r: Option<String>)
        requires
            old(self).wf(),
        ensures
            final(self).wf(),
            final(self).value_map() == old(self).value_map().insert(k@, value@),
            match r {
                Some(v) => old(self).value_map().contains_key(k@) && v@ == old(self).value_map()[k@],
                None => !old(self).value_map().contains_key(k@),
            },
            final(self).key_list() == old(self).key_list(),
            final(self).alias_map() == old(self).alias_map(),
            final(self).pinned() == old(self).pinned(),
            final(self).default_name() == old(self).default_name(),
    {
        let ghost ev = entries_view(self.attrs@);
        match entry_index(&self.attrs, &k) {
            Some(i) => {
                proof {
                    lemma_entries_map_at(ev, i as int);
                    lemma_entries_map_update(ev, i as int, value@);
                }
                let prev = self.attrs[i].1.clone();
                self.attrs.set(i, (k, value.to_owned()));
                proof {
                    assert(entries_view(self.attrs@) =~= ev.update(i as int, (ev[i as int].0, value@)));
                    assert forall|a: int, b: int| 0 <= a < b < entries_view(self.attrs@).len()
                        implies entries_view(self.attrs@)[a].0 != entries_view(self.attrs@)[b].0 by {
                        assert(ev[a].0 != ev[b].0);
                    }
                }
                proof {
                    lemma_wf_frame(*old(self), *self);
                }
                Some(prev)
            },
            None => {
                proof {
                    lemma_entries_map_domain(ev, k@);
                    assert forall|x: int| 0 <= x < ev.len() implies ev[x].0 != k@ by {
                        assert(self.attrs@[x].0@ != k@);
                    }
                    lemma_entries_push_distinct(ev, (k@, value@));
                }
                self.attrs.push((k, value.to_owned()));
                proof {
                    assert(entries_view(self.attrs@) =~= ev.push((k@, value@)));
                    lemma_wf_frame(*old(self), *self);
                }
                None
            },
        }
    }

    /// Takes `k` out of the key order, if it is there.
    fn remove_key(&mut self, k: &String) -> (r: bool)
        requires
            old(self).wf(),
            !old(self).pinned().contains(k@),
        ensures
            r == old(self).key_list().contains(k@),
            final(self).key_list() == old(self).key_list().remove_value(k@),
            final(self).key_list().no_duplicates(),
            forall|x: Seq<char>| x != k@ && old(self).key_list().contains(x) ==> #[trigger] final(self).key_list().contains(x),
            final(self).value_map() == old(self).value_map(),
            final(self).alias_map() == old(self).alias_map(),
            final(self).pinned() == old(self).pinned(),
            final(self).default_name() == old(self).default_name(),
            distinct_names(entries_view(final(self).attrs@)),
            distinct_names(entries_view(final(self).aliases@)),
    {
        let ghost kl = self.key_list();
        match name_index(&self.keys, k) {
            Some(i) => {
                proof {
                    kl.index_of_first_ensures(k@);
                    assert(kl[i as int] == k@);
                    let f = kl.index_of_first(k@);
                    if f.unwrap() != i as int {
                        assert(kl[f.unwrap()] == k@);
                        assert(f.unwrap() > i || f.unwrap() < i);
                        assert(f.unwrap() > i);
                    }
                }
                self.keys.remove(i);
                proof {
                    assert(self.key_list() =~= kl.remove(i as int));
                    assert forall|x: Seq<char>| x != k@ && kl.contains(x) implies #[trigger] self.key_list().contains(x) by {
                        let j = choose|j: int| 0 <= j < kl.len() && kl[j] == x;
                        if j < i {
                            assert(self.key_list()[j] == x);
                        } else {
                            assert(j != i);
                            assert(self.key_list()[j - 1] == x);
                        }
                    }
                    assert forall|a: int, b: int| 0 <= a < self.key_list().len() && 0 <= b < self.key_list().len() && a != b
                        implies self.key_list()[a] != self.key_list()[b] by {
                        let a2 = if a < i { a } else { a + 1 };
                        let b2 = if b < i { b } else { b + 1 };
                        assert(kl[a2] != kl[b2]);
                    }
                }
                true
            },
            None => {
                proof {
                    assert forall|j: int| 0 <= j < kl.len() implies kl[j] != k@ by {
                        assert(self.keys@[j]@ != k@);
                    }
                    kl.index_of_first_ensures(k@);
                }
                false
            },
        }
    }

    pub fn set_attr_value(&mut self, alias: &str, value: &str) -> (r: Option<String>)
        requires
            old(self).wf(),
        ensures
            final(self).wf(),
            final(self).value_map() == old(self).value_map().insert(old(self).resolve(alias@), value@),
            match r {
                Some(v) => old(self).value_map().contains_key(old(self).resolve(alias@))
                    && v@ == old(self).value_map()[old(self).resolve(alias@)],
                None => !old(self).value_map().contains_key(old(self).resolve(alias@)),
            },
            final(self).key_list() == touched(old(self).key_list(), old(self).pinned(), old(self).resolve(alias@)),
            final(self).alias_map() == old(self).alias_map(),
            final(self).pinned() == old(self).pinned(),
            final(self).default_name() == old(self).default_name(),
    {
        let key = match self.key_by_alias(alias) {
            Some(k) => k,
            None => alias.to_owned(),
        };
        proof {
            if !self.key_list().contains(alias@) && self.alias_map().contains_key(alias@) {
                assert(self.key_list().contains(key@));
            }
        }
        if !self.is_keep_order_key(key.as_str()) {
            self.move_to_end(&key);
        }
        self.store_value(key, value)
    }

    /// Moves the unpinned key `k` to the end of the order, appending it if it
    /// was absent.
    fn move_to_end(&mut self, k: &String)
        requires
            old(self).wf(),
            !old(self).pinned().contains(k@),
        ensures
            final(self).wf(),
            final(self).key_list() == old(self).key_list().remove_value(k@).push(k@),
            final(self).value_map() == old(self).value_map(),
            final(self).alias_map() == old(self).alias_map(),
            final(self).pinned() == old(self).pinned(),
            final(self).default_name() == old(self).default_name(),
    {
        let ghost kl = self.key_list();
        self.remove_key(k);
        let ghost mid = self.key_list();
        proof {
            kl.index_of_first_ensures(k@);
            assert(!mid.contains(k@)) by {
                if mid.contains(k@) {
                    let j = choose|j: int| 0 <= j < mid.len() && mid[j] == k@;
                    if kl.contains(k@) {
                        let i = kl.index_of_first(k@).unwrap();
                        if j < i {
                            assert(kl[j] == k@);
                        } else {
                            assert(kl[j + 1] == k@);
                            assert(kl[i] == k@);
                        }
                    } else {
                        assert(mid == kl);
                        assert(kl[j] == k@);
                    }
                }
            }
        }
        self.keys.push(k.clone());
        proof {
            assert(self.key_list() =~= mid.push(k@));
            lemma_push_keeps(mid, k@);
            assert forall|a: Seq<char>| #[trigger] self.alias_map().contains_key(a)
                implies self.key_list().contains(self.alias_map()[a]) by {
                assert(old(self).alias_map() == self.alias_map());
                assert(old(self).alias_map().contains_key(a));
                let t = self.alias_map()[a];
                if t == k@ {
                    assert(self.key_list()[mid.len() as int] == k@);
                } else {
                    assert(kl.contains(t));
                    assert(mid.contains(t));
                }
            }
            assert forall|x: Seq<char>| #[trigger] self.pinned().contains(x)
                implies self.key_list().contains(x) by {
                assert(old(self).pinned() == self.pinned());
                assert(old(self).pinned().contains(x));
                assert(x != k@);
                assert(kl.contains(x));
                assert(mid.contains(x));
            }
        }
    }

    pub fn set_default_attr(&mut self, value: &str) -> (r: Option<String>)
        requires
            old(self).wf(),
        ensures
            final(self).wf(),
            final(self).value_map() == old(self).value_map().insert(old(self).default_name(), value@),
            match r {
                Some(v) => old(self).value_map().contains_key(old(self).default_name())
                    && v@ == old(self).value_map()[old(self).default_name()],
                None => !old(self).value_map().contains_key(old(self).default_name()),
            },
            final(self).key_list() == (if !old(self).pinned().contains(old(self).default_name())
                && old(self).key_list().contains(old(self).default_name()) {
                old(self).key_list().remove_value(old(self).default_name()).push(old(self).default_name())
            } else {
                old(self).key_list()
            }),
            final(self).alias_map() == old(self).alias_map(),
            final(self).pinned() == old(self).pinned(),
            final(self).default_name() == old(self).default_name(),
    {
        let key = self.default_key.clone();
        if !self.is_keep_order_key(key.as_str()) {
            if self.find_key(key.as_str()).is_some() {
                self.move_to_end(&key);
            }
        }
        self.store_value(key, value)
    }

    pub fn add_key(&mut self, key: &str) -> (r: String)
        requires
            old(self).wf(),
        ensures
            final(self).wf(),
            r@ == key@,
            final(self).key_list() == with_key(old(self).key_list(), key@),
            final(self).value_map() == old(self).value_map(),
            final(self).alias_map() == old(self).alias_map(),
            final(self).pinned() == old(self).pinned(),
            final(self).default_name() == old(self).default_name(),
    {
        match self.find_key(key) {
            Some(k) => k,
            None => {
                let k = key.to_owned();
                self.keys.push(k.clone());
                proof {
                    let ol = old(self).key_list();
                    assert(self.key_list() =~= ol.push(key@));
                    lemma_push_keeps(ol, key@);
                    assert forall|a: Seq<char>| #[trigger] self.alias_map().contains_key(a)
                        implies self.key_list().contains(self.alias_map()[a]) by {
                        assert(old(self).alias_map() == self.alias_map());
                        assert(old(self).alias_map().contains_key(a));
                        assert(ol.contains(self.alias_map()[a]));
                    }
                    assert forall|x: Seq<char>| #[trigger] self.pinned().contains(x)
                        implies self.key_list().contains(x) by {
                        assert(old(self).pinned() == self.pinned());
                        assert(old(self).pinned().contains(x));
                        assert(ol.contains(x));
                    }
                }
                k
            },
        }
    }

    pub fn add_keep_order_key(&mut self, key: &str) -> (r: String)
        requires
            old(self).wf(),
        ensures
            final(self).wf(),
            r@ == key@,
            final(self).key_list() == with_key(old(self).key_list(), key@),
            final(self).pinned() == with_key(old(self).pinned(), key@),
            final(self).value_map() == old(self).value_map(),
            final(self).alias_map() == old(self).alias_map(),
            final(self).default_name() == old(self).default_name(),
    {
        let k = self.add_key(key);
        proof {
            lemma_with_key_contains(old(self).key_list(), key@);
        }
        if !self.is_keep_order_key(key) {
            let ghost before = self.pinned();
            let ghost kl = self.key_list();
            assert(forall|x: Seq<char>| #[trigger] before.contains(x) ==> kl.contains(x));
            self.keep_order_keys.push(k.clone());
            proof {
                assert(self.pinned() =~= before.push(key@));
                assert(self.key_list().contains(key@));
                assert forall|x: Seq<char>| #[trigger] self.pinned().contains(x) implies self.key_list().contains(x) by {
                    if x != key@ {
                        let i = choose|i: int| 0 <= i < self.pinned().len() && self.pinned()[i] == x;
                        assert(before[i] == x);
                        assert(before.contains(x));
                    }
                }
            }
        }
        k
    }

    pub fn key_by_alias(&self, alias: &str) -> (r: Option<String>)
        requires
            self.wf(),
        ensures
            match r {
                Some(k) => (self.key_list().contains(alias@) || self.alias_map().contains_key(alias@))
                    && k@ == self.resolve(alias@),
                None => !self.key_list().contains(alias@) && !self.alias_map().contains_key(alias@),
            },
    {
        match self.find_key(alias) {
            Some(k) => Some(k),
            None => {
                let a = alias.to_owned();
                match entry_index(&self.aliases, &a) {
                    Some(i) => {
                        proof {
                            let ev = entries_view(self.aliases@);
                            lemma_entries_map_at(ev, i as int);
                        }
                        Some(self.aliases[i].1.clone())
                    },
                    None => {
                        proof {
                            let ev = entries_view(self.aliases@);
                            lemma_entries_map_domain(ev, alias@);
                            assert forall|i: int| 0 <= i < ev.len() implies ev[i].0 != alias@ by {
                                assert(self.aliases@[i].0@ != alias@);
                            }
                        }
                        None
                    },
                }
            },
        }
    }

    pub fn add_aliases(&mut self, key: &str, aliases: &[String]) -> (r: Result<(), TodoError>)
        requires
            old(self).wf(),
        ensures
            final(self).wf(),
            final(self).key_list() == old(self).key_list(),
            final(self).value_map() == old(self).value_map(),
            final(self).pinned() == old(self).pinned(),
            final(self).default_name() == old(self).default_name(),
            !old(self).key_list().contains(key@) ==> final(self).alias_map() == old(self).alias_map()
                && (r matches Err(TodoError::KeyNotFound { key: k }) && k@ == key@),
            old(self).key_list().contains(key@) ==> ({
                let (m, bad) = alias_fold(old(self).alias_map(), key@, names_view(aliases@));
                &&& final(self).alias_map() == m
                &&& match bad {
                    None => r is Ok,
                    Some(a) => r matches Err(TodoError::AliasAlreadyExists { alias: x, key: k })
                        && x@ == a && k@ == key@,
                }
            }),
    {
        match self.find_key(key) {
            None => Err(TodoError::KeyNotFound { key: key.to_owned() }),
            Some(k) => {
                let ghost als = names_view(aliases@);
                let ghost goal = alias_fold(old(self).alias_map(), key@, als);
                let mut i: usize = 0;
                proof {
                    assert(als.subrange(0, als.len() as int) =~= als);
                }
                while i < aliases.len()
                    invariant
                        self.wf(),
                        k@ == key@,
                        self.key_list().contains(key@),
                        i <= aliases.len(),
                        als == names_view(aliases@),
                        goal == alias_fold(old(self).alias_map(), key@, als),
                        self.key_list() == old(self).key_list(),
                        self.value_map() == old(self).value_map(),
                        self.pinned() == old(self).pinned(),
                        self.default_name() == old(self).default_name(),
                        alias_fold(self.alias_map(), key@, als.subrange(i as int, als.len() as int))
                            == goal,
                    decreases aliases.len() - i,
                {
                    let ghost rest = als.subrange(i as int, als.len() as int);
                    assert(rest[0] == aliases@[i as int]@);
                    assert(rest.drop_first() =~= als.subrange(i + 1, als.len() as int));
                    let alias = aliases[i].clone();
                    let ghost ev = entries_view(self.aliases@);
                    match entry_index(&self.aliases, &alias) {
                        Some(j) => {
                            proof {
                                lemma_entries_map_at(ev, j as int);
                            }
                            if !(self.aliases[j].1 == k) {
                                proof {
                                    assert(ev[j as int].0 == rest[0]);
                                    assert(self.alias_map().contains_key(rest[0]));
                                    assert(self.alias_map()[rest[0]] != key@);
                                    assert(alias_fold(self.alias_map(), key@, rest) == (self.alias_map(), Some(rest[0])));

                                }
                                return Err(TodoError::AliasAlreadyExists { alias, key: k });
                            }
                            proof {
                                assert(self.alias_map().insert(alias@, key@) =~= self.alias_map());
                            }
                        },
                        None => {
                            proof {
                                lemma_entries_map_domain(ev, alias@);
                                assert forall|x: int| 0 <= x < ev.len() implies ev[x].0 != alias@ by {
                                    assert(self.aliases@[x].0@ != alias@);
                                }
                                lemma_entries_push_distinct(ev, (alias@, k@));
                            }
                            let ghost before = self.alias_map();
                            self.aliases.push((alias, k.clone()));
                            proof {
                                assert(entries_view(self.aliases@) =~= ev.push((alias@, k@)));
                                assert(self.alias_map() == before.insert(alias@, key@));
                            }
                        },
                    }
                    i += 1;
                }
                proof {
                    assert(als.subrange(i as int, als.len() as int).len() == 0);
                }
                Ok(())
            },
        }
    }
}

impl Default for Attrs {
    /// An empty registry whose default key is the empty name.
    fn default() -> (r: Attrs)
        ensures
            r.wf(),
            r.key_list() == Seq::<Seq<char>>::empty(),
            r.value_map() == Map::<Seq<char>, Seq<char>>::empty(),
            r.alias_map() == Map::<Seq<char>, Seq<char>>::empty(),
            r.pinned() == Seq::<Seq<char>>::empty(),
            r.default_name() == Seq::<char>::empty(),
    {
        let r = Attrs {
            attrs: Vec::new(),
            aliases: Vec::new(),
            keep_order_keys: Vec::new(),
            keys: Vec::new(),
            default_key: String::new(),
        };
        proof {
            assert(r.key_list() =~= Seq::<Seq<char>>::empty());
            assert(r.pinned() =~= Seq::<Seq<char>>::empty());
            assert(entries_view(r.attrs@) =~= Seq::empty());
            assert(entries_view(r.aliases@) =~= Seq::empty());
        }
        r
    }
}

/// Registering a key that is already registered changes nothing: adding a
/// key twice leaves the same order as adding it once, and no key is listed
/// twice.
pub proof fn lemma_add_key_idempotent(a: Attrs, k: Seq<char>)
    requires
        a.wf(),
    ensures
        with_key(with_key(a.key_list(), k), k) == with_key(a.key_list(), k),
        with_key(a.key_list(), k).no_duplicates(),
        with_key(a.key_list(), k).contains(k),
{
    lemma_with_key_contains(a.key_list(), k);
    if !a.key_list().contains(k) {
        lemma_push_keeps(a.key_list(), k);
    }
}

/// An alias bound to one key cannot be bound to another registered key: the
/// registration fails on that alias and the alias table stays as it was.
pub proof fn lemma_alias_collision(a: Attrs, alias: Seq<char>, k2: Seq<char>)
    requires
        a.wf(),
        a.alias_map().contains_key(alias),
        a.alias_map()[alias] != k2,
        a.key_list().contains(k2),
    ensures
        alias_fold(a.alias_map(), k2, seq![alias]) == (a.alias_map(), Some(alias)),
{
}

/// Well-formedness rests only on the key order, the aliases, the pinned keys
/// and the distinctness of the stored names.
proof fn lemma_wf_frame(a: Attrs, b: Attrs)
    requires
        a.wf(),
        b.key_list() == a.key_list(),
        b.alias_map() == a.alias_map(),
        b.pinned() == a.pinned(),
        distinct_names(entries_view(b.attrs@)),
        distinct_names(entries_view(b.aliases@)),
    ensures
        b.wf(),
{
    assert forall|x: Seq<char>| #[trigger] b.alias_map().contains_key(x)
        implies b.key_list().contains(b.alias_map()[x]) by {
        assert(a.alias_map().contains_key(x));
    }
    assert forall|x: Seq<char>| #[trigger] b.pinned().contains(x) implies b.key_list().contains(x) by {
        assert(a.pinned().contains(x));
    }
}

/// A name is registered once `with_key` has added it.
pub proof fn lemma_with_key_contains(s: Seq<Seq<char>>, x: Seq<char>)
    ensures
        with_key(s, x).contains(x),
{
    if !s.contains(x) {
        assert(s.push(x)[s.len() as int] == x);
    }
}

/// Appending a new name keeps a list of distinct names distinct, and keeps
/// every name it held.
pub proof fn lemma_push_keeps(s: Seq<Seq<char>>, x: Seq<char>)
    requires
        s.no_duplicates(),
        !s.contains(x),
    ensures
        s.push(x).no_duplicates(),
        forall|y: Seq<char>| s.contains(y) ==> #[trigger] s.push(x).contains(y),
{
    assert forall|y: Seq<char>| s.contains(y) implies #[trigger] s.push(x).contains(y) by {
        let i = choose|i: int| 0 <= i < s.len() && s[i] == y;
        assert(s.push(x)[i] == y);
    }
    assert forall|i: int, j: int| 0 <= i < s.push(x).len() && 0 <= j < s.push(x).len() && i != j
        implies s.push(x)[i] != s.push(x)[j] by {
        if i == s.len() {
            assert(s[j] != x);
        } else if j == s.len() {
            assert(s[i] != x);
        }
    }
}

} // verus!
