use vstd::prelude::*;

use crate::format::{find_char, find_char_from, lemma_find_char_bounds};
use crate::text::{chars_of, string_of};

verus! {

/// Splits `s` at its first `sep`: the text before it and the text after
/// it; without one, an empty text and the whole of `s`.
pub fn split_at_char(s: &str, sep: char) -> (r: (String, String))
    ensures
        match find_char(s@, 0, sep) {
            Some(i) => r.0@ == s@.subrange(0, i) && r.1@ == s@.subrange(i + 1, s@.len() as int),
            None => r.0@.len() == 0 && r.1@ == s@,
        },
{
    let v = chars_of(s);
    proof {
        lemma_find_char_bounds(v@, 0, sep);
    }
    match find_char_from(&v, 0, sep) {
        Some(i) => {
            let mut a: Vec<char> = Vec::new();
            let mut b: Vec<char> = Vec::new();
            let mut k: usize = 0;
            while k < v.len()
                invariant
                    i < v.len(),
                    k <= v.len(),
                    k <= i ==> a@ == v@.subrange(0, k as int) && b@.len() == 0,
                    k > i ==> a@ == v@.subrange(0, i as int) && b@ == v@.subrange(i + 1, k as int),
                decreases v.len() - k,
            {
                if k < i {
                    a.push(v[k]);
                } else if k > i {
                    b.push(v[k]);
                }
                k += 1;
                assert(k <= i ==> a@ =~= v@.subrange(0, k as int));
                assert(k > i ==> a@ =~= v@.subrange(0, i as int) && b@ =~= v@.subrange(i + 1, k as int));
            }
            (string_of(&a), string_of(&b))
        },
        None => (String::new(), s.to_owned()),
    }
}

/// Owned copies of borrowed texts.
pub trait ToStrings<T> {
    fn to_strings(&self) -> T;
}

impl<'a, 'b> ToStrings<(String, String)> for (&'a str, &'b str) {
    fn to_strings(&self) -> (r: (String, String))
        ensures
            r.0@ == self.0@,
            r.1@ == self.1@,
    {
        (self.0.to_owned(), self.1.to_owned())
    }
}

impl<'a, 'b> ToStrings<Option<(String, String)>> for Option<(&'a str, &'b str)> {
    fn to_strings(&self) -> (r: Option<(String, String)>)
        ensures
            self is None ==> r is None,
            self is Some ==> r is Some && r.unwrap().0@ == self.unwrap().0@ && r.unwrap().1@
                == self.unwrap().1@,
    {
        match self {
            Some(p) => Some(p.to_strings()),
            None => None,
        }
    }
}

impl<'a, 'b> ToStrings<(String, Option<String>)> for (&'a str, Option<&'b str>) {
    fn to_strings(&self) -> (r: (String, Option<String>))
        ensures
            r.0@ == self.0@,
            self.1 is None ==> r.1 is None,
            self.1 is Some ==> r.1 is Some && r.1.unwrap()@ == self.1.unwrap()@,
    {
        let second = match self.1 {
            Some(s) => Some(s.to_owned()),
            None => None,
        };
        (self.0.to_owned(), second)
    }
}

impl<'a> ToStrings<Vec<String>> for [&'a str] {
    fn to_strings(&self) -> (r: Vec<String>)
        ensures
            r@.len() == self@.len(),
            forall|i: int| 0 <= i < self@.len() ==> #[trigger] r@[i]@ == self@[i]@,
    {
        let mut r: Vec<String> = Vec::new();
        let mut i: usize = 0;
        while i < self.len()
            invariant
                i <= self@.len(),
                r@.len() == i,
                forall|j: int| 0 <= j < i ==> #[trigger] r@[j]@ == self@[j]@,
            decreases self@.len() - i,
        {
            r.push(self[i].to_owned());
            i += 1;
        }
        r
    }
}

impl<'a> ToStrings<Vec<(String, String)>> for [(&'a str, &'a str)] {
    fn to_strings(&self) -> (r: Vec<(String, String)>)
        ensures
            r@.len() == self@.len(),
            forall|i: int| 0 <= i < self@.len() ==> #[trigger] r@[i].0@ == self@[i].0@ && r@[i].1@
                == self@[i].1@,
    {
        let mut r: Vec<(String, String)> = Vec::new();
        let mut i: usize = 0;
        while i < self.len()
            invariant
                i <= self@.len(),
                r@.len() == i,
                forall|j: int| 0 <= j < i ==> #[trigger] r@[j].0@ == self@[j].0@ && r@[j].1@ == self@[j].1@,
            decreases self@.len() - i,
        {
            r.push((self[i].0.to_owned(), self[i].1.to_owned()));
            i += 1;
        }
        r
    }
}

} // verus!
