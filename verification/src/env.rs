//! A snapshot of the process environment.
//!
//! Binding never touches the live environment: the host reads it once into an
//! [`EnvMap`] and hands that to the binder, which looks variables up by exact,
//! case-sensitive name.  A variable's value is either unicode text or the raw
//! bytes that failed to decode as unicode; the latter turn into a
//! [`NotUnicode`](crate::error::FromEnvError::NotUnicode) error when consulted.

use vstd::prelude::*;

verus! {

broadcast use vstd::seq_lib::seq_to_set_is_finite;

/// Mathematical image of one environment value: decoded text or raw bytes.
pub enum EnvData {
    /// The variable's value, decoded as unicode text.
    Text(Seq<char>),
    /// The variable's value could not be decoded; the raw bytes are kept.
    Raw(Seq<u8>),
}

/// One environment value: unicode text, or the raw bytes of a value that is
/// not valid unicode.
#[derive(Clone, Debug, PartialEq, Eq)]
pub enum EnvVal {
    /// A value that is valid unicode.
    Text(String),
    /// A value that is not valid unicode, kept as its raw bytes.
    Raw(Vec<u8>),
}

impl View for EnvVal {
    type V = EnvData;

    open spec fn view(&self) -> EnvData {
        match self {
            EnvVal::Text(s) => EnvData::Text(s@),
            EnvVal::Raw(b) => EnvData::Raw(b@),
        }
    }
}

/// A read-only snapshot of environment variables, viewed as a finite map from
/// variable name to value.
pub struct EnvMap {
    entries: Vec<(String, EnvVal)>,
}

impl EnvMap {
    /// The position of the entry whose key reads `k`; meaningful only when one
    /// exists and keys are distinct.
    spec fn index_of(s: Seq<(String, EnvVal)>, k: Seq<char>) -> int {
        choose|i: int| 0 <= i < s.len() && s[i].0@ == k
    }

    /// Keys hold pairwise distinct names, so that the map view is faithful.
    pub closed spec fn wf(self) -> bool {
        forall|i: int, j: int|
            0 <= i < j < self.entries@.len() ==> self.entries@[i].0@ != self.entries@[j].0@
    }

    /// The names of the entries, in order.
    spec fn key_seq(self) -> Seq<Seq<char>> {
        self.entries@.map_values(|e: (String, EnvVal)| e.0@)
    }

    /// Builds an empty snapshot.
    pub fn new() -> (r: Self)
        ensures
            r.wf(),
            r@ == Map::<Seq<char>, EnvData>::empty(),
    {
        let r = EnvMap { entries: Vec::new() };
        proof {
            assert(r@ =~= Map::<Seq<char>, EnvData>::empty());
        }
        r
    }

    /// Records `value` under `name`, replacing any previous value of `name`.
    pub fn insert(&mut self, name: String, value: EnvVal)
        requires
            old(self).wf(),
        ensures
            final(self).wf(),
            final(self)@ == old(self)@.insert(name@, value@),
    {
        let n = self.entries.len();
        let mut j: usize = 0;
        while j < n
            invariant
                old(self).wf(),
                n == self.entries@.len(),
                j <= n,
                *self == *old(self),
                forall|m: int| 0 <= m < j ==> self.entries@[m].0@ != name@,
            decreases n - j,
        {
            if self.entries[j].0 == name {
                self.entries[j] = (name, value);
                proof {
                    let j = j as int;
                    assert forall|i: int, m: int|
                        0 <= i < m < self.entries@.len() implies self.entries@[i].0@
                        != self.entries@[m].0@ by {
                        assert(old(self).entries@[i].0@ != old(self).entries@[m].0@);
                    }
                    assert(self@ =~= old(self)@.insert(name@, value@)) by {
                        lemma_view_update(*old(self), *self, j, name@, value@);
                    }
                }
                return ;
            }
            j += 1;
        }
        self.entries.push((name, value));
        proof {
            let k = n as int;
            assert forall|i: int, m: int|
                0 <= i < m < self.entries@.len() implies self.entries@[i].0@
                != self.entries@[m].0@ by {
                if m < k {
                    assert(old(self).entries@[i].0@ != old(self).entries@[m].0@);
                }
            }
            lemma_view_push(*old(self), *self, name@, value@);
        }
    }

    /// Looks `name` up, returning its value when the snapshot holds one.
    pub fn get(&self, name: &String) -> (r: Option<&EnvVal>)
        requires
            self.wf(),
        ensures
            match r {
                Some(v) => self@.contains_key(name@) && v@ == self@[name@],
                None => !self@.contains_key(name@),
            },
    {
        let n = self.entries.len();
        let mut j: usize = 0;
        while j < n
            invariant
                self.wf(),
                n == self.entries@.len(),
                j <= n,
                forall|m: int| 0 <= m < j ==> self.entries@[m].0@ != name@,
            decreases n - j,
        {
            if self.entries[j].0 == *name {
                proof {
                    let s = self.entries@;
                    let w = Self::index_of(s, name@);
                    assert(s[j as int].0@ == name@);
                    assert(0 <= w < s.len() && s[w].0@ == name@);
                    assert(w == j as int);
                }
                return Some(&self.entries[j].1);
            }
            j += 1;
        }
        None
    }

    /// The snapshot's domain is a finite set of names.
    pub proof fn lemma_dom_finite(self)
        ensures
            self@.dom().finite(),
    {
        let keys = self.key_seq();
        assert(self@.dom() =~= keys.to_set()) by {
            assert forall|k: Seq<char>| #[trigger] self@.dom().contains(k) implies keys.to_set().contains(
                k,
            ) by {
                let i = choose|i: int|
                    0 <= i < self.entries@.len() && self.entries@[i].0@ == k;
                assert(keys[i] == k);
            }
            assert forall|k: Seq<char>| #[trigger] keys.to_set().contains(k) implies self@.dom().contains(
                k,
            ) by {
                let i = choose|i: int| 0 <= i < keys.len() && keys[i] == k;
                assert(self.entries@[i].0@ == k);
            }
        }
        assert(keys.to_set().finite());
    }
}

impl View for EnvMap {
    type V = Map<Seq<char>, EnvData>;

    closed spec fn view(&self) -> Map<Seq<char>, EnvData> {
        Map::new(
            |k: Seq<char>|
                exists|i: int| 0 <= i < self.entries@.len() && self.entries@[i].0@ == k,
            |k: Seq<char>| self.entries@[Self::index_of(self.entries@, k)].1@,
        )
    }
}

/// After replacing the entry at `j`, whose old key already read `name`, the
/// view is the old view with `name` mapped to the new value.
proof fn lemma_view_update(pre: EnvMap, post: EnvMap, j: int, name: Seq<char>, value: EnvData)
    requires
        pre.wf(),
        post.wf(),
        0 <= j < pre.entries@.len(),
        pre.entries@[j].0@ == name,
        post.entries@ == pre.entries@.update(j, (post.entries@[j].0, post.entries@[j].1)),
        post.entries@[j].0@ == name,
        post.entries@[j].1@ == value,
    ensures
        post@ == pre@.insert(name, value),
{
    assert(post@ =~= pre@.insert(name, value)) by {
        assert forall|k: Seq<char>| #[trigger] post@.contains_key(k) implies pre@.insert(
            name,
            value,
        ).contains_key(k) by {
            let i = choose|i: int|
                0 <= i < post.entries@.len() && post.entries@[i].0@ == k;
            if i != j {
                assert(pre.entries@[i].0@ == k);
            }
        }
        assert forall|k: Seq<char>| #[trigger] pre@.insert(name, value).contains_key(k) implies post@.contains_key(
            k,
        ) by {
            if k == name {
                assert(post.entries@[j].0@ == k);
            } else {
                let i = choose|i: int|
                    0 <= i < pre.entries@.len() && pre.entries@[i].0@ == k;
                assert(post.entries@[i].0@ == k);
            }
        }
        assert forall|k: Seq<char>| post@.contains_key(k) && pre@.insert(name, value).contains_key(
            k,
        ) implies post@[k] == pre@.insert(name, value)[k] by {
            let w = EnvMap::index_of(post.entries@, k);
            assert(0 <= w < post.entries@.len() && post.entries@[w].0@ == k);
            if k == name {
                assert(w == j);
            } else {
                assert(w != j);
                assert(pre.entries@[w].0@ == k);
                let w2 = EnvMap::index_of(pre.entries@, k);
                assert(0 <= w2 < pre.entries@.len() && pre.entries@[w2].0@ == k);
                assert(w2 == w);
            }
        }
    }
}

/// After pushing an entry whose key is new, the view is the old view with
/// `name` mapped to the pushed value.
proof fn lemma_view_push(pre: EnvMap, post: EnvMap, name: Seq<char>, value: EnvData)
    requires
        pre.wf(),
        post.wf(),
        forall|i: int| 0 <= i < pre.entries@.len() ==> pre.entries@[i].0@ != name,
        post.entries@ == pre.entries@.push((post.entries@.last().0, post.entries@.last().1)),
        post.entries@.last().0@ == name,
        post.entries@.last().1@ == value,
    ensures
        post@ == pre@.insert(name, value),
{
    let n = pre.entries@.len() as int;
    assert(post@ =~= pre@.insert(name, value)) by {
        assert forall|k: Seq<char>| #[trigger] post@.contains_key(k) implies pre@.insert(
            name,
            value,
        ).contains_key(k) by {
            let i = choose|i: int|
                0 <= i < post.entries@.len() && post.entries@[i].0@ == k;
            if i < n {
                assert(pre.entries@[i].0@ == k);
            }
        }
        assert forall|k: Seq<char>| #[trigger] pre@.insert(name, value).contains_key(k) implies post@.contains_key(
            k,
        ) by {
            if k == name {
                assert(post.entries@[n].0@ == k);
            } else {
                let i = choose|i: int|
                    0 <= i < pre.entries@.len() && pre.entries@[i].0@ == k;
                assert(post.entries@[i].0@ == k);
            }
        }
        assert forall|k: Seq<char>| post@.contains_key(k) && pre@.insert(name, value).contains_key(
            k,
        ) implies post@[k] == pre@.insert(name, value)[k] by {
            let w = EnvMap::index_of(post.entries@, k);
            assert(0 <= w < post.entries@.len() && post.entries@[w].0@ == k);
            if k == name {
                assert(w == n);
            } else {
                assert(w < n);
                let w2 = EnvMap::index_of(pre.entries@, k);
                assert(0 <= w2 < pre.entries@.len() && pre.entries@[w2].0@ == k);
                assert(w2 == w);
            }
        }
    }
}

} // verus!
