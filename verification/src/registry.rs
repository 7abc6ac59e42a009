//! The prepared-state registry: a per-render mapping from a component's
//! stable key to the value its producer returned on the server.
//!
//! Keys are unique within one render and iteration order is render order, so
//! the registry is kept as the ordered sequence of entries in which they were
//! populated.

use vstd::prelude::*;

verus! {

/// Failure modes of the registry.
#[derive(PartialEq, Eq, Structural, Clone, Copy, Debug)]
pub enum RegistryError {
    /// `put` saw a key that this render already holds.
    DuplicateKey,
    /// A serialized payload was absent, truncated, ill-formed or of another
    /// version.
    MalformedRegistry,
}

/// No two entries share a key.
pub open spec fn unique_keys(entries: Seq<(Seq<char>, Seq<char>)>) -> bool {
    forall|i: int, j: int|
        0 <= i < j < entries.len() ==> (#[trigger] entries[i]).0 != (#[trigger] entries[j]).0
}

/// The value under `key`, scanning entries in render order.
pub open spec fn lookup(entries: Seq<(Seq<char>, Seq<char>)>, key: Seq<char>) -> Option<Seq<char>>
    decreases entries.len(),
{
    if entries.len() == 0 {
        None
    } else if entries[0].0 == key {
        Some(entries[0].1)
    } else {
        lookup(entries.drop_first(), key)
    }
}

/// The character sequences of a sequence of string pairs.
pub open spec fn entry_views(s: Seq<(String, String)>) -> Seq<(Seq<char>, Seq<char>)> {
    s.map_values(|e: (String, String)| (e.0@, e.1@))
}

/// Appending a pair appends its views.
pub proof fn lemma_entry_views_push(s: Seq<(String, String)>, e: (String, String))
    ensures
        entry_views(s.push(e)) == entry_views(s).push((e.0@, e.1@)),
{
    assert(entry_views(s.push(e)) =~= entry_views(s).push((e.0@, e.1@)));
}

/// The view of one pair within the viewed sequence.
pub proof fn lemma_entry_views_index(s: Seq<(String, String)>, i: int)
    requires
        0 <= i < s.len(),
    ensures
        entry_views(s)[i] == (s[i].0@, s[i].1@),
{
}

/// One render's prepared state, in the order it was populated.
#[derive(Debug)]
pub struct Registry {
    entries: Vec<(String, String)>,
}

impl View for Registry {
    type V = Seq<(Seq<char>, Seq<char>)>;

    closed spec fn view(&self) -> Seq<(Seq<char>, Seq<char>)> {
        entry_views(self.entries@)
    }
}

impl Registry {
    /// The registry's invariant: keys are unique within the render.
    pub open spec fn wf(&self) -> bool {
        unique_keys(self@)
    }

    /// Creates the empty registry bound to a new render.
    pub fn begin_render() -> (r: Registry)
        ensures
            r@ == Seq::<(Seq<char>, Seq<char>)>::empty(),
            r.wf(),
    {
        let r = Registry { entries: Vec::new() };
        proof {
            assert(r@ =~= Seq::<(Seq<char>, Seq<char>)>::empty());
        }
        r
    }

    /// How many entries this render has populated.
    pub fn len(&self) -> (n: usize)
        ensures
            n == self@.len(),
    {
        self.entries.len()
    }

    /// Whether `key` is already bound in this render.
    pub fn has_key(&self, key: &str) -> (r: bool)
        ensures
            r == (lookup(self@, key@) is Some),
    {
        let mut i: usize = 0;
        proof {
            assert(self@.skip(0) =~= self@);
        }
        while i < self.entries.len()
            invariant
                i <= self.entries.len(),
                lookup(self@, key@) == lookup(self@.skip(i as int), key@),
            decreases self.entries.len() - i,
        {
            let hit = crate::str_eq(self.entries[i].0.as_str(), key);
            proof {
                assert(self@.skip(i as int)[0] == self@[i as int]);
                assert(self@.skip(i as int).drop_first() =~= self@.skip(i as int + 1));
            }
            if hit {
                return true;
            }
            i = i + 1;
        }
        proof {
            assert(self@.skip(self@.len() as int).len() == 0);
        }
        false
    }

    /// Looks a key up, as the client does during hydration.
    pub fn get(&self, key: &str) -> (r: Option<String>)
        ensures
            match r {
                Some(v) => lookup(self@, key@) == Some(v@),
                None => lookup(self@, key@) is None,
            },
    {
        let mut i: usize = 0;
        proof {
            assert(self@.skip(0) =~= self@);
        }
        while i < self.entries.len()
            invariant
                i <= self.entries.len(),
                lookup(self@, key@) == lookup(self@.skip(i as int), key@),
            decreases self.entries.len() - i,
        {
            let hit = crate::str_eq(self.entries[i].0.as_str(), key);
            proof {
                assert(self@.skip(i as int)[0] == self@[i as int]);
                assert(self@.skip(i as int).drop_first() =~= self@.skip(i as int + 1));
            }
            if hit {
                return Some(self.entries[i].1.clone());
            }
            i = i + 1;
        }
        proof {
            assert(self@.skip(self@.len() as int).len() == 0);
        }
        None
    }

    /// Returns a copy of the entry at position `i` in render order.
    pub fn entry(&self, i: usize) -> (e: (String, String))
        requires
            i < self@.len(),
        ensures
            (e.0@, e.1@) == self@[i as int],
    {
        (self.entries[i].0.clone(), self.entries[i].1.clone())
    }

    /// Binds `key` to `value` in this render; a key may be bound once only.
    pub fn put(&mut self, key: String, value: String) -> (r: Result<(), RegistryError>)
        requires
            old(self).wf(),
        ensures
            final(self).wf(),
            match r {
                Ok(()) => lookup(old(self)@, key@) is None && final(self)@ == old(self)@.push(
                    (key@, value@),
                ),
                Err(e) => e == RegistryError::DuplicateKey && lookup(old(self)@, key@) is Some
                    && final(self)@ == old(self)@,
            },
    {
        if self.has_key(key.as_str()) {
            return Err(RegistryError::DuplicateKey);
        }
        let ghost pre = self@;
        self.entries.push((key, value));
        proof {
            assert(self@ =~= pre.push((key@, value@)));
            lemma_lookup_none_push_unique(pre, key@, value@);
        }
        Ok(())
    }
}

/// A key that occurs in no entry fails every lookup.
pub proof fn lemma_no_key_lookup_none(entries: Seq<(Seq<char>, Seq<char>)>, key: Seq<char>)
    requires
        forall|i: int| 0 <= i < entries.len() ==> (#[trigger] entries[i]).0 != key,
    ensures
        lookup(entries, key) is None,
    decreases entries.len(),
{
    if entries.len() > 0 {
        assert(entries[0].0 != key);
        assert(forall|i: int|
            0 <= i < entries.drop_first().len() ==> (#[trigger] entries.drop_first()[i])
                == entries[i + 1]);
        lemma_no_key_lookup_none(entries.drop_first(), key);
    }
}

/// An unbound key stays absent from every prefix, so pushing it keeps keys
/// unique.
pub proof fn lemma_lookup_none_push_unique(
    entries: Seq<(Seq<char>, Seq<char>)>,
    key: Seq<char>,
    value: Seq<char>,
)
    requires
        unique_keys(entries),
        lookup(entries, key) is None,
    ensures
        unique_keys(entries.push((key, value))),
{
    lemma_lookup_none_no_key(entries, key);
    let pushed = entries.push((key, value));
    assert forall|i: int, j: int| 0 <= i < j < pushed.len() implies (#[trigger] pushed[i]).0 != (
    #[trigger] pushed[j]).0 by {
        if j < entries.len() {
            assert(entries[i].0 != entries[j].0);
        } else {
            assert(pushed[j].0 == key);
            assert(pushed[i].0 == entries[i].0);
        }
    }
}

/// A key on which `lookup` succeeds occurs in some entry.
pub proof fn lemma_lookup_some_has_key(entries: Seq<(Seq<char>, Seq<char>)>, key: Seq<char>)
    requires
        lookup(entries, key) is Some,
    ensures
        exists|i: int| 0 <= i < entries.len() && (#[trigger] entries[i]).0 == key,
    decreases entries.len(),
{
    if entries.len() > 0 {
        if entries[0].0 == key {
            assert(entries[0].0 == key);
        } else {
            lemma_lookup_some_has_key(entries.drop_first(), key);
            let i = choose|i: int|
                0 <= i < entries.drop_first().len() && (#[trigger] entries.drop_first()[i]).0
                    == key;
            assert(entries[i + 1].0 == key);
        }
    }
}

/// A key on which `lookup` fails occurs in no entry.
pub proof fn lemma_lookup_none_no_key(entries: Seq<(Seq<char>, Seq<char>)>, key: Seq<char>)
    requires
        lookup(entries, key) is None,
    ensures
        forall|i: int| 0 <= i < entries.len() ==> (#[trigger] entries[i]).0 != key,
    decreases entries.len(),
{
    if entries.len() > 0 {
        lemma_lookup_none_no_key(entries.drop_first(), key);
        assert forall|i: int| 0 <= i < entries.len() implies (#[trigger] entries[i]).0 != key by {
            if i > 0 {
                assert(entries.drop_first()[i - 1] == entries[i]);
            }
        }
    }
}

} // verus!
