//! The content/provenance model: authored edits, comments, generation
//! records, and the shared label map that resolves author and generator ids
//! to display names.
//!
//! Ids and timestamps are carried as opaque strings (a uuid string, an
//! ISO-8601 timestamp); the schema stores them verbatim and never computes
//! with them. In particular `Generated.start <= Generated.finish` is a
//! schema expectation that is deliberately not enforced anywhere.

use vstd::prelude::*;

verus! {

/// One authored edit or comment: who wrote it, when it was last modified,
/// and the text payload itself.
#[derive(Debug, PartialEq, Eq)]
pub struct Authored {
    pub author: String,
    pub modified: String,
    pub content: String,
}

/// One machine-generation event: which generator ran, over which time
/// window, with which configuration, and what it produced.
#[derive(Debug, PartialEq, Eq)]
pub struct Generated {
    pub generator: String,
    pub start: String,
    pub finish: String,
    pub config: String,
    pub output: String,
}

/// One entry of a node's append-only content log, tagged by kind.
#[derive(Debug, PartialEq, Eq)]
pub enum Content {
    Written(Authored),
    Comment(Authored),
    Generated(Generated),
}

impl Clone for Authored {
    fn clone(&self) -> (res: Self)
        ensures
            res == *self,
    {
        Authored {
            author: self.author.clone(),
            modified: self.modified.clone(),
            content: self.content.clone(),
        }
    }
}

impl Clone for Generated {
    fn clone(&self) -> (res: Self)
        ensures
            res == *self,
    {
        Generated {
            generator: self.generator.clone(),
            start: self.start.clone(),
            finish: self.finish.clone(),
            config: self.config.clone(),
            output: self.output.clone(),
        }
    }
}

impl Clone for Content {
    fn clone(&self) -> (res: Self)
        ensures
            res == *self,
    {
        match self {
            Content::Written(a) => Content::Written(a.clone()),
            Content::Comment(a) => Content::Comment(a.clone()),
            Content::Generated(g) => Content::Generated(g.clone()),
        }
    }
}

/// Spec-level lookup in an ordered list of `(id, name)` pairs: the name
/// paired with the last occurrence of `id`, if any.
pub open spec fn lookup(entries: Seq<(String, String)>, id: Seq<char>) -> Option<Seq<char>>
    decreases entries.len(),
{
    if entries.len() == 0 {
        None
    } else if entries.last().0@ == id {
        Some(entries.last().1@)
    } else {
        lookup(entries.drop_last(), id)
    }
}

/// The shared metadata map: display labels for author and generator ids,
/// kept as an ordered list of pairs with pairwise-distinct ids.
#[derive(Debug, PartialEq, Eq)]
pub struct SharedMetadata {
    labels: Vec<(String, String)>,
}

impl SharedMetadata {
    /// The label entries, in insertion order.
    pub closed spec fn entries(&self) -> Seq<(String, String)> {
        self.labels@
    }

    /// Well-formedness: no id occurs twice.
    pub open spec fn wf(&self) -> bool {
        forall|i: int, j: int|
            0 <= i < j < self.entries().len() ==> self.entries()[i].0@ != self.entries()[j].0@
    }

    /// Wraps an already-built entry list.
    pub(crate) fn from_entries(labels: Vec<(String, String)>) -> (res: Self)
        ensures
            res.entries() == labels@,
    {
        SharedMetadata { labels }
    }

    /// An empty label map.
    pub fn new() -> (res: Self)
        ensures
            res.entries() == Seq::<(String, String)>::empty(),
            res.wf(),
    {
        SharedMetadata { labels: Vec::new() }
    }

    /// The entries as a vector of `(id, name)` pairs, in insertion order.
    pub fn entry_list(&self) -> (res: &Vec<(String, String)>)
        ensures
            res@ == self.entries(),
    {
        &self.labels
    }

    /// The display name registered for `id`, if any.
    pub fn label_of(&self, id: &String) -> (res: Option<&String>)
        ensures
            match res {
                Some(name) => lookup(self.entries(), id@) == Some(name@),
                None => lookup(self.entries(), id@) is None,
            },
    {
        let mut k: usize = self.labels.len();
        proof {
            assert(self.labels@.subrange(0, self.labels@.len() as int) =~= self.labels@);
        }
        while k > 0
            invariant
                k <= self.labels@.len(),
                lookup(self.labels@, id@) == lookup(self.labels@.subrange(0, k as int), id@),
            decreases k,
    {
            k = k - 1;
            proof {
                let pre = self.labels@.subrange(0, k as int + 1);
                assert(pre.drop_last() =~= self.labels@.subrange(0, k as int));
                assert(pre.last() == self.labels@[k as int]);
            }
            if self.labels[k].0 == *id {
                return Some(&self.labels[k].1);
            }
        }
        proof {
            assert(self.labels@.subrange(0, 0) =~= Seq::<(String, String)>::empty());
        }
        None
    }

    /// Registers (or replaces) the display name for `id`. Every other id
    /// keeps its name, and the ids stay pairwise distinct.
    pub fn set_label(&mut self, id: String, name: String)
        requires
            old(self).wf(),
        ensures
            final(self).wf(),
            lookup(final(self).entries(), id@) == Some(name@),
            forall|other: Seq<char>|
                other != id@ ==> lookup(final(self).entries(), other) == lookup(
                    old(self).entries(),
                    other,
                ),
    {
        let mut k: usize = 0;
        while k < self.labels.len()
            invariant
                k <= self.labels@.len(),
                old(self).wf(),
                self.labels@ == old(self).entries(),
                forall|m: int| 0 <= m < k ==> self.labels@[m].0@ != id@,
            decreases self.labels@.len() - k,
        {
            if self.labels[k].0 == id {
                let ghost prev = self.labels@;
                self.labels.set(k, (id, name));
                proof {
                    let pair = (id, name);
                    assert(self.labels@ == prev.update(k as int, pair));
                    lemma_lookup_update(prev, k as int, pair);
                    assert(forall|m: int|
                        0 <= m < self.labels@.len() && m != k ==> self.labels@[m] == prev[m]);
                    assert(self.labels@[k as int].0@ == prev[k as int].0@);
                }
                return ;
            }
            k = k + 1;
        }
        let ghost prev = self.labels@;
        self.labels.push((id, name));
        proof {
            assert(self.labels@.drop_last() =~= prev);
            assert(self.labels@.last() == (id, name));
            assert(forall|m: int| 0 <= m < prev.len() ==> self.labels@[m] == prev[m]);
            assert(forall|m: int| 0 <= m < prev.len() ==> prev[m].0@ != id@);
        }
    }
}

/// Replacing the entry at `k` by one with the same id changes `lookup` for
/// that id alone: it now yields the new name, and every other id resolves
/// as before, provided the ids were pairwise distinct.
proof fn lemma_lookup_update(s: Seq<(String, String)>, k: int, pair: (String, String))
    requires
        0 <= k < s.len(),
        pair.0@ == s[k].0@,
        forall|a: int, b: int| 0 <= a < b < s.len() ==> s[a].0@ != s[b].0@,
    ensures
        lookup(s.update(k, pair), pair.0@) == Some(pair.1@),
        forall|other: Seq<char>|
            other != pair.0@ ==> lookup(s.update(k, pair), other) == lookup(s, other),
    decreases s.len(),
{
    let t = s.update(k, pair);
    if k == s.len() - 1 {
        assert(t.last() == pair);
        assert(t.drop_last() =~= s.drop_last());
        assert(lookup(t, pair.0@) == Some(pair.1@));
        assert forall|other: Seq<char>| other != pair.0@ implies lookup(t, other) == lookup(
            s,
            other,
        ) by {
            assert(t.last().0@ == pair.0@);
            assert(s.last().0@ == pair.0@);
            assert(lookup(t, other) == lookup(t.drop_last(), other));
            assert(lookup(s, other) == lookup(s.drop_last(), other));
        }
    } else {
        assert(t.last() == s.last());
        assert(t.drop_last() =~= s.drop_last().update(k, pair));
        lemma_lookup_update(s.drop_last(), k, pair);
        assert(s.last().0@ == s[s.len() - 1].0@);
        assert(s.last().0@ != s[k].0@);
        assert(lookup(t, pair.0@) == lookup(t.drop_last(), pair.0@));
        assert(lookup(t, pair.0@) == Some(pair.1@));
        assert forall|other: Seq<char>| other != pair.0@ implies lookup(t, other) == lookup(
            s,
            other,
        ) by {
            if s.last().0@ == other {
                assert(lookup(t, other) == Some(t.last().1@));
                assert(lookup(s, other) == Some(s.last().1@));
            } else {
                assert(lookup(t, other) == lookup(t.drop_last(), other));
                assert(lookup(s, other) == lookup(s.drop_last(), other));
            }
        }
    }
}

impl Clone for SharedMetadata {
    fn clone(&self) -> (res: Self)
        ensures
            res.entries() == self.entries(),
    {
        let mut out: Vec<(String, String)> = Vec::new();
        let mut k: usize = 0;
        while k < self.labels.len()
            invariant
                k <= self.labels.len(),
                out@ == self.labels@.subrange(0, k as int),
            decreases self.labels.len() - k,
        {
            let pair = (self.labels[k].0.clone(), self.labels[k].1.clone());
            assert(pair == self.labels@[k as int]);
            out.push(pair);
            assert(out@ =~= self.labels@.subrange(0, k as int + 1));
            k = k + 1;
        }
        assert(out@ =~= self.labels@);
        SharedMetadata { labels: out }
    }
}

} // verus!
