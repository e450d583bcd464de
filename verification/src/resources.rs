//! The table of fetched resources: a mapping from a reference string to the
//! outcome of resolving it. The caller fills it (it alone can read files and
//! talk to the network); the rewriting core only reads it. A reference that
//! is present maps either to its `(mime, bytes)` or to the failure it ended
//! in, so a failed fetch is not retried.

use vstd::prelude::*;

use crate::errors::FetchError;

verus! {

/// What resolving one reference produced.
pub enum Outcome {
    /// The resource was loaded: its MIME type and its raw bytes.
    Fetched { mime: Vec<u8>, bytes: Vec<u8> },
    /// The fetch failed; the reference will be left as it was.
    Failed(FetchError),
}

/// Fetched resources, keyed by the reference text. The first entry with a
/// given key wins; `insert` never adds a second one.
pub struct Resources {
    pub entries: Vec<(Vec<u8>, Outcome)>,
}

/// The outcome stored for `key`: that of the first entry carrying it.
pub open spec fn lookup(entries: Seq<(Vec<u8>, Outcome)>, key: Seq<u8>) -> Option<Outcome>
    decreases entries.len(),
{
    if entries.len() == 0 {
        None
    } else if entries[0].0@ == key {
        Some(entries[0].1)
    } else {
        lookup(entries.drop_first(), key)
    }
}

proof fn lemma_lookup_skip(entries: Seq<(Vec<u8>, Outcome)>, key: Seq<u8>, i: int)
    requires
        0 <= i <= entries.len(),
        forall|j: int| 0 <= j < i ==> entries[j].0@ != key,
    ensures
        lookup(entries, key) == lookup(entries.skip(i), key),
    decreases i,
{
    if i > 0 {
        lemma_lookup_skip(entries.drop_first(), key, i - 1);
        assert(entries.drop_first().skip(i - 1) =~= entries.skip(i));
    } else {
        assert(entries.skip(0) =~= entries);
    }
}

impl Resources {
    /// The outcome stored for `key`, if any.
    pub open spec fn get_spec(&self, key: Seq<u8>) -> Option<Outcome> {
        lookup(self.entries@, key)
    }

    /// An empty table.
    pub fn new() -> (r: Resources)
        ensures
            r.entries@.len() == 0,
    {
        Resources { entries: Vec::new() }
    }

    /// Look a reference up.
    #[verifier::loop_isolation(false)]
    pub fn get(&self, key: &[u8]) -> (r: Option<&Outcome>)
        ensures
            match r {
                Some(o) => self.get_spec(key@) == Some(*o),
                None => self.get_spec(key@) is None,
            },
    {
        let mut i: usize = 0;
        while i < self.entries.len()
            invariant
                0 <= i <= self.entries@.len(),
                forall|j: int| 0 <= j < i ==> self.entries@[j].0@ != key@,
            decreases self.entries@.len() - i,
        {
            if crate::bytes::eq_bytes(self.entries[i].0.as_slice(), key) {
                proof {
                    lemma_lookup_skip(self.entries@, key@, i as int);
                    assert(self.entries@.skip(i as int)[0] == self.entries@[i as int]);
                }
                return Some(&self.entries[i].1);
            }
            i += 1;
        }
        proof {
            lemma_lookup_skip(self.entries@, key@, i as int);
            assert(self.entries@.skip(i as int).len() == 0);
        }
        None
    }

    /// Is a reference present?
    pub fn contains(&self, key: &[u8]) -> (r: bool)
        ensures
            r == (self.get_spec(key@) is Some),
    {
        match self.get(key) {
            Some(_) => true,
            None => false,
        }
    }

    /// Record the outcome of one reference. A key that is already present is
    /// kept as it was: the first fetch of a reference is the one that counts.
    pub fn insert(&mut self, key: Vec<u8>, outcome: Outcome)
        ensures
            old(self).get_spec(key@) is Some ==> final(self).entries@ == old(self).entries@,
            old(self).get_spec(key@) is None ==> final(self).entries@ == old(self).entries@.push(
                (key, outcome),
            ),
            final(self).get_spec(key@) is Some,
    {
        if self.contains(key.as_slice()) {
            return;
        }
        let ghost old_entries = self.entries@;
        self.entries.push((key, outcome));
        proof {
            lemma_lookup_push(old_entries, self.entries@.last().0, self.entries@.last().1);
        }
    }
}

/// Pushing a fresh key makes it found.
proof fn lemma_lookup_push(entries: Seq<(Vec<u8>, Outcome)>, key: Vec<u8>, outcome: Outcome)
    requires
        lookup(entries, key@) is None,
    ensures
        lookup(entries.push((key, outcome)), key@) == Some(outcome),
    decreases entries.len(),
{
    if entries.len() == 0 {
        assert(entries.push((key, outcome))[0] == (key, outcome));
    } else {
        lemma_lookup_push(entries.drop_first(), key, outcome);
        assert(entries.push((key, outcome)).drop_first() =~= entries.drop_first().push(
            (key, outcome)));
    }
}

/// A key never inserted is never found: the table only answers for what was
/// recorded.
pub proof fn lemma_lookup_absent(entries: Seq<(Vec<u8>, Outcome)>, key: Seq<u8>)
    requires
        forall|j: int| 0 <= j < entries.len() ==> entries[j].0@ != key,
    ensures
        lookup(entries, key) is None,
    decreases entries.len(),
{
    if entries.len() > 0 {
        lemma_lookup_absent(entries.drop_first(), key);
    }
}

} // verus!
