use vstd::prelude::*;

verus! {

use crate::rpc::CodeChunk;
use crate::strutil::str_eq;

/// Decides whether a chunk changed since it was last indexed, keyed by
/// chunk id.
#[derive(Debug, Default)]
pub struct FingerprintStore {
    entries: Vec<(String, String)>,
}

/// The fingerprint remembered for an id: the first entry that carries it.
pub open spec fn remembered(entries: Seq<(String, String)>, id: Seq<char>) -> Option<Seq<char>>
    decreases entries.len(),
{
    if entries.len() == 0 {
        None
    } else if entries[0].0@ == id {
        Some(entries[0].1@)
    } else {
        remembered(entries.drop_first(), id)
    }
}

pub open spec fn ids_unique(entries: Seq<(String, String)>) -> bool {
    forall|i: int, j: int|
        #![trigger entries[i], entries[j]]
        0 <= i < j < entries.len() ==> entries[i].0@ != entries[j].0@
}

proof fn lemma_remembered_at(entries: Seq<(String, String)>, id: Seq<char>, i: int)
    requires
        ids_unique(entries),
        0 <= i < entries.len(),
        entries[i].0@ == id,
    ensures
        remembered(entries, id) == Some(entries[i].1@),
    decreases entries.len(),
{
    if i == 0 {
    } else {
        assert(entries[0].0@ != id);
        assert(entries.drop_first()[i - 1] == entries[i]);
        assert forall|a: int, b: int|
            #![trigger entries.drop_first()[a], entries.drop_first()[b]]
            0 <= a < b < entries.drop_first().len() implies entries.drop_first()[a].0@
            != entries.drop_first()[b].0@ by {
            assert(entries.drop_first()[a] == entries[a + 1]);
            assert(entries.drop_first()[b] == entries[b + 1]);
        }
        lemma_remembered_at(entries.drop_first(), id, i - 1);
    }
}

proof fn lemma_remembered_absent(entries: Seq<(String, String)>, id: Seq<char>)
    requires
        forall|i: int| 0 <= i < entries.len() ==> (#[trigger] entries[i]).0@ != id,
    ensures
        remembered(entries, id) is None,
    decreases entries.len(),
{
    if entries.len() > 0 {
        assert forall|i: int|
            0 <= i < entries.drop_first().len() implies (#[trigger] entries.drop_first()[i]).0@
            != id by {
            assert(entries.drop_first()[i] == entries[i + 1]);
        }
        lemma_remembered_absent(entries.drop_first(), id);
    }
}

impl FingerprintStore {
    pub closed spec fn wf(self) -> bool {
        ids_unique(self.entries@)
    }

    pub closed spec fn remembered_spec(self, id: Seq<char>) -> Option<Seq<char>> {
        remembered(self.entries@, id)
    }

    pub fn new() -> (r: FingerprintStore)
        ensures
            r.wf(),
            forall|id: Seq<char>| #[trigger] r.remembered_spec(id) is None,
    {
        FingerprintStore { entries: Vec::new() }
    }

    /// A chunk needs indexing unless the exact fingerprint is already
    /// remembered for its id; either way the chunk's fingerprint is
    /// remembered afterwards.
    pub fn should_index(&mut self, chunk: &CodeChunk) -> (r: bool)
        requires
            old(self).wf(),
        ensures
            final(self).wf(),
            r == (old(self).remembered_spec(chunk.id@) != Some(chunk.fingerprint@)),
            final(self).remembered_spec(chunk.id@) == Some(chunk.fingerprint@),
    {
        let ghost orig = self.entries@;
        let n = self.entries.len();
        let mut i: usize = 0;
        let mut found = false;
        while !found && i < n
            invariant
                n == self.entries@.len(),
                self.entries@ == orig,
                i <= n,
                forall|k: int| 0 <= k < i ==> (#[trigger] orig[k]).0@ != chunk.id@,
                found ==> i < n && orig[i as int].0@ == chunk.id@,
            decreases n - i, !found as int,
        {
            if str_eq(self.entries[i].0.as_str(), chunk.id.as_str()) {
                found = true;
            } else {
                i = i + 1;
            }
        }
        if found {
            proof {
                lemma_remembered_at(orig, chunk.id@, i as int);
            }
            if str_eq(self.entries[i].1.as_str(), chunk.fingerprint.as_str()) {
                return false;
            }
            let _ = self.entries.remove(i);
            self.entries.insert(i, (chunk.id.clone(), chunk.fingerprint.clone()));
            proof {
                let now = self.entries@;
                assert forall|a: int, b: int|
                    #![trigger now[a], now[b]]
                    0 <= a < b < now.len() implies now[a].0@ != now[b].0@ by {
                    assert(now[a].0@ == orig[a].0@);
                    assert(now[b].0@ == orig[b].0@);
                }
                lemma_remembered_at(now, chunk.id@, i as int);
            }
            true
        } else {
            proof {
                lemma_remembered_absent(orig, chunk.id@);
            }
            self.entries.push((chunk.id.clone(), chunk.fingerprint.clone()));
            proof {
                let now = self.entries@;
                assert forall|a: int, b: int|
                    #![trigger now[a], now[b]]
                    0 <= a < b < now.len() implies now[a].0@ != now[b].0@ by {
                    if b == now.len() - 1 {
                        assert(now[a] == orig[a]);
                    } else {
                        assert(now[a] == orig[a]);
                        assert(now[b] == orig[b]);
                    }
                }
                lemma_remembered_at(now, chunk.id@, now.len() - 1);
            }
            true
        }
    }
}

} // verus!
