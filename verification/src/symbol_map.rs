use vstd::prelude::*;

verus! {

use crate::rpc::CodeChunk;
use crate::strutil::str_eq;

/// The exact-symbol lookup table: one chunk per symbol, the latest insert
/// winning.
#[derive(Debug, Default)]
pub struct SymbolMap {
    entries: Vec<(String, CodeChunk)>,
}

/// The chunk stored under a symbol: the first entry that carries it.
pub open spec fn stored(entries: Seq<(String, CodeChunk)>, symbol: Seq<char>) -> Option<CodeChunk>
    decreases entries.len(),
{
    if entries.len() == 0 {
        None
    } else if entries[0].0@ == symbol {
        Some(entries[0].1)
    } else {
        stored(entries.drop_first(), symbol)
    }
}

pub open spec fn symbols_unique(entries: Seq<(String, CodeChunk)>) -> bool {
    forall|i: int, j: int|
        #![trigger entries[i], entries[j]]
        0 <= i < j < entries.len() ==> entries[i].0@ != entries[j].0@
}

proof fn lemma_stored_at(entries: Seq<(String, CodeChunk)>, symbol: Seq<char>, i: int)
    requires
        symbols_unique(entries),
        0 <= i < entries.len(),
        entries[i].0@ == symbol,
    ensures
        stored(entries, symbol) == Some(entries[i].1),
    decreases entries.len(),
{
    if i == 0 {
    } else {
        assert(entries[0].0@ != symbol);
        assert(entries.drop_first()[i - 1] == entries[i]);
        assert forall|a: int, b: int|
            #![trigger entries.drop_first()[a], entries.drop_first()[b]]
            0 <= a < b < entries.drop_first().len() implies entries.drop_first()[a].0@
            != entries.drop_first()[b].0@ by {
            assert(entries.drop_first()[a] == entries[a + 1]);
            assert(entries.drop_first()[b] == entries[b + 1]);
        }
        lemma_stored_at(entries.drop_first(), symbol, i - 1);
    }
}

proof fn lemma_stored_absent(entries: Seq<(String, CodeChunk)>, symbol: Seq<char>)
    requires
        forall|i: int| 0 <= i < entries.len() ==> (#[trigger] entries[i]).0@ != symbol,
    ensures
        stored(entries, symbol) is None,
    decreases entries.len(),
{
    if entries.len() > 0 {
        assert forall|i: int|
            0 <= i < entries.drop_first().len() implies (#[trigger] entries.drop_first()[i]).0@
            != symbol by {
            assert(entries.drop_first()[i] == entries[i + 1]);
        }
        lemma_stored_absent(entries.drop_first(), symbol);
    }
}

impl SymbolMap {
    pub closed spec fn wf(self) -> bool {
        symbols_unique(self.entries@)
    }

    pub closed spec fn stored_spec(self, symbol: Seq<char>) -> Option<CodeChunk> {
        stored(self.entries@, symbol)
    }

    pub fn new() -> (r: SymbolMap)
        ensures
            r.wf(),
            forall|s: Seq<char>| #[trigger] r.stored_spec(s) is None,
    {
        SymbolMap { entries: Vec::new() }
    }

    /// Stores a chunk under its symbol; a chunk without a symbol is
    /// ignored.
    pub fn insert(&mut self, chunk: CodeChunk)
        requires
            old(self).wf(),
        ensures
            final(self).wf(),
            match chunk.symbol {
                Some(s) => final(self).stored_spec(s@) == Some(chunk),
                None => *final(self) == *old(self),
            },
    {
        let symbol: String = match &chunk.symbol {
            Some(s) => s.clone(),
            None => {
                return ;
            },
        };
        let ghost orig = self.entries@;
        let n = self.entries.len();
        let mut i: usize = 0;
        let mut found = false;
        while !found && i < n
            invariant
                n == self.entries@.len(),
                self.entries@ == orig,
                symbol@ == chunk.symbol->Some_0@,
                i <= n,
                forall|k: int| 0 <= k < i ==> (#[trigger] orig[k]).0@ != symbol@,
                found ==> i < n && orig[i as int].0@ == symbol@,
            decreases n - i, !found as int,
        {
            if str_eq(self.entries[i].0.as_str(), symbol.as_str()) {
                found = true;
            } else {
                i = i + 1;
            }
        }
        if found {
            let _ = self.entries.remove(i);
            self.entries.insert(i, (symbol, chunk));
            proof {
                let now = self.entries@;
                assert forall|a: int, b: int|
                    #![trigger now[a], now[b]]
                    0 <= a < b < now.len() implies now[a].0@ != now[b].0@ by {
                    assert(now[a].0@ == orig[a].0@);
                    assert(now[b].0@ == orig[b].0@);
                }
                lemma_stored_at(now, now[i as int].0@, i as int);
            }
        } else {
            self.entries.push((symbol, chunk));
            proof {
                let now = self.entries@;
                assert forall|a: int, b: int|
                    #![trigger now[a], now[b]]
                    0 <= a < b < now.len() implies now[a].0@ != now[b].0@ by {
                    if b == now.len() - 1 {
                        assert(now[a] == orig[a]);
                    } else {
                        assert(now[a] == orig[a]);
                        assert(now[b] == orig[b]);
                    }
                }
                lemma_stored_at(now, now[now.len() - 1].0@, now.len() - 1);
            }
        }
    }

    /// The chunk stored under a symbol, if any.
    pub fn get(&self, symbol: &str) -> (r: Option<&CodeChunk>)
        requires
            self.wf(),
        ensures
            match r {
                Some(c) => self.stored_spec(symbol@) == Some(*c),
                None => self.stored_spec(symbol@) is None,
            },
    {
        let n = self.entries.len();
        let mut i: usize = 0;
        while i < n
            invariant
                self.wf(),
                n == self.entries@.len(),
                i <= n,
                forall|k: int| 0 <= k < i ==> (#[trigger] self.entries@[k]).0@ != symbol@,
            decreases n - i,
        {
            if str_eq(self.entries[i].0.as_str(), symbol) {
                proof {
                    lemma_stored_at(self.entries@, symbol@, i as int);
                }
                return Some(&self.entries[i].1);
            }
            i = i + 1;
        }
        proof {
            lemma_stored_absent(self.entries@, symbol@);
        }
        None
    }
}

} // verus!
