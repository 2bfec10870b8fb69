use vstd::prelude::*;

verus! {

/// Counters of the indexing pipeline.
#[derive(Debug, Clone, PartialEq, Eq)]
pub struct IndexerTelemetry {
    queue_depth: u64,
    chunks_indexed: u64,
    last_index_unix_ms: u64,
    embedded_items: u64,
}

#[derive(Debug, Clone, PartialEq, Eq, Structural)]
pub struct IndexerTelemetrySnapshot {
    pub queue_depth: u64,
    pub chunks_indexed: u64,
    pub last_index_unix_ms: u64,
    pub embedded_items: u64,
}

impl Default for IndexerTelemetry {
    fn default() -> (r: Self)
        ensures
            r.snapshot_spec() == (IndexerTelemetrySnapshot {
                queue_depth: 0,
                chunks_indexed: 0,
                last_index_unix_ms: 0,
                embedded_items: 0,
            }),
    {
        IndexerTelemetry {
            queue_depth: 0,
            chunks_indexed: 0,
            last_index_unix_ms: 0,
            embedded_items: 0,
        }
    }
}

impl IndexerTelemetry {
    pub closed spec fn snapshot_spec(self) -> IndexerTelemetrySnapshot {
        IndexerTelemetrySnapshot {
            queue_depth: self.queue_depth,
            chunks_indexed: self.chunks_indexed,
            last_index_unix_ms: self.last_index_unix_ms,
            embedded_items: self.embedded_items,
        }
    }

    pub fn set_queue_depth(&mut self, depth: u64)
        ensures
            final(self).snapshot_spec() == (IndexerTelemetrySnapshot {
                queue_depth: depth,
                ..old(self).snapshot_spec()
            }),
    {
        self.queue_depth = depth;
    }

    /// Saturates at the counter's maximum rather than wrapping.
    pub fn inc_chunks_indexed(&mut self, count: u64)
        ensures
            final(self).snapshot_spec() == (IndexerTelemetrySnapshot {
                chunks_indexed: if old(self).snapshot_spec().chunks_indexed + count <= u64::MAX {
                    (old(self).snapshot_spec().chunks_indexed + count) as u64
                } else {
                    u64::MAX
                },
                ..old(self).snapshot_spec()
            }),
    {
        if self.chunks_indexed <= u64::MAX - count {
            self.chunks_indexed = self.chunks_indexed + count;
        } else {
            self.chunks_indexed = u64::MAX;
        }
    }

    pub fn set_last_index_unix_ms(&mut self, timestamp: u64)
        ensures
            final(self).snapshot_spec() == (IndexerTelemetrySnapshot {
                last_index_unix_ms: timestamp,
                ..old(self).snapshot_spec()
            }),
    {
        self.last_index_unix_ms = timestamp;
    }

    pub fn inc_embedded_items(&mut self, count: u64)
        ensures
            final(self).snapshot_spec() == (IndexerTelemetrySnapshot {
                embedded_items: if old(self).snapshot_spec().embedded_items + count <= u64::MAX {
                    (old(self).snapshot_spec().embedded_items + count) as u64
                } else {
                    u64::MAX
                },
                ..old(self).snapshot_spec()
            }),
    {
        if self.embedded_items <= u64::MAX - count {
            self.embedded_items = self.embedded_items + count;
        } else {
            self.embedded_items = u64::MAX;
        }
    }

    pub fn snapshot(&self) -> (r: IndexerTelemetrySnapshot)
        ensures
            r == self.snapshot_spec(),
    {
        IndexerTelemetrySnapshot {
            queue_depth: self.queue_depth,
            chunks_indexed: self.chunks_indexed,
            last_index_unix_ms: self.last_index_unix_ms,
            embedded_items: self.embedded_items,
        }
    }
}

/// Batch-level metrics of the embedding worker.
#[derive(Debug, Clone, PartialEq, Eq)]
pub struct EmbeddingWorkerMetrics {
    batches_processed: u64,
    items_processed: u64,
    failures: u64,
    total_latency_ms: u64,
}

#[derive(Debug, Clone, Copy, PartialEq, Eq, Structural)]
pub struct EmbeddingWorkerMetricsSnapshot {
    pub batches_processed: u64,
    pub items_processed: u64,
    pub failures: u64,
    pub avg_latency_ms: u64,
}

#[derive(Debug, Clone, PartialEq, Eq)]
pub struct EmbeddingWorkerConfig {
    pub batch_size: usize,
    pub max_retries: usize,
}

impl Default for EmbeddingWorkerConfig {
    fn default() -> (r: Self)
        ensures
            r.batch_size == 128,
            r.max_retries == 2,
    {
        EmbeddingWorkerConfig { batch_size: 128, max_retries: 2 }
    }
}

impl Default for EmbeddingWorkerMetrics {
    fn default() -> (r: Self)
        ensures
            r.counts_spec() == (0u64, 0u64, 0u64, 0u64),
    {
        EmbeddingWorkerMetrics {
            batches_processed: 0,
            items_processed: 0,
            failures: 0,
            total_latency_ms: 0,
        }
    }
}

impl EmbeddingWorkerMetrics {
    /// `(batches, items, failures, total latency)`.
    pub closed spec fn counts_spec(self) -> (u64, u64, u64, u64) {
        (self.batches_processed, self.items_processed, self.failures, self.total_latency_ms)
    }

    /// Records one successful batch; counters saturate rather than wrap.
    pub fn record_batch(&mut self, items: usize, latency_ms: u64)
        ensures
            final(self).counts_spec().0 == (if old(self).counts_spec().0 + 1 <= u64::MAX {
                old(self).counts_spec().0 + 1
            } else {
                u64::MAX as int
            }),
            final(self).counts_spec().1 == (if old(self).counts_spec().1 + items <= u64::MAX {
                old(self).counts_spec().1 + items
            } else {
                u64::MAX as int
            }),
            final(self).counts_spec().2 == old(self).counts_spec().2,
            final(self).counts_spec().3 == (if old(self).counts_spec().3 + latency_ms
                <= u64::MAX {
                old(self).counts_spec().3 + latency_ms
            } else {
                u64::MAX as int
            }),
    {
        if self.batches_processed < u64::MAX {
            self.batches_processed = self.batches_processed + 1;
        }
        if self.items_processed <= u64::MAX - items as u64 {
            self.items_processed = self.items_processed + items as u64;
        } else {
            self.items_processed = u64::MAX;
        }
        if self.total_latency_ms <= u64::MAX - latency_ms {
            self.total_latency_ms = self.total_latency_ms + latency_ms;
        } else {
            self.total_latency_ms = u64::MAX;
        }
    }

    pub fn record_failure(&mut self)
        ensures
            final(self).counts_spec().2 == (if old(self).counts_spec().2 + 1 <= u64::MAX {
                old(self).counts_spec().2 + 1
            } else {
                u64::MAX as int
            }),
            final(self).counts_spec().0 == old(self).counts_spec().0,
            final(self).counts_spec().1 == old(self).counts_spec().1,
            final(self).counts_spec().3 == old(self).counts_spec().3,
    {
        if self.failures < u64::MAX {
            self.failures = self.failures + 1;
        }
    }

    /// The averaged view: total latency over batches, zero when nothing ran.
    pub fn snapshot(&self) -> (r: EmbeddingWorkerMetricsSnapshot)
        ensures
            r.batches_processed == self.counts_spec().0,
            r.items_processed == self.counts_spec().1,
            r.failures == self.counts_spec().2,
            r.avg_latency_ms == (if self.counts_spec().0 == 0 {
                0u64 as int
            } else {
                self.counts_spec().3 as int / self.counts_spec().0 as int
            }),
    {
        let avg = if self.batches_processed == 0 {
            0
        } else {
            self.total_latency_ms / self.batches_processed
        };
        EmbeddingWorkerMetricsSnapshot {
            batches_processed: self.batches_processed,
            items_processed: self.items_processed,
            failures: self.failures,
            avg_latency_ms: avg,
        }
    }
}

/// One job for the embedding worker.
#[derive(Debug, Clone, PartialEq, Eq)]
pub struct EmbeddingJob {
    pub chunk_id: String,
    pub text: String,
}

/// Per-project runtime status the supervisor maintains.
#[derive(Debug, Clone, PartialEq, Eq)]
pub struct ProjectRuntimeStatus {
    pub project_path: String,
    pub active_watcher: bool,
    pub queue_depth: u64,
    pub chunks_indexed: u64,
    pub last_indexed_unix_ms: u64,
    pub last_error: Option<String>,
}

/// The supervisor's `project path -> status` table, kept sorted by path so
/// snapshots come out in order.
#[derive(Debug)]
pub struct IndexingRuntimeState {
    projects: Vec<ProjectRuntimeStatus>,
}

pub open spec fn statuses_sorted(s: Seq<ProjectRuntimeStatus>) -> bool {
    forall|i: int, j: int|
        #![trigger s[i], s[j]]
        0 <= i < j < s.len() ==> crate::order::lex_lt(s[i].project_path@, s[j].project_path@)
}


proof fn lemma_path_update_sorted(
    base: Seq<ProjectRuntimeStatus>,
    now: Seq<ProjectRuntimeStatus>,
    i: int,
)
    requires
        statuses_sorted(base),
        0 <= i < base.len(),
        now.len() == base.len(),
        forall|q: int| 0 <= q < now.len() && q != i ==> #[trigger] now[q] == base[q],
        now[i].project_path@ == base[i].project_path@,
    ensures
        statuses_sorted(now),
{
    assert forall|a: int, b: int|
        #![trigger now[a], now[b]]
        0 <= a < b < now.len() implies crate::order::lex_lt(
        now[a].project_path@,
        now[b].project_path@,
    ) by {
        assert(now[a].project_path@ == base[a].project_path@);
        assert(now[b].project_path@ == base[b].project_path@);
    }
}

impl Default for IndexingRuntimeState {
    fn default() -> (r: Self)
        ensures
            r.wf(),
            r.statuses_spec().len() == 0,
    {
        IndexingRuntimeState { projects: Vec::new() }
    }
}

impl IndexingRuntimeState {
    pub closed spec fn wf(self) -> bool {
        statuses_sorted(self.projects@)
    }

    pub closed spec fn statuses_spec(self) -> Seq<ProjectRuntimeStatus> {
        self.projects@
    }

    /// Position of the entry for a path, creating a fresh one in sorted
    /// position when it is new.
    fn entry_index(&mut self, project_path: &str) -> (r: usize)
        requires
            old(self).wf(),
        ensures
            final(self).wf(),
            r < final(self).statuses_spec().len(),
            final(self).statuses_spec()[r as int].project_path@ == project_path@,
            forall|q: int|
                0 <= q < final(self).statuses_spec().len() && q != r ==> old(self).statuses_spec().contains(#[trigger] final(self).statuses_spec()[q]),
            forall|q: int|
                0 <= q < old(self).statuses_spec().len() && (#[trigger] old(self).statuses_spec()[q]).project_path@ != project_path@ ==> final(self).statuses_spec().contains(old(self).statuses_spec()[q]),
    {
        let ghost orig = self.projects@;
        let pv = crate::strutil::chars_of(project_path);
        let n = self.projects.len();
        let mut i: usize = 0;
        let mut scanning = true;
        while scanning && i < n
            invariant
                n == self.projects@.len(),
                self.projects@ == orig,
                pv@ == project_path@,
                i <= n,
                forall|k: int|
                    0 <= k < i ==> crate::order::lex_lt(
                        (#[trigger] orig[k]).project_path@,
                        project_path@,
                    ),
                !scanning ==> i < n && !crate::order::lex_lt(
                    orig[i as int].project_path@,
                    project_path@,
                ),
            decreases n - i, scanning as int,
        {
            let ev = crate::strutil::chars_of(self.projects[i].project_path.as_str());
            if crate::order::lex_lt_chars(&ev, &pv) {
                i = i + 1;
            } else {
                scanning = false;
            }
        }
        if !scanning {
            let ev = crate::strutil::chars_of(self.projects[i].project_path.as_str());
            if !crate::order::lex_lt_chars(&pv, &ev) {
                proof {
                    crate::order::lemma_lex_connex(
                        project_path@,
                        orig[i as int].project_path@,
                    );
                    assert forall|q: int|
                        0 <= q < self.projects@.len() && q != i as int implies orig.contains(
                        #[trigger] self.projects@[q],
                    ) by {
                        assert(self.projects@[q] == orig[q]);
                    }
                    assert forall|q: int|
                        0 <= q < orig.len() && (#[trigger] orig[q]).project_path@ != project_path@
                            implies self.projects@.contains(orig[q]) by {
                        assert(self.projects@[q] == orig[q]);
                    }
                }
                return i;
            }
        }
        proof {
            if !scanning {
                crate::order::lemma_lex_lt_irrefl(project_path@);
            }
        }
        let fresh = ProjectRuntimeStatus {
            project_path: crate::strutil::string_from_chars(&pv),
            active_watcher: false,
            queue_depth: 0,
            chunks_indexed: 0,
            last_indexed_unix_ms: 0,
            last_error: None,
        };
        self.projects.insert(i, fresh);
        proof {
            let now = self.projects@;
            assert forall|a: int, b: int|
                #![trigger now[a], now[b]]
                0 <= a < b < now.len() implies crate::order::lex_lt(
                now[a].project_path@,
                now[b].project_path@,
            ) by {
                if a < i && b == i {
                    assert(now[a] == orig[a]);
                } else if a < i && b > i {
                    assert(now[a] == orig[a]);
                    assert(now[b] == orig[b - 1]);
                    if b - 1 == a {
                        crate::order::lemma_lex_lt_trans(
                            now[a].project_path@,
                            project_path@,
                            now[b].project_path@,
                        );
                    }
                } else if a == i {
                    assert(now[b] == orig[b - 1]);
                    if b - 1 == i {
                    } else {
                        crate::order::lemma_lex_lt_trans(
                            project_path@,
                            orig[i as int].project_path@,
                            orig[b - 1].project_path@,
                        );
                    }
                } else if a < i && b < i {
                    assert(now[a] == orig[a]);
                    assert(now[b] == orig[b]);
                } else {
                    assert(now[a] == orig[a - 1]);
                    assert(now[b] == orig[b - 1]);
                }
            }
            assert forall|q: int|
                0 <= q < self.projects@.len() && q != i as int implies orig.contains(
                #[trigger] self.projects@[q],
            ) by {
                if q < i {
                    assert(self.projects@[q] == orig[q]);
                } else {
                    assert(self.projects@[q] == orig[q - 1]);
                }
            }
            assert forall|q: int|
                0 <= q < orig.len() && (#[trigger] orig[q]).project_path@ != project_path@
                    implies self.projects@.contains(orig[q]) by {
                if q < i {
                    assert(self.projects@[q] == orig[q]);
                } else {
                    assert(self.projects@[q + 1] == orig[q]);
                }
            }
        }
        i
    }

    pub fn mark_watcher_active(&mut self, project_path: &str, active: bool)
        requires
            old(self).wf(),
        ensures
            final(self).wf(),
            exists|q: int|
                0 <= q < final(self).statuses_spec().len() && (#[trigger] final(self).statuses_spec()[q]).project_path@ == project_path@ && final(self).statuses_spec()[q].active_watcher == active,
            forall|q: int|
                0 <= q < final(self).statuses_spec().len() && (#[trigger] final(self).statuses_spec()[q]).project_path@ != project_path@ ==> old(self).statuses_spec().contains(final(self).statuses_spec()[q]),
            forall|q: int|
                0 <= q < old(self).statuses_spec().len() && (#[trigger] old(self).statuses_spec()[q]).project_path@ != project_path@ ==> final(self).statuses_spec().contains(old(self).statuses_spec()[q]),
    {
        let i = self.entry_index(project_path);
        let ghost base = self.projects@;
        let mut entry = self.projects.remove(i);
        entry.active_watcher = active;
        self.projects.insert(i, entry);
        proof {
            let now = self.projects@;
            assert(now.len() == base.len());
            assert forall|q: int|
                0 <= q < now.len() && q != i as int implies #[trigger] now[q] == base[q] by {
                if q < i {
                    assert(now[q] == base.remove(i as int)[q]);
                } else {
                    assert(now[q] == base.remove(i as int)[q - 1]);
                }
            }
            assert(now[i as int].project_path@ == base[i as int].project_path@);
            lemma_path_update_sorted(base, now, i as int);
            assert forall|q: int|
                0 <= q < now.len() && (#[trigger] now[q]).project_path@ != project_path@
                    implies old(self).statuses_spec().contains(now[q]) by {
                assert(q != i as int);
                assert(now[q] == base[q]);
            }
            assert forall|q: int|
                0 <= q < old(self).statuses_spec().len() && (#[trigger] old(self).statuses_spec()[q]).project_path@ != project_path@ implies now.contains(
                old(self).statuses_spec()[q],
            ) by {
                assert(base.contains(old(self).statuses_spec()[q]));
                let w = choose|w: int|
                    0 <= w < base.len() && base[w] == old(self).statuses_spec()[q];
                assert(w != i as int);
                assert(now[w] == base[w]);
            }
            assert(self.statuses_spec()[i as int].project_path@ == project_path@
                && self.statuses_spec()[i as int].active_watcher == active);
            assert(exists|q: int|
                0 <= q < self.statuses_spec().len() && (
                #[trigger] self.statuses_spec()[q]).project_path@ == project_path@
                    && self.statuses_spec()[q].active_watcher == active);
        }
    }

    pub fn set_queue_depth(&mut self, project_path: &str, depth: u64)
        requires
            old(self).wf(),
        ensures
            final(self).wf(),
            exists|q: int|
                0 <= q < final(self).statuses_spec().len() && (#[trigger] final(self).statuses_spec()[q]).project_path@ == project_path@ && final(self).statuses_spec()[q].queue_depth == depth,
            forall|q: int|
                0 <= q < final(self).statuses_spec().len() && (#[trigger] final(self).statuses_spec()[q]).project_path@ != project_path@ ==> old(self).statuses_spec().contains(final(self).statuses_spec()[q]),
            forall|q: int|
                0 <= q < old(self).statuses_spec().len() && (#[trigger] old(self).statuses_spec()[q]).project_path@ != project_path@ ==> final(self).statuses_spec().contains(old(self).statuses_spec()[q]),
    {
        let i = self.entry_index(project_path);
        let ghost base = self.projects@;
        let mut entry = self.projects.remove(i);
        entry.queue_depth = depth;
        self.projects.insert(i, entry);
        proof {
            let now = self.projects@;
            assert(now.len() == base.len());
            assert forall|q: int|
                0 <= q < now.len() && q != i as int implies #[trigger] now[q] == base[q] by {
                if q < i {
                    assert(now[q] == base.remove(i as int)[q]);
                } else {
                    assert(now[q] == base.remove(i as int)[q - 1]);
                }
            }
            assert(now[i as int].project_path@ == base[i as int].project_path@);
            lemma_path_update_sorted(base, now, i as int);
            assert forall|q: int|
                0 <= q < now.len() && (#[trigger] now[q]).project_path@ != project_path@
                    implies old(self).statuses_spec().contains(now[q]) by {
                assert(q != i as int);
                assert(now[q] == base[q]);
            }
            assert forall|q: int|
                0 <= q < old(self).statuses_spec().len() && (#[trigger] old(self).statuses_spec()[q]).project_path@ != project_path@ implies now.contains(
                old(self).statuses_spec()[q],
            ) by {
                assert(base.contains(old(self).statuses_spec()[q]));
                let w = choose|w: int|
                    0 <= w < base.len() && base[w] == old(self).statuses_spec()[q];
                assert(w != i as int);
                assert(now[w] == base[w]);
            }
            assert(self.statuses_spec()[i as int].project_path@ == project_path@
                && self.statuses_spec()[i as int].queue_depth == depth);
            assert(exists|q: int|
                0 <= q < self.statuses_spec().len() && (
                #[trigger] self.statuses_spec()[q]).project_path@ == project_path@
                    && self.statuses_spec()[q].queue_depth == depth);
        }
    }

    /// Marks a successful indexing pass: the chunk counter grows by the
    /// delta (saturating), the timestamp is refreshed, the error cleared.
    pub fn mark_indexed(&mut self, project_path: &str, chunk_delta: u64, now_ms: u64)
        requires
            old(self).wf(),
        ensures
            final(self).wf(),
            exists|q: int|
                0 <= q < final(self).statuses_spec().len() && (#[trigger] final(self).statuses_spec()[q]).project_path@ == project_path@ && final(self).statuses_spec()[q].last_indexed_unix_ms == now_ms && final(self).statuses_spec()[q].last_error is None,
            forall|q: int|
                0 <= q < final(self).statuses_spec().len() && (#[trigger] final(self).statuses_spec()[q]).project_path@ != project_path@ ==> old(self).statuses_spec().contains(final(self).statuses_spec()[q]),
            forall|q: int|
                0 <= q < old(self).statuses_spec().len() && (#[trigger] old(self).statuses_spec()[q]).project_path@ != project_path@ ==> final(self).statuses_spec().contains(old(self).statuses_spec()[q]),
    {
        let i = self.entry_index(project_path);
        let ghost base = self.projects@;
        let mut entry = self.projects.remove(i);
        if entry.chunks_indexed <= u64::MAX - chunk_delta {
            entry.chunks_indexed = entry.chunks_indexed + chunk_delta;
        } else {
            entry.chunks_indexed = u64::MAX;
        }
        entry.last_indexed_unix_ms = now_ms;
        entry.last_error = None;
        self.projects.insert(i, entry);
        proof {
            let now = self.projects@;
            assert(now.len() == base.len());
            assert forall|q: int|
                0 <= q < now.len() && q != i as int implies #[trigger] now[q] == base[q] by {
                if q < i {
                    assert(now[q] == base.remove(i as int)[q]);
                } else {
                    assert(now[q] == base.remove(i as int)[q - 1]);
                }
            }
            assert(now[i as int].project_path@ == base[i as int].project_path@);
            lemma_path_update_sorted(base, now, i as int);
            assert forall|q: int|
                0 <= q < now.len() && (#[trigger] now[q]).project_path@ != project_path@
                    implies old(self).statuses_spec().contains(now[q]) by {
                assert(q != i as int);
                assert(now[q] == base[q]);
            }
            assert forall|q: int|
                0 <= q < old(self).statuses_spec().len() && (#[trigger] old(self).statuses_spec()[q]).project_path@ != project_path@ implies now.contains(
                old(self).statuses_spec()[q],
            ) by {
                assert(base.contains(old(self).statuses_spec()[q]));
                let w = choose|w: int|
                    0 <= w < base.len() && base[w] == old(self).statuses_spec()[q];
                assert(w != i as int);
                assert(now[w] == base[w]);
            }
            assert(self.statuses_spec()[i as int].project_path@ == project_path@
                && self.statuses_spec()[i as int].last_indexed_unix_ms == now_ms
                && self.statuses_spec()[i as int].last_error is None);
            assert(exists|q: int|
                0 <= q < self.statuses_spec().len() && (
                #[trigger] self.statuses_spec()[q]).project_path@ == project_path@
                    && self.statuses_spec()[q].last_indexed_unix_ms == now_ms
                    && self.statuses_spec()[q].last_error is None);
        }
    }

    pub fn mark_error(&mut self, project_path: &str, message: String)
        requires
            old(self).wf(),
        ensures
            final(self).wf(),
            exists|q: int|
                0 <= q < final(self).statuses_spec().len() && (#[trigger] final(self).statuses_spec()[q]).project_path@ == project_path@ && final(self).statuses_spec()[q].last_error == Some(message),
            forall|q: int|
                0 <= q < final(self).statuses_spec().len() && (#[trigger] final(self).statuses_spec()[q]).project_path@ != project_path@ ==> old(self).statuses_spec().contains(final(self).statuses_spec()[q]),
            forall|q: int|
                0 <= q < old(self).statuses_spec().len() && (#[trigger] old(self).statuses_spec()[q]).project_path@ != project_path@ ==> final(self).statuses_spec().contains(old(self).statuses_spec()[q]),
    {
        let i = self.entry_index(project_path);
        let ghost base = self.projects@;
        let mut entry = self.projects.remove(i);
        entry.last_error = Some(message);
        self.projects.insert(i, entry);
        proof {
            let now = self.projects@;
            assert(now.len() == base.len());
            assert forall|q: int|
                0 <= q < now.len() && q != i as int implies #[trigger] now[q] == base[q] by {
                if q < i {
                    assert(now[q] == base.remove(i as int)[q]);
                } else {
                    assert(now[q] == base.remove(i as int)[q - 1]);
                }
            }
            assert(now[i as int].project_path@ == base[i as int].project_path@);
            lemma_path_update_sorted(base, now, i as int);
            assert forall|q: int|
                0 <= q < now.len() && (#[trigger] now[q]).project_path@ != project_path@
                    implies old(self).statuses_spec().contains(now[q]) by {
                assert(q != i as int);
                assert(now[q] == base[q]);
            }
            assert forall|q: int|
                0 <= q < old(self).statuses_spec().len() && (#[trigger] old(self).statuses_spec()[q]).project_path@ != project_path@ implies now.contains(
                old(self).statuses_spec()[q],
            ) by {
                assert(base.contains(old(self).statuses_spec()[q]));
                let w = choose|w: int|
                    0 <= w < base.len() && base[w] == old(self).statuses_spec()[q];
                assert(w != i as int);
                assert(now[w] == base[w]);
            }
            assert(self.statuses_spec()[i as int].project_path@ == project_path@
                && self.statuses_spec()[i as int].last_error == Some(message));
            assert(exists|q: int|
                0 <= q < self.statuses_spec().len() && (
                #[trigger] self.statuses_spec()[q]).project_path@ == project_path@
                    && self.statuses_spec()[q].last_error == Some(message));
        }
    }

    /// All statuses, ascending by project path.
    pub fn snapshot(&self) -> (r: &Vec<ProjectRuntimeStatus>)
        requires
            self.wf(),
        ensures
            r@ == self.statuses_spec(),
            statuses_sorted(r@),
    {
        &self.projects
    }
}

/// The bounded ring of recent search latencies used for percentile
/// telemetry.
#[derive(Debug, Clone, PartialEq, Eq)]
pub struct SearchLatencies {
    values: Vec<u64>,
}

impl Default for SearchLatencies {
    fn default() -> (r: Self)
        ensures
            r.values_spec().len() == 0,
    {
        SearchLatencies { values: Vec::new() }
    }
}

impl SearchLatencies {
    pub closed spec fn values_spec(self) -> Seq<u64> {
        self.values@
    }

    /// Appends one latency, dropping the oldest beyond 1024 entries.
    pub fn record(&mut self, latency_ms: u64)
        ensures
            final(self).values_spec().len() <= 1024,
            final(self).values_spec().len() > 0,
            final(self).values_spec().last() == latency_ms,
            final(self).values_spec() == (if old(self).values_spec().len() < 1024 {
                old(self).values_spec().push(latency_ms)
            } else {
                old(self).values_spec().skip(
                    old(self).values_spec().len() - 1023,
                ).push(latency_ms)
            }),
    {
        if self.values.len() >= 1024 {
            let drop_count = self.values.len() - 1023;
            let mut kept: Vec<u64> = Vec::new();
            let mut i: usize = drop_count;
            while i < self.values.len()
                invariant
                    drop_count <= i <= self.values@.len(),
                    kept@ == self.values@.subrange(drop_count as int, i as int),
                decreases self.values@.len() - i,
            {
                kept.push(self.values[i]);
                proof {
                    assert(kept@ =~= self.values@.subrange(drop_count as int, i + 1 as int));
                }
                i = i + 1;
            }
            proof {
                assert(kept@ =~= self.values@.skip(drop_count as int));
            }
            self.values = kept;
        }
        self.values.push(latency_ms);
    }

    pub fn len(&self) -> (r: usize)
        ensures
            r == self.values_spec().len(),
    {
        self.values.len()
    }

    /// The `(p50, p95)` percentiles over a sorted copy of the recorded
    /// latencies; `(0, 0)` when nothing was recorded.  The indices follow
    /// the nearest-rank rule `round((len - 1) * p)`.
    pub fn percentiles(&self) -> (r: (u64, u64))
        ensures
            self.values_spec().len() == 0 ==> r == (0u64, 0u64),
            self.values_spec().len() > 0 ==> exists|s: Seq<u64>|
                #![auto]
                sorted_u64(s) && s.to_multiset() == self.values_spec().to_multiset() && r.0 == s[(
                (s.len() - 1) * 50 + 50) as int / 100] && r.1 == s[((s.len() - 1) * 95 + 50) as int
                    / 100],
    {
        if self.values.len() == 0 {
            return (0, 0);
        }
        let sorted = sort_u64(&self.values);
        let n = sorted.len();
        let n128 = n as u128;
        let i50_wide = ((n128 - 1) * 50 + 50) / 100;
        let i95_wide = ((n128 - 1) * 95 + 50) / 100;
        proof {
            assert(((n128 - 1) * 50 + 50) / 100 < n128) by (nonlinear_arith)
                requires
                    n128 >= 1,
            ;
            assert(((n128 - 1) * 95 + 50) / 100 < n128) by (nonlinear_arith)
                requires
                    n128 >= 1,
            ;
        }
        let i50 = i50_wide as usize;
        let i95 = i95_wide as usize;
        (sorted[i50], sorted[i95])
    }
}

pub open spec fn sorted_u64(s: Seq<u64>) -> bool {
    forall|i: int, j: int| 0 <= i < j < s.len() ==> #[trigger] s[i] <= #[trigger] s[j]
}

/// An ascending copy of the input with the same multiset of values.
pub fn sort_u64(v: &Vec<u64>) -> (r: Vec<u64>)
    ensures
        sorted_u64(r@),
        r@.to_multiset() == v@.to_multiset(),
        r@.len() == v@.len(),
{
    let mut out: Vec<u64> = Vec::new();
    let mut i: usize = 0;
    proof {
        vstd::prelude::Seq::to_multiset_ensures(v@);
        assert(v@.take(0) =~= Seq::<u64>::empty());
        vstd::prelude::Seq::to_multiset_ensures(out@);
        assert(out@.to_multiset() =~= v@.take(0).to_multiset());
    }
    while i < v.len()
        invariant
            i <= v@.len(),
            sorted_u64(out@),
            out@.to_multiset() == v@.take(i as int).to_multiset(),
            out@.len() == i,
        decreases v@.len() - i,
    {
        let x = v[i];
        let mut p: usize = 0;
        let mut searching = true;
        while searching && p < out.len()
            invariant
                p <= out@.len(),
                forall|q: int| 0 <= q < p ==> #[trigger] out@[q] <= x,
                !searching ==> p < out@.len() && out@[p as int] > x,
            decreases out@.len() - p, searching as int,
        {
            if out[p] > x {
                searching = false;
            } else {
                p = p + 1;
            }
        }
        let ghost before = out@;
        out.insert(p, x);
        proof {
            let now = out@;
            let pi = p as int;
            assert forall|a: int, b: int|
                0 <= a < b < now.len() implies #[trigger] now[a] <= #[trigger] now[b] by {
                if a < pi && b == pi {
                    assert(now[a] == before[a]);
                } else if a == pi && b > pi {
                    assert(now[b] == before[b - 1]);
                    if b - 1 >= pi {
                        if b - 1 == pi {
                        } else {
                            assert(before[pi] <= before[b - 1]);
                        }
                    }
                } else if a < pi && b > pi {
                    assert(now[a] == before[a]);
                    assert(now[b] == before[b - 1]);
                } else if a < pi && b < pi {
                    assert(now[a] == before[a]);
                    assert(now[b] == before[b]);
                } else {
                    assert(now[a] == before[a - 1]);
                    assert(now[b] == before[b - 1]);
                }
            }
            before.insert_ensures(pi, x);
            assert(now =~= before.take(pi) + (seq![x] + before.skip(pi)));
            assert(before =~= before.take(pi) + before.skip(pi));
            vstd::seq_lib::lemma_multiset_commutative(before.take(pi), seq![x] + before.skip(pi));
            vstd::seq_lib::lemma_multiset_commutative(seq![x], before.skip(pi));
            vstd::seq_lib::lemma_multiset_commutative(before.take(pi), before.skip(pi));
            vstd::prelude::Seq::to_multiset_ensures(Seq::<u64>::empty());
            assert(seq![x] =~= Seq::<u64>::empty().push(x));
            assert(seq![x].to_multiset() =~= vstd::multiset::Multiset::<u64>::empty().insert(x));
            assert(now.to_multiset() =~= before.to_multiset().insert(x));
            vstd::prelude::Seq::to_multiset_ensures(v@.take(i as int));
            assert(v@.take(i + 1 as int) =~= v@.take(i as int).push(v@[i as int]));
            assert(out@.to_multiset() =~= v@.take(i + 1 as int).to_multiset());
        }
        i = i + 1;
    }
    proof {
        assert(v@.take(v@.len() as int) =~= v@);
    }
    out
}

} // verus!
