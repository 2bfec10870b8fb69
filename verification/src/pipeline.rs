use vstd::prelude::*;

verus! {

use crate::config::RetrievalTier;
use crate::fusion::{rrf_fuse, rrf_inputs_bounded, rrf_output_ok};
use crate::rpc::{CodeChunk, SearchResultItem};
use crate::strutil::{
    chars_eq, chars_of, lower_char, lower_of, str_eq, string_from_chars, trim_chars, trim_spec,
    extend_chars,
};
use crate::update::{stable_id_spec, to_code_chunk, views_of, IndexedChunk, IndexedProject};

/// The note appended to a snippet cut by either limit.
pub open spec fn truncation_marker() -> Seq<char> {
    "\n... (truncated)"@
}

/// The position of the first newline, if any.
pub open spec fn first_nl(s: Seq<char>) -> Option<int>
    decreases s.len(),
{
    if s.len() == 0 {
        None
    } else if s[0] == '\n' {
        Some(0int)
    } else {
        match first_nl(s.drop_first()) {
            Some(p) => Some(p + 1),
            None => None,
        }
    }
}

proof fn lemma_first_nl_at(s: Seq<char>, p: int)
    requires
        0 <= p <= s.len(),
        forall|k: int| 0 <= k < p ==> s[k] != '\n',
        p == s.len() || s[p] == '\n',
    ensures
        first_nl(s) == (if p == s.len() {
            None::<int>
        } else {
            Some(p)
        }),
    decreases p,
{
    if s.len() > 0 {
        if p == 0 {
        } else {
            assert(s[0] != '\n');
            assert forall|k: int| 0 <= k < p - 1 implies s.drop_first()[k] != '\n' by {
                assert(s.drop_first()[k] == s[k + 1]);
            }
            if p < s.len() {
                assert(s.drop_first()[p - 1] == s[p]);
            }
            lemma_first_nl_at(s.drop_first(), p - 1);
        }
    }
}

/// The lines of a text: split on newlines, a trailing newline producing no
/// final empty line.
pub open spec fn split_lines(s: Seq<char>) -> Seq<Seq<char>>
    decreases s.len(),
{
    if s.len() == 0 {
        Seq::empty()
    } else {
        match first_nl(s) {
            Some(p) => if 0 <= p < s.len() {
                seq![s.take(p)] + split_lines(s.skip(p + 1))
            } else {
                seq![s]
            },
            None => seq![s],
        }
    }
}

/// The views of a vector of line buffers.
pub open spec fn line_views(ls: Seq<Vec<char>>) -> Seq<Seq<char>> {
    ls.map_values(|l: Vec<char>| l@)
}

fn split_lines_exec(cs: &Vec<char>) -> (r: Vec<Vec<char>>)
    ensures
        line_views(r@) == split_lines(cs@),
{
    let n = cs.len();
    let mut out: Vec<Vec<char>> = Vec::new();
    let mut i: usize = 0;
    proof {
        assert(cs@.skip(0) =~= cs@);
        assert(line_views(out@) + split_lines(cs@) =~= split_lines(cs@));
    }
    while i < n
        invariant
            n == cs@.len(),
            i <= n,
            split_lines(cs@) == line_views(out@) + split_lines(cs@.skip(i as int)),
        decreases n - i,
    {
        let ghost out_head = out@;
        let mut j = i;
        while j < n && cs[j] != '\n'
            invariant
                i <= j <= n,
                n == cs@.len(),
                forall|k: int| i <= k < j ==> cs@[k] != '\n',
            decreases n - j,
        {
            j = j + 1;
        }
        let mut line: Vec<char> = Vec::new();
        let mut p = i;
        while p < j
            invariant
                i <= p <= j <= n,
                n == cs@.len(),
                line@ == cs@.subrange(i as int, p as int),
            decreases j - p,
        {
            line.push(cs[p]);
            proof {
                assert(line@ =~= cs@.subrange(i as int, p + 1 as int));
            }
            p = p + 1;
        }
        out.push(line);
        proof {
            let rest = cs@.skip(i as int);
            assert forall|k: int| 0 <= k < j - i implies rest[k] != '\n' by {
                assert(rest[k] == cs@[i + k]);
            }
            if j < n {
                assert(rest[j - i] == cs@[j as int]);
            }
            lemma_first_nl_at(rest, j - i);
            assert(line@ =~= rest.take(j - i));
            assert(line_views(out@) =~= line_views(out_head).push(line@));
            if j < n {
                assert(rest.skip(j - i + 1) =~= cs@.skip(j + 1 as int));
                assert(split_lines(rest) == seq![rest.take(j - i)] + split_lines(
                    cs@.skip(j + 1 as int),
                ));
                assert(line_views(out_head) + split_lines(rest) =~= line_views(out@)
                    + split_lines(cs@.skip(j + 1 as int)));
            } else {
                assert(rest.take(j - i) =~= rest);
                assert(split_lines(rest) == seq![rest]);
                assert(cs@.skip(n as int).len() == 0);
                assert(split_lines(cs@.skip(n as int)) =~= Seq::<Seq<char>>::empty());
                assert(line_views(out_head) + split_lines(rest) =~= line_views(out@)
                    + split_lines(cs@.skip(n as int)));
            }
        }
        i = if j < n {
            j + 1
        } else {
            n
        };
    }
    proof {
        assert(cs@.skip(n as int).len() == 0);
        assert(split_lines(cs@.skip(n as int)) =~= Seq::<Seq<char>>::empty());
        assert(line_views(out@) + split_lines(cs@.skip(n as int)) =~= line_views(out@));
    }
    out
}

/// One pass of the snippet cutter over the remaining lines: stop with the
/// marker at the line limit, stop with a cut and the marker when the
/// joined text passes the character limit, else join and continue.
pub open spec fn snippet_rec(
    lines: Seq<Seq<char>>,
    idx: int,
    acc: Seq<char>,
    max_lines: int,
    max_chars: int,
) -> Seq<char>
    decreases lines.len() - idx,
{
    if idx < 0 || idx >= lines.len() {
        acc
    } else if idx >= max_lines {
        acc + truncation_marker()
    } else {
        let joined = if acc.len() > 0 {
            acc + seq!['\n'] + lines[idx]
        } else {
            lines[idx]
        };
        if joined.len() > max_chars {
            joined.take(max_chars) + truncation_marker()
        } else {
            snippet_rec(lines, idx + 1, joined, max_lines, max_chars)
        }
    }
}

/// The snippet of a chunk's content: at most `max_lines` lines joined by
/// newlines and at most `max_chars` characters, a cut marked by the
/// truncation note; when the line walk yields nothing, the raw content
/// capped at `max_chars`.
pub open spec fn trim_snippet_spec(s: Seq<char>, max_lines: int, max_chars: int) -> Seq<char> {
    let out = snippet_rec(split_lines(s), 0, Seq::empty(), max_lines, max_chars);
    if out.len() == 0 {
        if s.len() < max_chars {
            s
        } else {
            s.take(max_chars)
        }
    } else {
        out
    }
}

/// Cuts a snippet to at most `max_lines` lines and `max_chars` characters,
/// marking any cut with the trailing truncation note (16 characters).
pub fn trim_snippet(content: &str, max_lines: usize, max_chars: usize) -> (r: String)
    ensures
        r@ == trim_snippet_spec(content@, max_lines as int, max_chars as int),
        r@.len() <= max_chars + 16,
{
    proof {
        reveal_strlit("\n... (truncated)");
    }
    let marker = chars_of("\n... (truncated)");
    let cs = chars_of(content);
    let lines = split_lines_exec(&cs);
    let ghost lv = line_views(lines@);
    let ghost ml = max_lines as int;
    let ghost mc = max_chars as int;
    let mut acc: Vec<char> = Vec::new();
    let mut idx: usize = 0;
    let mut done = false;
    while !done && idx < lines.len()
        invariant
            lv == line_views(lines@),
            lv == split_lines(content@),
            cs@ == content@,
            ml == max_lines as int,
            mc == max_chars as int,
            marker@ == truncation_marker(),
            marker@.len() == 16,
            idx <= lines@.len(),
            !done ==> acc@.len() <= max_chars && snippet_rec(lv, 0, Seq::empty(), ml, mc)
                == snippet_rec(lv, idx as int, acc@, ml, mc),
            done ==> acc@ == snippet_rec(lv, 0, Seq::empty(), ml, mc) && acc@.len() <= max_chars
                + 16,
        decreases lines@.len() - idx, !done as int,
    {
        let ghost acc0 = acc@;
        if idx >= max_lines {
            extend_chars(&mut acc, &marker);
            done = true;
            proof {
                assert(snippet_rec(lv, idx as int, acc0, ml, mc) == acc0 + truncation_marker());
            }
        } else {
            if acc.len() > 0 {
                acc.push('\n');
            }
            let line = &lines[idx];
            extend_chars(&mut acc, line);
            proof {
                assert(lv[idx as int] == lines@[idx as int]@);
                if acc0.len() > 0 {
                    assert(acc@ =~= acc0 + seq!['\n'] + lv[idx as int]);
                } else {
                    assert(acc@ =~= lv[idx as int]);
                }
            }
            let ghost joined = acc@;
            if acc.len() > max_chars {
                acc.truncate(max_chars);
                extend_chars(&mut acc, &marker);
                done = true;
                proof {
                    assert(acc@ =~= joined.take(mc) + truncation_marker());
                    assert(snippet_rec(lv, idx as int, acc0, ml, mc) == joined.take(mc)
                        + truncation_marker());
                }
            } else {
                proof {
                    assert(snippet_rec(lv, idx as int, acc0, ml, mc) == snippet_rec(
                        lv,
                        idx + 1 as int,
                        joined,
                        ml,
                        mc,
                    ));
                }
                idx = idx + 1;
            }
        }
    }
    proof {
        if !done {
            assert(snippet_rec(lv, idx as int, acc@, ml, mc) == acc@);
        }
    }
    if acc.len() == 0 {
        let n = cs.len();
        let cap = if n < max_chars {
            n
        } else {
            max_chars
        };
        let mut q: usize = 0;
        while q < cap
            invariant
                cap <= n == cs@.len(),
                q <= cap,
                acc@ == cs@.take(q as int),
            decreases cap - q,
        {
            acc.push(cs[q]);
            proof {
                assert(acc@ =~= cs@.take(q + 1 as int));
            }
            q = q + 1;
        }
        proof {
            if cs@.len() < mc {
                assert(cs@.take(cs@.len() as int) =~= cs@);
            }
        }
    }
    string_from_chars(&acc)
}

/// Whether a chunk's symbol equals the trimmed query, ASCII case ignored.
pub open spec fn symbol_matches(c: CodeChunk, q: Seq<char>) -> bool {
    match c.symbol {
        Some(s) => lower_of(s@) == lower_of(trim_spec(q)),
        None => false,
    }
}

fn lower_chars(v: &Vec<char>) -> (r: Vec<char>)
    ensures
        r@ == lower_of(v@),
{
    let mut out: Vec<char> = Vec::new();
    let mut i: usize = 0;
    while i < v.len()
        invariant
            i <= v@.len(),
            out@ == lower_of(v@.take(i as int)),
        decreases v@.len() - i,
    {
        out.push(lower_char(v[i]));
        proof {
            assert(out@ =~= lower_of(v@.take(i + 1 as int)));
        }
        i = i + 1;
    }
    proof {
        assert(v@.take(v@.len() as int) =~= v@);
    }
    out
}

/// The exact-symbol shortcut: the first chunk whose symbol equals the
/// trimmed query, case-insensitively.
pub fn find_exact_symbol(chunks: &Vec<CodeChunk>, query: &str) -> (r: Option<usize>)
    ensures
        r matches Some(i) ==> i < chunks@.len() && symbol_matches(chunks@[i as int], query@)
            && forall|k: int| 0 <= k < i ==> !symbol_matches(#[trigger] chunks@[k], query@),
        r is None ==> forall|k: int|
            0 <= k < chunks@.len() ==> !symbol_matches(#[trigger] chunks@[k], query@),
{
    let qc = chars_of(query);
    let trimmed = trim_chars(&qc);
    let q_lower = lower_chars(&trimmed);
    let mut i: usize = 0;
    while i < chunks.len()
        invariant
            q_lower@ == lower_of(trim_spec(query@)),
            i <= chunks@.len(),
            forall|k: int| 0 <= k < i ==> !symbol_matches(#[trigger] chunks@[k], query@),
        decreases chunks@.len() - i,
    {
        match &chunks[i].symbol {
            Some(s) => {
                let sc = chars_of(s.as_str());
                let s_lower = lower_chars(&sc);
                if chars_eq(&s_lower, &q_lower) {
                    return Some(i);
                }
            },
            None => {},
        }
        i = i + 1;
    }
    None
}

/// The first chunk carrying the id, if any.
pub open spec fn first_chunk_index(chunks: Seq<CodeChunk>, id: Seq<char>) -> Option<int>
    decreases chunks.len(),
{
    if chunks.len() == 0 {
        None
    } else if chunks[0].id@ == id {
        Some(0int)
    } else {
        match first_chunk_index(chunks.drop_first(), id) {
            Some(m) => Some(m + 1),
            None => None,
        }
    }
}

fn find_chunk_by_id(chunks: &Vec<CodeChunk>, id: &str) -> (r: Option<usize>)
    ensures
        match r {
            Some(i) => first_chunk_index(chunks@, id@) == Some(i as int),
            None => first_chunk_index(chunks@, id@) is None,
        },
{
    let n = chunks.len();
    let mut i: usize = 0;
    proof {
        assert(chunks@.skip(0) =~= chunks@);
    }
    while i < n
        invariant
            n == chunks@.len(),
            i <= n,
            first_chunk_index(chunks@, id@) == (match first_chunk_index(
                chunks@.skip(i as int),
                id@,
            ) {
                Some(m) => Some(m + i),
                None => None::<int>,
            }),
        decreases n - i,
    {
        proof {
            assert(chunks@.skip(i as int)[0] == chunks@[i as int]);
            assert(chunks@.skip(i as int).drop_first() =~= chunks@.skip(i + 1 as int));
        }
        if str_eq(chunks[i].id.as_str(), id) {
            return Some(i);
        }
        i = i + 1;
    }
    proof {
        assert(chunks@.skip(n as int).len() == 0);
    }
    None
}

/// The fields a result item copies from its chunk, the snippet included.
pub open spec fn item_core_matches(item: SearchResultItem, c: CodeChunk) -> bool {
    &&& item.file == c.file_path
    &&& (match c.symbol {
        Some(s) => item.function == s,
        None => item.function@ == "chunk"@,
    })
    &&& item.start_line == c.start_line
    &&& item.end_line == c.end_line
    &&& item.code_block@ == trim_snippet_spec(c.content@, 120, 6000)
}

/// The item names some chunk of the project.
pub open spec fn item_from_chunks(item: SearchResultItem, chunks: Seq<CodeChunk>) -> bool {
    exists|m: int| 0 <= m < chunks.len() && item_core_matches(item, #[trigger] chunks[m])
}

/// Some chunk carries the given id.
pub open spec fn has_chunk_with_id(chunks: Seq<CodeChunk>, id: Seq<char>) -> bool {
    exists|m: int| 0 <= m < chunks.len() && (#[trigger] chunks[m]).id@ == id
}

fn item_for_chunk(c: &CodeChunk) -> (r: SearchResultItem)
    ensures
        item_core_matches(r, *c),
{
    let function: String = match &c.symbol {
        Some(s) => s.clone(),
        None => {
            let v = chars_of("chunk");
            string_from_chars(&v)
        },
    };
    SearchResultItem {
        file: c.file_path.clone(),
        function,
        start_line: c.start_line,
        end_line: c.end_line,
        code_block: trim_snippet(c.content.as_str(), 120, 6000),
    }
}

/// The chunks the composition emits: walk the ordered ids, skip ids seen
/// before or naming no chunk, emit the first chunk of each fresh id, stop
/// when the budget is spent.
pub open spec fn composed_chunks(
    chunks: Seq<CodeChunk>,
    ordered: Seq<Seq<char>>,
    seen: Seq<Seq<char>>,
    budget: int,
) -> Seq<CodeChunk>
    decreases ordered.len(),
{
    if budget <= 0 || ordered.len() == 0 {
        Seq::empty()
    } else {
        let id = ordered[0];
        if seen.contains(id) {
            composed_chunks(chunks, ordered.drop_first(), seen, budget)
        } else {
            match first_chunk_index(chunks, id) {
                Some(m) => seq![chunks[m]] + composed_chunks(
                    chunks,
                    ordered.drop_first(),
                    seen.push(id),
                    budget - 1,
                ),
                None => composed_chunks(chunks, ordered.drop_first(), seen.push(id), budget),
            }
        }
    }
}

/// Walks the fused id order and emits one result item per distinct id that
/// names a chunk, in order, stopping at `max(1, top_k)` items: exactly the
/// composition `composed_chunks` describes.  With `top_k` zero the single
/// slot still serves an exact-symbol hit placed at the head of the order.
pub fn compose_search_results(
    chunks: &Vec<CodeChunk>,
    ordered_ids: &Vec<String>,
    top_k: usize,
) -> (r: Vec<SearchResultItem>)
    ensures
        r@.len() <= (if top_k == 0 {
            1int
        } else {
            top_k as int
        }),
        forall|j: int| 0 <= j < r@.len() ==> item_from_chunks(#[trigger] r@[j], chunks@),
        (ordered_ids@.len() > 0 && has_chunk_with_id(chunks@, ordered_ids@[0]@)) ==> r@.len()
            >= 1,
        ({
            let emitted = composed_chunks(
                chunks@,
                views_of(ordered_ids@),
                Seq::empty(),
                if top_k == 0 {
                    1int
                } else {
                    top_k as int
                },
            );
            r@.len() == emitted.len() && forall|j: int|
                0 <= j < r@.len() ==> item_core_matches(#[trigger] r@[j], emitted[j])
        }),
{
    let cap: usize = if top_k == 0 {
        1
    } else {
        top_k
    };
    let ghost orderedv = views_of(ordered_ids@);
    let ghost full = composed_chunks(chunks@, orderedv, Seq::empty(), cap as int);
    let mut out: Vec<SearchResultItem> = Vec::new();
    let mut seen: Vec<String> = Vec::new();
    let ghost mut emitted: Seq<CodeChunk> = Seq::empty();
    let mut i: usize = 0;
    proof {
        assert(orderedv.skip(0) =~= orderedv);
        assert(views_of(seen@) =~= Seq::<Seq<char>>::empty());
        assert(emitted + composed_chunks(chunks@, orderedv, Seq::empty(), cap as int) =~= full);
    }
    while i < ordered_ids.len() && out.len() < cap
        invariant
            cap == (if top_k == 0 {
                1int
            } else {
                top_k as int
            }),
            orderedv == views_of(ordered_ids@),
            full == composed_chunks(chunks@, orderedv, Seq::empty(), cap as int),
            i <= ordered_ids@.len(),
            i == 0 ==> seen@.len() == 0,
            out@.len() <= cap,
            out@.len() == emitted.len(),
            full == emitted + composed_chunks(
                chunks@,
                orderedv.skip(i as int),
                views_of(seen@),
                cap - out@.len(),
            ),
            forall|j: int|
                0 <= j < out@.len() ==> item_core_matches(#[trigger] out@[j], emitted[j]),
            forall|j: int| 0 <= j < out@.len() ==> item_from_chunks(#[trigger] out@[j], chunks@),
            (i > 0 && ordered_ids@.len() > 0 && has_chunk_with_id(chunks@, ordered_ids@[0]@))
                ==> out@.len() >= 1,
        decreases ordered_ids@.len() - i,
    {
        let id = &ordered_ids[i];
        proof {
            assert(orderedv.skip(i as int)[0] == orderedv[i as int]);
            assert(orderedv[i as int] == ordered_ids@[i as int]@);
            assert(orderedv.skip(i as int).drop_first() =~= orderedv.skip(i + 1 as int));
        }
        let mut already = false;
        let mut s: usize = 0;
        while s < seen.len()
            invariant
                s <= seen@.len(),
                !already ==> forall|m: int| 0 <= m < s ==> views_of(seen@)[m] != id@,
                already ==> views_of(seen@).contains(id@),
            decreases seen@.len() - s, !already as int,
        {
            if str_eq(seen[s].as_str(), id.as_str()) {
                already = true;
                proof {
                    assert(views_of(seen@)[s as int] == id@);
                }
                s = seen.len();
            } else {
                s = s + 1;
            }
        }
        if !already {
            proof {
                if views_of(seen@).contains(id@) {
                    let w = choose|w: int|
                        0 <= w < views_of(seen@).len() && views_of(seen@)[w] == id@;
                    assert(views_of(seen@)[w] != id@);
                }
            }
            let ghost seen_head = views_of(seen@);
            let ghost budget = cap - out@.len();
            seen.push(id.clone());
            proof {
                assert(views_of(seen@) =~= seen_head.push(id@));
            }
            match find_chunk_by_id(chunks, id.as_str()) {
                Some(m) => {
                    proof {
                        lemma_first_chunk_index_props(chunks@, id@);
                    }
                    let ghost out_head = out@;
                    let item = item_for_chunk(&chunks[m]);
                    out.push(item);
                    proof {
                        let ghost emitted_head = emitted;
                        emitted = emitted.push(chunks@[m as int]);
                        let rest = composed_chunks(
                            chunks@,
                            orderedv.skip(i + 1 as int),
                            views_of(seen@),
                            budget - 1,
                        );
                        assert(composed_chunks(
                            chunks@,
                            orderedv.skip(i as int),
                            seen_head,
                            budget,
                        ) == seq![chunks@[m as int]] + rest);
                        assert(emitted_head + (seq![chunks@[m as int]] + rest) =~= emitted
                            + rest);
                        assert(item_core_matches(out@[out@.len() - 1], chunks@[m as int]));
                        assert(0 <= m as int && (m as int) < chunks@.len()
                            && item_core_matches(out@[out@.len() - 1], chunks@[m as int]));
                        assert(item_from_chunks(out@[out@.len() - 1], chunks@));
                        assert forall|j2: int| 0 <= j2 < out@.len() implies item_core_matches(
                            #[trigger] out@[j2],
                            emitted[j2],
                        ) by {
                            if j2 < out@.len() - 1 {
                                assert(out@[j2] == out_head[j2]);
                                assert(emitted[j2] == emitted_head[j2]);
                            }
                        }
                        assert forall|j2: int| 0 <= j2 < out@.len() implies item_from_chunks(
                            #[trigger] out@[j2],
                            chunks@,
                        ) by {
                            if j2 < out@.len() - 1 {
                                assert(out@[j2] == out_head[j2]);
                                assert(item_from_chunks(out_head[j2], chunks@));
                            }
                        }
                    }
                },
                None => {
                    proof {
                        assert(composed_chunks(
                            chunks@,
                            orderedv.skip(i as int),
                            seen_head,
                            budget,
                        ) == composed_chunks(
                            chunks@,
                            orderedv.skip(i + 1 as int),
                            views_of(seen@),
                            budget,
                        ));
                        if i == 0 && has_chunk_with_id(chunks@, ordered_ids@[0]@) {
                            lemma_first_chunk_index_props(chunks@, id@);
                            assert(false);
                        }
                    }
                },
            }
        } else {
            proof {
                assert(composed_chunks(
                    chunks@,
                    orderedv.skip(i as int),
                    views_of(seen@),
                    cap - out@.len(),
                ) == composed_chunks(
                    chunks@,
                    orderedv.skip(i + 1 as int),
                    views_of(seen@),
                    cap - out@.len(),
                ));
            }
        }
        i = i + 1;
    }
    proof {
        if i >= ordered_ids@.len() {
            assert(orderedv.skip(i as int).len() == 0);
            assert(composed_chunks(
                chunks@,
                orderedv.skip(i as int),
                views_of(seen@),
                cap - out@.len(),
            ) =~= Seq::<CodeChunk>::empty());
        } else {
            assert(out@.len() == cap);
            assert(composed_chunks(
                chunks@,
                orderedv.skip(i as int),
                views_of(seen@),
                0,
            ) =~= Seq::<CodeChunk>::empty());
        }
        assert(full =~= emitted);
        assert(emitted + Seq::<CodeChunk>::empty() =~= emitted);
    }
    out
}

proof fn lemma_first_chunk_index_props(chunks: Seq<CodeChunk>, id: Seq<char>)
    ensures
        (first_chunk_index(chunks, id) is Some) <==> exists|m: int|
            0 <= m < chunks.len() && (#[trigger] chunks[m]).id@ == id,
        first_chunk_index(chunks, id) matches Some(m) ==> 0 <= m < chunks.len() && chunks[m].id@
            == id,
    decreases chunks.len(),
{
    if chunks.len() > 0 {
        lemma_first_chunk_index_props(chunks.drop_first(), id);
        if chunks[0].id@ == id {
        } else {
            if exists|m: int| 0 <= m < chunks.len() && (#[trigger] chunks[m]).id@ == id {
                let w = choose|w: int| 0 <= w < chunks.len() && (#[trigger] chunks[w]).id@ == id;
                assert(chunks.drop_first()[w - 1] == chunks[w]);
            }
            match first_chunk_index(chunks, id) {
                Some(m) => {
                    assert(chunks[m] == chunks.drop_first()[m - 1]);
                },
                None => {},
            }
        }
    }
}

/// Whether a snapshot chunk's symbol equals the trimmed query,
/// case-insensitively.
pub open spec fn indexed_symbol_matches(c: IndexedChunk, q: Seq<char>) -> bool {
    match c.symbol {
        Some(s) => lower_of(s@) == lower_of(trim_spec(q)),
        None => false,
    }
}

/// The first snapshot chunk whose symbol matches the query.
pub open spec fn first_symbol_index(chunks: Seq<IndexedChunk>, q: Seq<char>) -> Option<int>
    decreases chunks.len(),
{
    if chunks.len() == 0 {
        None
    } else if indexed_symbol_matches(chunks[0], q) {
        Some(0int)
    } else {
        match first_symbol_index(chunks.drop_first(), q) {
            Some(m) => Some(m + 1),
            None => None,
        }
    }
}

proof fn lemma_first_symbol_at(chunks: Seq<IndexedChunk>, q: Seq<char>, i: int)
    requires
        0 <= i < chunks.len(),
        indexed_symbol_matches(chunks[i], q),
        forall|k: int| 0 <= k < i ==> !indexed_symbol_matches(#[trigger] chunks[k], q),
    ensures
        first_symbol_index(chunks, q) == Some(i),
    decreases i,
{
    if i > 0 {
        assert(chunks.drop_first()[i - 1] == chunks[i]);
        assert forall|k: int|
            0 <= k < i - 1 implies !indexed_symbol_matches(
            #[trigger] chunks.drop_first()[k],
            q,
        ) by {
            assert(chunks.drop_first()[k] == chunks[k + 1]);
        }
        lemma_first_symbol_at(chunks.drop_first(), q, i - 1);
    }
}

proof fn lemma_first_symbol_absent(chunks: Seq<IndexedChunk>, q: Seq<char>)
    requires
        forall|k: int| 0 <= k < chunks.len() ==> !indexed_symbol_matches(#[trigger] chunks[k], q),
    ensures
        first_symbol_index(chunks, q) is None,
    decreases chunks.len(),
{
    if chunks.len() > 0 {
        assert forall|k: int|
            0 <= k < chunks.drop_first().len() implies !indexed_symbol_matches(
            #[trigger] chunks.drop_first()[k],
            q,
        ) by {
            assert(chunks.drop_first()[k] == chunks[k + 1]);
        }
        lemma_first_symbol_absent(chunks.drop_first(), q);
    }
}

/// The item was built from the given snapshot chunk, snippet included.
pub open spec fn item_matches_indexed(item: SearchResultItem, c: IndexedChunk) -> bool {
    &&& item.file == c.file
    &&& (match c.symbol {
        Some(s) => item.function == s,
        None => item.function@ == "chunk"@,
    })
    &&& item.start_line == c.start_line
    &&& item.end_line == c.end_line
    &&& item.code_block@ == trim_snippet_spec(c.content@, 120, 6000)
}

/// The item names some chunk of the snapshot.
pub open spec fn item_from_snapshot(item: SearchResultItem, chunks: Seq<IndexedChunk>) -> bool {
    exists|m: int| 0 <= m < chunks.len() && item_matches_indexed(item, #[trigger] chunks[m])
}

/// A rebuilt chunk mirrors its snapshot source field by field.
pub open spec fn chunk_image(c: CodeChunk, src: IndexedChunk) -> bool {
    &&& c.id@ == stable_id_spec(src)
    &&& c.file_path == src.file
    &&& c.symbol == src.symbol
    &&& c.start_line == src.start_line
    &&& c.end_line == src.end_line
    &&& c.content == src.content
}

pub open spec fn images_of_chunks(built: Seq<CodeChunk>, src: Seq<IndexedChunk>) -> bool {
    built.len() == src.len() && forall|m: int|
        0 <= m < src.len() ==> chunk_image(#[trigger] built[m], src[m])
}

/// The first snapshot chunk whose stable id is the given id.
pub open spec fn first_source_index(src: Seq<IndexedChunk>, id: Seq<char>) -> Option<int>
    decreases src.len(),
{
    if src.len() == 0 {
        None
    } else if stable_id_spec(src[0]) == id {
        Some(0int)
    } else {
        match first_source_index(src.drop_first(), id) {
            Some(m) => Some(m + 1),
            None => None,
        }
    }
}

/// The snapshot chunks the composition emits, mirroring `composed_chunks`
/// over the on-disk chunk forms with their stable ids.
pub open spec fn composed_sources(
    src: Seq<IndexedChunk>,
    ordered: Seq<Seq<char>>,
    seen: Seq<Seq<char>>,
    budget: int,
) -> Seq<IndexedChunk>
    decreases ordered.len(),
{
    if budget <= 0 || ordered.len() == 0 {
        Seq::empty()
    } else {
        let id = ordered[0];
        if seen.contains(id) {
            composed_sources(src, ordered.drop_first(), seen, budget)
        } else {
            match first_source_index(src, id) {
                Some(m) => seq![src[m]] + composed_sources(
                    src,
                    ordered.drop_first(),
                    seen.push(id),
                    budget - 1,
                ),
                None => composed_sources(src, ordered.drop_first(), seen.push(id), budget),
            }
        }
    }
}

proof fn lemma_first_index_image(built: Seq<CodeChunk>, src: Seq<IndexedChunk>, id: Seq<char>)
    requires
        images_of_chunks(built, src),
    ensures
        first_chunk_index(built, id) == first_source_index(src, id),
    decreases built.len(),
{
    if built.len() > 0 {
        assert(chunk_image(built[0], src[0]));
        assert(images_of_chunks(built.drop_first(), src.drop_first())) by {
            assert forall|m: int|
                0 <= m < src.drop_first().len() implies chunk_image(
                #[trigger] built.drop_first()[m],
                src.drop_first()[m],
            ) by {
                assert(built.drop_first()[m] == built[m + 1]);
                assert(src.drop_first()[m] == src[m + 1]);
            }
        }
        lemma_first_index_image(built.drop_first(), src.drop_first(), id);
    }
}

proof fn lemma_composed_images(
    built: Seq<CodeChunk>,
    src: Seq<IndexedChunk>,
    ordered: Seq<Seq<char>>,
    seen: Seq<Seq<char>>,
    budget: int,
)
    requires
        images_of_chunks(built, src),
    ensures
        ({
            let cb = composed_chunks(built, ordered, seen, budget);
            let cs = composed_sources(src, ordered, seen, budget);
            cb.len() == cs.len() && forall|j: int|
                0 <= j < cb.len() ==> chunk_image(#[trigger] cb[j], cs[j])
        }),
    decreases ordered.len(),
{
    if budget <= 0 || ordered.len() == 0 {
    } else {
        let id = ordered[0];
        lemma_first_index_image(built, src, id);
        if seen.contains(id) {
            lemma_composed_images(built, src, ordered.drop_first(), seen, budget);
        } else {
            match first_source_index(src, id) {
                Some(m) => {
                    lemma_composed_images(
                        built,
                        src,
                        ordered.drop_first(),
                        seen.push(id),
                        budget - 1,
                    );
                    let cb = composed_chunks(built, ordered, seen, budget);
                    let cs = composed_sources(src, ordered, seen, budget);
                    lemma_first_chunk_index_props(built, id);
                    assert(0 <= m < src.len());
                    assert(chunk_image(built[m], src[m]));
                    assert forall|j: int| 0 <= j < cb.len() implies chunk_image(
                        #[trigger] cb[j],
                        cs[j],
                    ) by {
                        if j > 0 {
                            assert(cb[j] == composed_chunks(
                                built,
                                ordered.drop_first(),
                                seen.push(id),
                                budget - 1,
                            )[j - 1]);
                            assert(cs[j] == composed_sources(
                                src,
                                ordered.drop_first(),
                                seen.push(id),
                                budget - 1,
                            )[j - 1]);
                        }
                    }
                },
                None => {
                    lemma_composed_images(
                        built,
                        src,
                        ordered.drop_first(),
                        seen.push(id),
                        budget,
                    );
                },
            }
        }
    }
}

/// The head of the composed order: the exact-symbol hit's stable id, when
/// the query names one.
pub open spec fn exact_prefix(src: Seq<IndexedChunk>, q: Seq<char>) -> Seq<Seq<char>> {
    match first_symbol_index(src, q) {
        Some(e) => seq![stable_id_spec(src[e])],
        None => Seq::empty(),
    }
}

/// The items are exactly the composition of the ordered ids over the
/// snapshot: same length, each item built from the emitted chunk.
pub open spec fn items_match_composition(
    items: Seq<SearchResultItem>,
    src: Seq<IndexedChunk>,
    ordered: Seq<Seq<char>>,
    top_k: usize,
) -> bool {
    let emitted = composed_sources(
        src,
        ordered,
        Seq::empty(),
        if top_k == 0 {
            1int
        } else {
            top_k as int
        },
    );
    items.len() == emitted.len() && forall|j: int|
        0 <= j < items.len() ==> item_matches_indexed(#[trigger] items[j], emitted[j])
}

/// The truncation the fusion inputs get so their exact arithmetic cannot
/// overflow.
pub open spec fn fusion_cut(n: nat) -> int {
    if n < 0x10000000 {
        n as int
    } else {
        0x10000000
    }
}

fn truncate_ids(v: &Vec<String>, cap: usize) -> (r: Vec<String>)
    ensures
        r@.len() <= cap,
        views_of(r@) == views_of(v@).take(if v@.len() < cap {
            v@.len() as int
        } else {
            cap as int
        }),
{
    let n = if v.len() < cap {
        v.len()
    } else {
        cap
    };
    let mut out: Vec<String> = Vec::new();
    let mut i: usize = 0;
    while i < n
        invariant
            n <= v@.len(),
            i <= n,
            out@.len() == i,
            views_of(out@) == views_of(v@).take(i as int),
        decreases n - i,
    {
        out.push(v[i].clone());
        proof {
            assert(views_of(out@) =~= views_of(v@).take(i + 1 as int));
        }
        i = i + 1;
    }
    out
}

/// Answers one query against a project snapshot: the snapshot's chunks are
/// rebuilt, an exact-symbol hit (if any) goes first, then the lexical ids
/// follow (fast tier) or the lexical and semantic rankings are fused, and
/// the ordered ids are composed into at most `max(1, top_k)` items —
/// first occurrence of each id that names a chunk, in order.
pub fn scoped_project_results(
    project: &IndexedProject,
    query: &str,
    top_k: usize,
    tier: RetrievalTier,
    lexical_ids: &Vec<String>,
    semantic_ids: &Vec<String>,
) -> (r: Vec<SearchResultItem>)
    ensures
        r@.len() <= (if top_k == 0 {
            1int
        } else {
            top_k as int
        }),
        project.chunks@.len() == 0 ==> r@.len() == 0,
        forall|j: int| 0 <= j < r@.len() ==> item_from_snapshot(#[trigger] r@[j], project.chunks@),
        (exists|i: int|
            0 <= i < project.chunks@.len() && indexed_symbol_matches(
                #[trigger] project.chunks@[i],
                query@,
            )) ==> r@.len() >= 1,
        tier == RetrievalTier::Fast ==> items_match_composition(
            r@,
            project.chunks@,
            exact_prefix(project.chunks@, query@) + views_of(lexical_ids@),
            top_k,
        ),
        tier != RetrievalTier::Fast ==> exists|fused: Seq<Seq<char>>|
            #[trigger] rrf_output_ok(
                fused,
                views_of(lexical_ids@).take(fusion_cut(lexical_ids@.len())),
                views_of(semantic_ids@).take(fusion_cut(semantic_ids@.len())),
                60,
                1000,
                700,
            ) && items_match_composition(
                r@,
                project.chunks@,
                exact_prefix(project.chunks@, query@) + fused,
                top_k,
            ),
{
    let mut chunks: Vec<CodeChunk> = Vec::new();
    let mut i: usize = 0;
    while i < project.chunks.len()
        invariant
            i <= project.chunks@.len(),
            chunks@.len() == i,
            forall|m: int| 0 <= m < i ==> chunk_image(#[trigger] chunks@[m], project.chunks@[m]),
        decreases project.chunks@.len() - i,
    {
        let c = to_code_chunk(&project.chunks[i]);
        chunks.push(c);
        i = i + 1;
    }
    proof {
        assert(images_of_chunks(chunks@, project.chunks@));
        assert forall|k: int|
            0 <= k < chunks@.len() implies symbol_matches(#[trigger] chunks@[k], query@)
            == indexed_symbol_matches(project.chunks@[k], query@) by {
            assert(chunks@[k].symbol == project.chunks@[k].symbol);
        }
    }
    let exact = find_exact_symbol(&chunks, query);
    let mut ordered: Vec<String> = Vec::new();
    match exact {
        Some(e) => {
            ordered.push(chunks[e].id.clone());
            proof {
                assert(indexed_symbol_matches(project.chunks@[e as int], query@)) by {
                    assert(symbol_matches(chunks@[e as int], query@));
                }
                assert forall|k: int| 0 <= k < e implies !indexed_symbol_matches(
                    #[trigger] project.chunks@[k],
                    query@,
                ) by {
                    assert(!symbol_matches(chunks@[k], query@));
                }
                lemma_first_symbol_at(project.chunks@, query@, e as int);
                assert(chunks@[e as int].id@ == stable_id_spec(project.chunks@[e as int]));
                assert(views_of(ordered@) =~= exact_prefix(project.chunks@, query@));
            }
        },
        None => {
            proof {
                assert forall|k: int|
                    0 <= k < project.chunks@.len() implies !indexed_symbol_matches(
                    #[trigger] project.chunks@[k],
                    query@,
                ) by {
                    assert(!symbol_matches(chunks@[k], query@));
                }
                lemma_first_symbol_absent(project.chunks@, query@);
                assert(views_of(ordered@) =~= exact_prefix(project.chunks@, query@));
            }
        },
    }
    let ghost prefix = views_of(ordered@);
    let ghost mut tail_v: Seq<Seq<char>> = Seq::empty();
    match tier {
        RetrievalTier::Fast => {
            let mut j: usize = 0;
            proof {
                assert(views_of(lexical_ids@).take(0) =~= Seq::<Seq<char>>::empty());
                assert(views_of(ordered@) =~= prefix + views_of(lexical_ids@).take(0));
            }
            while j < lexical_ids.len()
                invariant
                    j <= lexical_ids@.len(),
                    prefix == views_of(ordered@).take(prefix.len() as int),
                    views_of(ordered@) == prefix + views_of(lexical_ids@).take(j as int),
                decreases lexical_ids@.len() - j,
            {
                let ghost oh = views_of(ordered@);
                ordered.push(lexical_ids[j].clone());
                proof {
                    assert(views_of(ordered@) =~= oh.push(lexical_ids@[j as int]@));
                    assert(views_of(lexical_ids@)[j as int] == lexical_ids@[j as int]@);
                    assert(views_of(ordered@) =~= prefix + views_of(lexical_ids@).take(
                        j + 1 as int,
                    ));
                    assert(prefix =~= views_of(ordered@).take(prefix.len() as int));
                }
                j = j + 1;
            }
            proof {
                assert(views_of(lexical_ids@).take(lexical_ids@.len() as int) =~= views_of(
                    lexical_ids@,
                ));
                tail_v = views_of(lexical_ids@);
                assert(views_of(ordered@) == prefix + tail_v);
            }
        },
        _ => {
            let lex = truncate_ids(lexical_ids, 0x10000000);
            let sem = truncate_ids(semantic_ids, 0x10000000);
            proof {
                assert(rrf_inputs_bounded(views_of(lex@), views_of(sem@), 60, 1000, 700));
            }
            let fused = rrf_fuse(&lex, &sem, 60, 1000, 700);
            let mut j: usize = 0;
            proof {
                assert(views_of(fused@).take(0) =~= Seq::<Seq<char>>::empty());
                assert(views_of(ordered@) =~= prefix + views_of(fused@).take(0));
            }
            while j < fused.len()
                invariant
                    j <= fused@.len(),
                    views_of(ordered@) == prefix + views_of(fused@).take(j as int),
                decreases fused@.len() - j,
            {
                let ghost oh = views_of(ordered@);
                ordered.push(fused[j].clone());
                proof {
                    assert(views_of(ordered@) =~= oh.push(fused@[j as int]@));
                    assert(views_of(fused@)[j as int] == fused@[j as int]@);
                    assert(views_of(ordered@) =~= prefix + views_of(fused@).take(j + 1 as int));
                }
                j = j + 1;
            }
            proof {
                assert(views_of(fused@).take(fused@.len() as int) =~= views_of(fused@));
                tail_v = views_of(fused@);
                assert(views_of(ordered@) == prefix + tail_v);
                assert(views_of(lex@) == views_of(lexical_ids@).take(
                    fusion_cut(lexical_ids@.len()),
                ));
                assert(views_of(sem@) == views_of(semantic_ids@).take(
                    fusion_cut(semantic_ids@.len()),
                ));
                assert(rrf_output_ok(
                    tail_v,
                    views_of(lexical_ids@).take(fusion_cut(lexical_ids@.len())),
                    views_of(semantic_ids@).take(fusion_cut(semantic_ids@.len())),
                    60,
                    1000,
                    700,
                ));
            }
        },
    }
    let out = compose_search_results(&chunks, &ordered, top_k);
    proof {
        let cap: int = if top_k == 0 {
            1int
        } else {
            top_k as int
        };
        lemma_composed_images(
            chunks@,
            project.chunks@,
            views_of(ordered@),
            Seq::empty(),
            cap,
        );
        let eb = composed_chunks(chunks@, views_of(ordered@), Seq::empty(), cap);
        let es = composed_sources(project.chunks@, views_of(ordered@), Seq::empty(), cap);
        assert forall|j: int| 0 <= j < out@.len() implies item_matches_indexed(
            #[trigger] out@[j],
            es[j],
        ) by {
            assert(item_core_matches(out@[j], eb[j]));
            assert(chunk_image(eb[j], es[j]));
            assert(eb[j].content@ == es[j].content@);
        }
        assert forall|j: int| 0 <= j < out@.len() implies item_from_snapshot(
            #[trigger] out@[j],
            project.chunks@,
        ) by {
            assert(item_from_chunks(out@[j], chunks@));
            let m = choose|m: int|
                0 <= m < chunks@.len() && item_core_matches(out@[j], #[trigger] chunks@[m]);
            assert(chunk_image(chunks@[m], project.chunks@[m]));
            assert(item_matches_indexed(out@[j], project.chunks@[m]));
        }
        if project.chunks@.len() == 0 {
            if out@.len() > 0 {
                assert(item_from_chunks(out@[0], chunks@));
                let m = choose|m: int|
                    0 <= m < chunks@.len() && item_core_matches(out@[0], #[trigger] chunks@[m]);
                assert(false);
            }
        }
        if exists|i2: int|
            0 <= i2 < project.chunks@.len() && indexed_symbol_matches(
                #[trigger] project.chunks@[i2],
                query@,
            ) {
            let w = choose|i2: int|
                0 <= i2 < project.chunks@.len() && indexed_symbol_matches(
                    #[trigger] project.chunks@[i2],
                    query@,
                );
            assert(symbol_matches(chunks@[w], query@));
            match exact {
                Some(e) => {
                    assert(prefix.len() == 1);
                    assert(views_of(ordered@)[0] == prefix[0]);
                    assert(ordered@[0]@ == chunks@[e as int].id@);
                    assert(has_chunk_with_id(chunks@, ordered@[0]@));
                },
                None => {
                    assert(!symbol_matches(chunks@[w], query@));
                    assert(false);
                },
            }
        }
        assert(out@.len() == es.len());
        assert forall|j: int| 0 <= j < out@.len() implies item_matches_indexed(
            #[trigger] out@[j],
            composed_sources(
                project.chunks@,
                exact_prefix(project.chunks@, query@) + tail_v,
                Seq::empty(),
                cap,
            )[j],
        ) by {
            assert(views_of(ordered@) == exact_prefix(project.chunks@, query@) + tail_v);
        }
        assert(items_match_composition(
            out@,
            project.chunks@,
            exact_prefix(project.chunks@, query@) + tail_v,
            top_k,
        ));
        match tier {
            RetrievalTier::Fast => {
                assert(tail_v == views_of(lexical_ids@));
            },
            _ => {
                assert(rrf_output_ok(
                    tail_v,
                    views_of(lexical_ids@).take(fusion_cut(lexical_ids@.len())),
                    views_of(semantic_ids@).take(fusion_cut(semantic_ids@.len())),
                    60,
                    1000,
                    700,
                ) && items_match_composition(
                    out@,
                    project.chunks@,
                    exact_prefix(project.chunks@, query@) + tail_v,
                    top_k,
                ));
            },
        }
    }
    out
}

} // verus!
