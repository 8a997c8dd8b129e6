//! The in-memory store of chunks with their embedding vectors, and the
//! per-document chunk counts.

use vstd::prelude::*;

use crate::document_processor::Chunk;
use crate::keyed::{
    keyed_map, keys_distinct, lemma_keyed_map, lemma_keyed_map_push, lemma_keyed_map_remove,
    lemma_keyed_map_update,
};
use crate::text::str_equal;

verus! {

/// Chunks, each with its embedding vector of type `V`, in the order they were
/// added, and for each document name the number of chunks recorded for it.
pub struct VectorStore<V> {
    entries: Vec<(Chunk, V)>,
    doc_counts: Vec<(String, usize)>,
}

/// The count recorded for `name`, 0 when there is none.
pub open spec fn count_of(counts: Map<Seq<char>, usize>, name: Seq<char>) -> nat {
    if counts.contains_key(name) {
        counts[name] as nat
    } else {
        0
    }
}

/// The document name under which `add` records chunks: the source of the
/// first chunk, or the empty name when there are none.
pub open spec fn added_source(chunks: Seq<Chunk>) -> Seq<char> {
    if chunks.len() > 0 {
        chunks[0].source@
    } else {
        Seq::empty()
    }
}

/// Chunks paired with vectors position by position, as far as both go.
pub open spec fn paired<V>(chunks: Seq<Chunk>, vectors: Seq<V>) -> Seq<(Chunk, V)> {
    let m = if chunks.len() < vectors.len() {
        chunks.len()
    } else {
        vectors.len()
    };
    Seq::new(m, |i: int| (chunks[i], vectors[i]))
}

/// Pairing keeps positions: as many pairs as the shorter list has items,
/// and pair `i` is chunk `i` with vector `i`, so every chunk carries its own
/// embedding.
pub proof fn law_pairs_keep_positions<V>(chunks: Seq<Chunk>, vectors: Seq<V>)
    ensures
        paired(chunks, vectors).len() == if chunks.len() < vectors.len() {
            chunks.len()
        } else {
            vectors.len()
        },
        forall|i: int|
            0 <= i < paired(chunks, vectors).len() ==> #[trigger] paired(chunks, vectors)[i] == (
                chunks[i],
                vectors[i],
            ),
{
}

/// Whether an entry's chunk comes from a source other than `source`.
pub open spec fn kept_after_removing<V>(source: Seq<char>) -> spec_fn((Chunk, V)) -> bool {
    |e: (Chunk, V)| e.0.source@ != source
}

/// Whether an entry's chunk comes from `source`.
pub open spec fn from_source<V>(source: Seq<char>) -> spec_fn((Chunk, V)) -> bool {
    |e: (Chunk, V)| e.0.source@ == source
}

/// Every document's recorded count is the number of stored chunks from it
/// (a name with no record counting as 0).
pub open spec fn counts_consistent<V>(
    entries: Seq<(Chunk, V)>,
    counts: Map<Seq<char>, usize>,
) -> bool {
    forall|s: Seq<char>|
        #[trigger] count_of(counts, s) == entries.filter(from_source::<V>(s)).len()
}

/// The sum of the counts in a list of (document, count) records.
pub open spec fn count_total(docs: Seq<(Seq<char>, usize)>) -> nat
    decreases docs.len(),
{
    if docs.len() == 0 {
        0
    } else {
        count_total(docs.drop_last()) + docs.last().1 as nat
    }
}

/// Replacing record `i` changes the total by the difference of the counts.
proof fn lemma_count_total_update(docs: Seq<(Seq<char>, usize)>, i: int, entry: (Seq<char>, usize))
    requires
        0 <= i < docs.len(),
    ensures
        count_total(docs.update(i, entry)) == count_total(docs) - docs[i].1 + entry.1,
    decreases docs.len(),
{
    let updated = docs.update(i, entry);
    if i == docs.len() - 1 {
        assert(updated.drop_last() =~= docs.drop_last());
    } else {
        lemma_count_total_update(docs.drop_last(), i, entry);
        assert(updated.drop_last() =~= docs.drop_last().update(i, entry));
    }
}

/// Removing record `i` takes its count off the total.
proof fn lemma_count_total_remove(docs: Seq<(Seq<char>, usize)>, i: int)
    requires
        0 <= i < docs.len(),
    ensures
        count_total(docs.remove(i)) == count_total(docs) - docs[i].1,
    decreases docs.len(),
{
    if i == docs.len() - 1 {
        assert(docs.remove(i) =~= docs.drop_last());
    } else {
        lemma_count_total_remove(docs.drop_last(), i);
        assert(docs.remove(i).drop_last() =~= docs.drop_last().remove(i));
    }
}

/// The entries from `source` and the others together are all the entries.
proof fn lemma_filter_split_len<V>(entries: Seq<(Chunk, V)>, source: Seq<char>)
    ensures
        entries.filter(from_source::<V>(source)).len() + entries.filter(
            kept_after_removing::<V>(source),
        ).len() == entries.len(),
    decreases entries.len(),
{
    reveal(Seq::filter);
    if entries.len() > 0 {
        lemma_filter_split_len(entries.drop_last(), source);
    }
}

/// Filtering keeps everything when every element passes, and nothing when
/// none does.
proof fn lemma_filter_all_or_none<A>(s: Seq<A>, pred: spec_fn(A) -> bool)
    ensures
        (forall|i: int| 0 <= i < s.len() ==> pred(#[trigger] s[i])) ==> s.filter(pred) == s,
        (forall|i: int| 0 <= i < s.len() ==> !pred(#[trigger] s[i])) ==> s.filter(pred).len()
            == 0,
    decreases s.len(),
{
    reveal(Seq::filter);
    if s.len() > 0 {
        lemma_filter_all_or_none(s.drop_last(), pred);
        if forall|i: int| 0 <= i < s.len() ==> pred(#[trigger] s[i]) {
            assert forall|i: int| 0 <= i < s.drop_last().len() implies pred(
                #[trigger] s.drop_last()[i],
            ) by {
                assert(s.drop_last()[i] == s[i]);
            }
            assert(s.drop_last().push(s.last()) =~= s);
        }
        if forall|i: int| 0 <= i < s.len() ==> !pred(#[trigger] s[i]) {
            assert forall|i: int| 0 <= i < s.drop_last().len() implies !pred(
                #[trigger] s.drop_last()[i],
            ) by {
                assert(s.drop_last()[i] == s[i]);
            }
            assert(!pred(s[s.len() - 1]));
        }
    }
}

/// Filtering by `p` and then by a stronger `q` is filtering by `q`.
proof fn lemma_filter_twice<A>(s: Seq<A>, p: spec_fn(A) -> bool, q: spec_fn(A) -> bool)
    requires
        forall|a: A| #[trigger] q(a) ==> p(a),
    ensures
        s.filter(p).filter(q) == s.filter(q),
    decreases s.len(),
{
    reveal(Seq::filter);
    if s.len() > 0 {
        lemma_filter_twice(s.drop_last(), p, q);
        if p(s.last()) {
            let sub = s.drop_last().filter(p);
            assert(sub.push(s.last()).drop_last() =~= sub);
        }
    }
}

/// After `remove_document(source)` no stored chunk comes from `source`, and
/// the number removed is the number of chunks that came from it.
pub proof fn law_remove_takes_exactly_the_source<V>(entries: Seq<(Chunk, V)>, source: Seq<char>)
    ensures
        forall|i: int|
            0 <= i < entries.filter(kept_after_removing::<V>(source)).len() ==> (#[trigger] entries.filter(
                kept_after_removing::<V>(source),
            )[i]).0.source@ != source,
        entries.len() - entries.filter(kept_after_removing::<V>(source)).len() == entries.filter(
            from_source::<V>(source),
        ).len(),
{
    broadcast use Seq::lemma_filter_pred;

    lemma_filter_split_len(entries, source);
}

/// Adding chunks of a document that the store does not hold, then removing
/// that document, gives back the entries and counts from before.
pub proof fn law_add_then_remove_restores<V>(
    entries: Seq<(Chunk, V)>,
    counts: Map<Seq<char>, usize>,
    chunks: Seq<Chunk>,
    vectors: Seq<V>,
    count: usize,
)
    requires
        chunks.len() > 0,
        forall|i: int| 0 <= i < chunks.len() ==> (#[trigger] chunks[i]).source@ == chunks[0].source@,
        forall|i: int| 0 <= i < entries.len() ==> (#[trigger] entries[i]).0.source@ != chunks[0].source@,
        !counts.contains_key(chunks[0].source@),
    ensures
        (entries + paired(chunks, vectors)).filter(kept_after_removing::<V>(added_source(chunks)))
            == entries,
        counts.insert(added_source(chunks), count).remove(added_source(chunks)) == counts,
{
    let s = added_source(chunks);
    let keep = kept_after_removing::<V>(s);
    let p = paired(chunks, vectors);
    Seq::filter_distributes_over_add(entries, p, keep);
    lemma_filter_all_or_none(entries, keep);
    lemma_filter_all_or_none(p, keep);
    assert(forall|i: int| 0 <= i < p.len() ==> !keep(#[trigger] p[i]));
    assert(p.filter(keep) =~= Seq::<(Chunk, V)>::empty());
    assert(entries.filter(keep) + p.filter(keep) =~= entries);
    assert(counts.insert(s, count).remove(s) =~= counts);
}

/// Adding chunks that all come from one document, each with a vector, keeps
/// the recorded counts equal to the stored chunks per document.
pub proof fn law_add_keeps_counts_consistent<V>(
    entries: Seq<(Chunk, V)>,
    counts: Map<Seq<char>, usize>,
    chunks: Seq<Chunk>,
    vectors: Seq<V>,
)
    requires
        counts_consistent(entries, counts),
        vectors.len() >= chunks.len(),
        forall|i: int| 0 <= i < chunks.len() ==> (#[trigger] chunks[i]).source@ == added_source(chunks),
        count_of(counts, added_source(chunks)) + chunks.len() <= usize::MAX,
    ensures
        counts_consistent(
            entries + paired(chunks, vectors),
            counts.insert(
                added_source(chunks),
                (count_of(counts, added_source(chunks)) + chunks.len()) as usize,
            ),
        ),
{
    let src = added_source(chunks);
    let p = paired(chunks, vectors);
    let new_counts = counts.insert(src, (count_of(counts, src) + chunks.len()) as usize);
    assert forall|t: Seq<char>| #[trigger] count_of(new_counts, t) == (entries + p).filter(
        from_source::<V>(t),
    ).len() by {
        Seq::filter_distributes_over_add(entries, p, from_source::<V>(t));
        lemma_filter_all_or_none(p, from_source::<V>(t));
        assert(count_of(counts, t) == entries.filter(from_source::<V>(t)).len());
        if t == src {
            assert(forall|i: int| 0 <= i < p.len() ==> from_source::<V>(t)(#[trigger] p[i]));
        } else {
            assert(forall|i: int| 0 <= i < p.len() ==> !from_source::<V>(t)(#[trigger] p[i]));
        }
    }
}

/// Removing a document keeps the recorded counts equal to the stored chunks
/// per document.
pub proof fn law_remove_keeps_counts_consistent<V>(
    entries: Seq<(Chunk, V)>,
    counts: Map<Seq<char>, usize>,
    source: Seq<char>,
)
    requires
        counts_consistent(entries, counts),
    ensures
        counts_consistent(
            entries.filter(kept_after_removing::<V>(source)),
            counts.remove(source),
        ),
{
    let kept = entries.filter(kept_after_removing::<V>(source));
    assert forall|t: Seq<char>| #[trigger] count_of(counts.remove(source), t) == kept.filter(
        from_source::<V>(t),
    ).len() by {
        assert(count_of(counts, t) == entries.filter(from_source::<V>(t)).len());
        if t == source {
            broadcast use Seq::lemma_filter_pred;

            lemma_filter_all_or_none(kept, from_source::<V>(t));
            assert(forall|i: int| 0 <= i < kept.len() ==> !from_source::<V>(t)(#[trigger] kept[i]));
        } else {
            lemma_filter_twice(entries, kept_after_removing::<V>(source), from_source::<V>(t));
        }
    }
}

impl<V> VectorStore<V> {
    /// The stored entries, in the order they were added.
    pub closed spec fn entries(&self) -> Seq<(Chunk, V)> {
        self.entries@
    }

    /// The recorded documents with their chunk counts, in the order they were
    /// first recorded.
    pub closed spec fn documents(&self) -> Seq<(Seq<char>, usize)> {
        self.doc_counts@.map_values(|d: (String, usize)| (d.0@, d.1))
    }

    /// The chunk count recorded for each document name.
    pub open spec fn counts(&self) -> Map<Seq<char>, usize> {
        keyed_map(self.documents())
    }

    /// Well-formedness: each document is recorded once.
    pub open spec fn wf(&self) -> bool {
        keys_distinct(self.documents())
    }

    /// An empty store.
    pub fn new() -> (res: Self)
        ensures
            res.wf(),
            res.entries() == Seq::<(Chunk, V)>::empty(),
            res.documents() == Seq::<(Seq<char>, usize)>::empty(),
    {
        let res = Self { entries: Vec::new(), doc_counts: Vec::new() };
        assert(res.documents() =~= Seq::<(Seq<char>, usize)>::empty());
        res
    }

    /// Where `name` is recorded, if it is.
    fn find_doc(&self, name: &str) -> (res: Option<usize>)
        ensures
            match res {
                Some(i) => i < self.documents().len() && self.documents()[i as int].0 == name@,
                None => forall|i: int|
                    0 <= i < self.documents().len() ==> self.documents()[i].0 != name@,
            },
    {
        let mut i: usize = 0;
        while i < self.doc_counts.len()
            invariant
                i <= self.doc_counts@.len(),
                forall|k: int| 0 <= k < i ==> self.documents()[k].0 != name@,
            decreases self.doc_counts@.len() - i,
        {
            if str_equal(self.doc_counts[i].0.as_str(), name) {
                return Some(i);
            }
            i = i + 1;
        }
        None
    }

    /// Records `count` more chunks for `name`.
    fn record_chunks(&mut self, name: String, count: usize)
        requires
            old(self).wf(),
            count_of(old(self).counts(), name@) + count <= usize::MAX,
        ensures
            final(self).wf(),
            final(self).entries() == old(self).entries(),
            final(self).counts() == old(self).counts().insert(
                name@,
                (count_of(old(self).counts(), name@) + count) as usize,
            ),
            count_total(final(self).documents()) == count_total(old(self).documents()) + count,
    {
        let ghost old_docs = self.documents();
        proof {
            lemma_keyed_map(old_docs);
        }
        match self.find_doc(name.as_str()) {
            Some(i) => {
                let current = self.doc_counts[i].1;
                self.doc_counts.set(i, (name, current + count));
                assert(self.documents() =~= old_docs.update(
                    i as int,
                    (old_docs[i as int].0, (current + count) as usize),
                ));
                proof {
                    lemma_keyed_map_update(old_docs, i as int, (current + count) as usize);
                    lemma_count_total_update(
                        old_docs,
                        i as int,
                        (old_docs[i as int].0, (current + count) as usize),
                    );
                }
            },
            None => {
                let ghost key = name@;
                self.doc_counts.push((name, count));
                assert(self.documents() =~= old_docs.push((key, count)));
                proof {
                    lemma_keyed_map_push(old_docs, key, count);
                    assert(old_docs.push((key, count)).drop_last() =~= old_docs);
                }
            },
        }
    }

    /// Adds each chunk with the vector at the same position (as far as both
    /// lists go) and records all the chunks, however many were paired, under
    /// the source of the first chunk.
    pub fn add(&mut self, chunks: Vec<Chunk>, vectors: Vec<V>)
        requires
            old(self).wf(),
            count_of(old(self).counts(), added_source(chunks@)) + chunks@.len() <= usize::MAX,
        ensures
            final(self).wf(),
            final(self).entries() == old(self).entries() + paired(chunks@, vectors@),
            final(self).counts() == old(self).counts().insert(
                added_source(chunks@),
                (count_of(old(self).counts(), added_source(chunks@)) + chunks@.len()) as usize,
            ),
            count_total(final(self).documents()) == count_total(old(self).documents())
                + chunks@.len(),
            final(self).entries().len() == old(self).entries().len() + if chunks@.len()
                < vectors@.len() {
                chunks@.len()
            } else {
                vectors@.len()
            },
            forall|i: int|
                0 <= i < old(self).entries().len() ==> #[trigger] final(self).entries()[i]
                    == old(self).entries()[i],
            forall|i: int|
                0 <= i < final(self).entries().len() - old(self).entries().len()
                    ==> #[trigger] final(self).entries()[old(self).entries().len() + i]
                    == (chunks@[i], vectors@[i]),
            count_total(old(self).documents()) == old(self).entries().len() && chunks@.len()
                <= vectors@.len() ==> count_total(final(self).documents())
                == final(self).entries().len(),
    {
        let ghost pairs = paired(chunks@, vectors@);
        let ghost old_entries = self.entries@;
        let count = chunks.len();
        let source = if chunks.len() > 0 {
            chunks[0].source.clone()
        } else {
            String::new()
        };
        let mut cs = chunks;
        let mut vs = vectors;
        let m = if cs.len() < vs.len() {
            cs.len()
        } else {
            vs.len()
        };
        let ghost cs0 = cs@;
        let ghost vs0 = vs@;
        cs.truncate(m);
        vs.truncate(m);
        let mut reversed: Vec<(Chunk, V)> = Vec::new();
        while cs.len() > 0
            invariant
                m == pairs.len(),
                cs@.len() == vs@.len() <= m,
                cs@ == cs0.take(cs@.len() as int),
                vs@ == vs0.take(vs@.len() as int),
                pairs == paired(cs0, vs0),
                m <= cs0.len() && m <= vs0.len(),
                reversed@.len() == m - cs@.len(),
                forall|k: int| 0 <= k < reversed@.len() ==> #[trigger] reversed@[k] == pairs[m - 1 - k],
            decreases cs@.len(),
        {
            let c = cs.pop().unwrap();
            let v = vs.pop().unwrap();
            reversed.push((c, v));
        }
        while reversed.len() > 0
            invariant
                m == pairs.len(),
                reversed@.len() <= m,
                forall|k: int| 0 <= k < reversed@.len() ==> #[trigger] reversed@[k] == pairs[m - 1 - k],
                self.entries@ == old_entries + pairs.take(m - reversed@.len()),
                self.doc_counts == old(self).doc_counts,
            decreases reversed@.len(),
        {
            let ghost r = reversed@.len();
            let e = reversed.pop().unwrap();
            self.entries.push(e);
            assert(pairs.take(m - r + 1) =~= pairs.take(m - r).push(pairs[m - r]));
        }
        assert(pairs.take(m as int) =~= pairs);
        self.record_chunks(source, count);
    }

    /// Removes every chunk whose source is `source` and forgets its recorded
    /// count; returns how many chunks were removed.
    pub fn remove_document(&mut self, source: &str) -> (removed: usize)
        requires
            old(self).wf(),
        ensures
            final(self).wf(),
            final(self).entries() == old(self).entries().filter(kept_after_removing::<V>(source@)),
            removed == old(self).entries().len() - final(self).entries().len(),
            final(self).counts() == old(self).counts().remove(source@),
            count_total(final(self).documents()) == count_total(old(self).documents()) - count_of(
                old(self).counts(),
                source@,
            ),
            counts_consistent(old(self).entries(), old(self).counts()) && count_total(
                old(self).documents(),
            ) == old(self).entries().len() ==> count_total(final(self).documents())
                == final(self).entries().len(),
    {
        let ghost keep = kept_after_removing::<V>(source@);
        let mut previous: Vec<(Chunk, V)> = Vec::new();
        std::mem::swap(&mut previous, &mut self.entries);
        let ghost all = previous@;
        let before = previous.len();
        for e in it: previous.into_iter()
            invariant
                it.seq() == all,
                self.entries@ == all.take(it.index() as int).filter(keep),
                self.doc_counts == old(self).doc_counts,
                keep == kept_after_removing::<V>(source@),
        {
            let ghost i = it.index();
            assert(all.take(i + 1).drop_last() =~= all.take(i as int));
            assert(all.take(i + 1).last() == e);
            reveal_with_fuel(Seq::filter, 1);
            if !str_equal(e.0.source.as_str(), source) {
                self.entries.push(e);
            }
        }
        assert(all.take(all.len() as int) =~= all);
        proof {
            all.lemma_filter_len(keep);
        }
        let removed = before - self.entries.len();
        let ghost old_docs = self.documents();
        proof {
            lemma_keyed_map(old_docs);
        }
        match self.find_doc(source) {
            Some(i) => {
                self.doc_counts.remove(i);
                assert(self.documents() =~= old_docs.remove(i as int));
                proof {
                    lemma_keyed_map_remove(old_docs, i as int);
                    lemma_count_total_remove(old_docs, i as int);
                    assert(keyed_map(old_docs)[old_docs[i as int].0] == old_docs[i as int].1);
                }
            },
            None => {
                assert(keyed_map(old_docs).remove(source@) =~= keyed_map(old_docs));
                assert(!keyed_map(old_docs).contains_key(source@));
            },
        }
        proof {
            lemma_filter_split_len(all, source@);
            if counts_consistent(all, old(self).counts()) {
                assert(count_of(old(self).counts(), source@) == all.filter(
                    from_source::<V>(source@),
                ).len());
            }
        }
        removed
    }

    /// The names of the recorded documents.
    pub fn doc_names(&self) -> (res: Vec<String>)
        ensures
            res@.len() == self.documents().len(),
            forall|i: int| 0 <= i < res@.len() ==> #[trigger] res@[i]@ == self.documents()[i].0,
    {
        let mut res: Vec<String> = Vec::new();
        let mut i: usize = 0;
        while i < self.doc_counts.len()
            invariant
                i <= self.doc_counts@.len(),
                res@.len() == i,
                forall|k: int| 0 <= k < i ==> #[trigger] res@[k]@ == self.documents()[k].0,
            decreases self.doc_counts@.len() - i,
        {
            res.push(self.doc_counts[i].0.clone());
            i = i + 1;
        }
        res
    }

    /// Each recorded document with its chunk count.
    pub fn doc_info(&self) -> (res: Vec<(String, usize)>)
        ensures
            res@.len() == self.documents().len(),
            forall|i: int|
                0 <= i < res@.len() ==> (#[trigger] res@[i]).0@ == self.documents()[i].0 && res@[i].1
                    == self.documents()[i].1,
    {
        let mut res: Vec<(String, usize)> = Vec::new();
        let mut i: usize = 0;
        while i < self.doc_counts.len()
            invariant
                i <= self.doc_counts@.len(),
                res@.len() == i,
                forall|k: int|
                    0 <= k < i ==> (#[trigger] res@[k]).0@ == self.documents()[k].0 && res@[k].1
                        == self.documents()[k].1,
            decreases self.doc_counts@.len() - i,
        {
            res.push((self.doc_counts[i].0.clone(), self.doc_counts[i].1));
            i = i + 1;
        }
        res
    }

    /// Whether `add(chunks, ..)` keeps the recorded count within `usize`
    /// (its precondition beside well-formedness).
    pub fn can_add(&self, chunks: &Vec<Chunk>) -> (res: bool)
        requires
            self.wf(),
        ensures
            res == (count_of(self.counts(), added_source(chunks@)) + chunks@.len() <= usize::MAX),
    {
        let source = if chunks.len() > 0 {
            chunks[0].source.clone()
        } else {
            String::new()
        };
        proof {
            lemma_keyed_map(self.documents());
        }
        let current: usize = match self.find_doc(source.as_str()) {
            Some(i) => self.doc_counts[i].1,
            None => 0,
        };
        current <= usize::MAX - chunks.len()
    }

    /// The number of stored chunks.
    pub fn total_chunks(&self) -> (res: usize)
        ensures
            res == self.entries().len(),
    {
        self.entries.len()
    }

    /// The stored entries, for scoring against a query.
    pub fn entry_list(&self) -> (res: &[(Chunk, V)])
        ensures
            res@ == self.entries(),
    {
        self.entries.as_slice()
    }
}

} // verus!
