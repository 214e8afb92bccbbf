//! The deduplicated store of discovered repository identifiers.
//!
//! An identifier (`owner/name`) is recorded at most once, ever. The store
//! keeps two disjoint parts: the known identifiers, loaded at startup from
//! the persisted, append-only store file and extended at the end of each
//! cycle, and the pending identifiers discovered in the current cycle but
//! not yet merged. "Already seen" means membership in either part. Pending
//! identifiers are handed out for persistence in batches, each identifier in
//! exactly one batch, so a crash loses at most the page in flight.

use vstd::prelude::*;

verus! {

/// Of `items`, read in order, the ones that are new: not in `seen` and not
/// equal to an earlier item of `items`; in discovery order.
pub open spec fn new_items_of(seen: Set<Seq<char>>, items: Seq<Seq<char>>) -> Seq<Seq<char>>
    decreases items.len(),
{
    if items.len() == 0 {
        Seq::empty()
    } else if seen.contains(items[0]) {
        new_items_of(seen, items.drop_first())
    } else {
        seq![items[0]] + new_items_of(seen.insert(items[0]), items.drop_first())
    }
}

/// The lines with every repeated line dropped, keeping first occurrences in
/// their order.
pub open spec fn dedup_lines(lines: Seq<Seq<char>>) -> Seq<Seq<char>>
    decreases lines.len(),
{
    if lines.len() == 0 {
        Seq::empty()
    } else if lines.drop_last().contains(lines.last()) {
        dedup_lines(lines.drop_last())
    } else {
        dedup_lines(lines.drop_last()).push(lines.last())
    }
}

/// How many of `items`, read in order, are new: not in `seen` and not equal
/// to an earlier item of `items`.
pub open spec fn new_count_of(seen: Set<Seq<char>>, items: Seq<Seq<char>>) -> nat
    decreases items.len(),
{
    if items.len() == 0 {
        0
    } else if seen.contains(items[0]) {
        new_count_of(seen, items.drop_first())
    } else {
        1 + new_count_of(seen.insert(items[0]), items.drop_first())
    }
}

/// The deduplicated identifier store: known identifiers (already persisted),
/// pending ones (discovered this cycle), and how many of the pending ones
/// have already been flushed to storage.
pub struct IdentifierStore {
    known: Vec<String>,
    pending: Vec<String>,
    flushed: usize,
}

impl IdentifierStore {
    /// The known identifiers, in the order they were recorded.
    pub closed spec fn known_seq(&self) -> Seq<Seq<char>> {
        self.known.deep_view()
    }

    /// The pending identifiers, in the order they were discovered.
    pub closed spec fn pending_seq(&self) -> Seq<Seq<char>> {
        self.pending.deep_view()
    }

    /// How many pending identifiers, counted from the front, have already
    /// been handed out for persistence.
    pub closed spec fn flushed(&self) -> int {
        self.flushed as int
    }

    /// The known identifiers as a set.
    pub open spec fn known_ids(&self) -> Set<Seq<char>> {
        self.known_seq().to_set()
    }

    /// The pending identifiers as a set.
    pub open spec fn pending_ids(&self) -> Set<Seq<char>> {
        self.pending_seq().to_set()
    }

    /// An identifier is seen if it is known or pending.
    pub open spec fn seen_ids(&self) -> Set<Seq<char>> {
        self.known_ids().union(self.pending_ids())
    }

    /// Each identifier stands in the store at most once: no duplicates
    /// within either part and no identifier in both.
    pub open spec fn wf(&self) -> bool {
        &&& self.known_seq().no_duplicates()
        &&& self.pending_seq().no_duplicates()
        &&& self.known_seq().disjoint(self.pending_seq())
        &&& 0 <= self.flushed() <= self.pending_seq().len()
    }

    /// An empty store.
    pub fn new() -> (s: Self)
        ensures
            s.wf(),
            s.known_seq() == Seq::<Seq<char>>::empty(),
            s.pending_seq() == Seq::<Seq<char>>::empty(),
            s.flushed() == 0,
    {
        let s = IdentifierStore { known: Vec::new(), pending: Vec::new(), flushed: 0 };
        proof {
            assert(s.known_seq() =~= Seq::<Seq<char>>::empty());
            assert(s.pending_seq() =~= Seq::<Seq<char>>::empty());
        }
        s
    }

    /// Build a store from the lines of the persisted store file, dropping
    /// duplicate lines. The result knows exactly the identifiers on the
    /// lines and has nothing pending.
    pub fn from_lines(lines: &Vec<String>) -> (s: Self)
        ensures
            s.wf(),
            s.known_seq() == dedup_lines(lines.deep_view()),
            s.known_ids() == lines.deep_view().to_set(),
            s.pending_seq() == Seq::<Seq<char>>::empty(),
            s.flushed() == 0,
    {
        let ghost lines_dv = lines.deep_view();
        let mut known: Vec<String> = Vec::new();
        let mut i: usize = 0;
        while i < lines.len()
            invariant
                i <= lines.len(),
                lines_dv == lines.deep_view(),
                lines_dv.len() == lines.len(),
                known.deep_view().no_duplicates(),
                known.deep_view() == dedup_lines(lines_dv.take(i as int)),
                known.deep_view().to_set() == lines_dv.take(i as int).to_set(),
            decreases lines.len() - i,
        {
            let ghost pre = known.deep_view();
            let line = &lines[i];
            assert(line@ == lines_dv[i as int]);
            proof {
                assert(lines_dv.take(i + 1).drop_last() =~= lines_dv.take(i as int));
                assert(lines_dv.take(i + 1).last() == lines_dv[i as int]);
                assert(pre.contains(line@) == lines_dv.take(i as int).contains(line@)) by {
                    assert(pre.to_set().contains(line@) == pre.contains(line@));
                    assert(lines_dv.take(i as int).to_set().contains(line@)
                        == lines_dv.take(i as int).contains(line@));
                }
            }
            if !contains_id(&known, line) {
                known.push(line.clone());
                assert(known.deep_view() =~= pre.push(line@));
            }
            proof {
                assert(lines_dv.take(i + 1) =~= lines_dv.take(i as int).push(lines_dv[i as int]));
                lemma_to_set_push(lines_dv.take(i as int), lines_dv[i as int]);
                if pre.contains(line@) {
                    assert(pre.to_set().insert(line@) =~= pre.to_set());
                } else {
                    lemma_to_set_push(pre, line@);
                }
                assert(known.deep_view().to_set() == lines_dv.take(i + 1).to_set());
                assert(known.deep_view() == dedup_lines(lines_dv.take(i + 1)));
            }
            i = i + 1;
        }
        proof {
            assert(lines_dv.take(lines_dv.len() as int) =~= lines_dv);
        }
        let s = IdentifierStore { known, pending: Vec::new(), flushed: 0 };
        proof {
            assert(s.pending_seq() =~= Seq::<Seq<char>>::empty());
        }
        s
    }

    /// The known identifiers, for deriving accounts or reporting.
    pub fn known_identifiers(&self) -> (v: &Vec<String>)
        ensures
            v.deep_view() == self.known_seq(),
    {
        &self.known
    }

    /// How many identifiers are known.
    pub fn num_known(&self) -> (n: usize)
        ensures
            n == self.known_seq().len(),
    {
        self.known.len()
    }

    /// How many identifiers are pending.
    pub fn num_pending(&self) -> (n: usize)
        ensures
            n == self.pending_seq().len(),
    {
        self.pending.len()
    }

    /// Whether `id` is already seen, known or pending.
    pub fn seen(&self, id: &String) -> (r: bool)
        ensures
            r == self.seen_ids().contains(id@),
    {
        let r = contains_id(&self.known, id) || contains_id(&self.pending, id);
        r
    }

    /// Classify one discovered identifier. A new one joins the pending part;
    /// a seen one leaves the store unchanged.
    pub fn record(&mut self, id: String) -> (is_new: bool)
        requires
            old(self).wf(),
        ensures
            final(self).wf(),
            is_new == !old(self).seen_ids().contains(id@),
            final(self).known_seq() == old(self).known_seq(),
            final(self).flushed() == old(self).flushed(),
            is_new ==> final(self).pending_seq() == old(self).pending_seq().push(id@),
            !is_new ==> final(self).pending_seq() == old(self).pending_seq(),
            final(self).seen_ids() == old(self).seen_ids().insert(id@),
    {
        let ghost pre = self.pending.deep_view();
        let is_new = !self.seen(&id);
        if is_new {
            let ghost idv = id@;
            self.pending.push(id);
            proof {
                assert(self.pending.deep_view() =~= pre.push(idv));
                lemma_to_set_push(pre, idv);
                assert(self.seen_ids() =~= old(self).seen_ids().insert(idv));
            }
        } else {
            proof {
                assert(self.seen_ids() =~= old(self).seen_ids().insert(id@));
            }
        }
        is_new
    }

    /// Classify one page of discovered identifiers, in order: new ones join
    /// the pending part, seen ones are counted as known. Returns the pair
    /// (new count, known count).
    pub fn process_page(&mut self, items: &Vec<String>) -> (counts: (u32, u32))
        requires
            old(self).wf(),
            items.len() <= u32::MAX,
        ensures
            final(self).wf(),
            final(self).known_seq() == old(self).known_seq(),
            final(self).flushed() == old(self).flushed(),
            final(self).seen_ids() == old(self).seen_ids().union(items.deep_view().to_set()),
            final(self).pending_seq() == old(self).pending_seq() + new_items_of(
                old(self).seen_ids(),
                items.deep_view(),
            ),
            counts.0 == new_count_of(old(self).seen_ids(), items.deep_view()),
            counts.0 + counts.1 == items.len(),
    {
        let ghost items_dv = items.deep_view();
        let ghost seen0 = old(self).seen_ids();
        let mut nb_new: u32 = 0;
        let mut nb_known: u32 = 0;
        let mut i: usize = 0;
        proof {
            assert(items_dv.skip(0) =~= items_dv);
            assert(self.seen_ids() =~= seen0.union(items_dv.take(0).to_set()));
        }
        while i < items.len()
            invariant
                old(self).wf(),
                self.wf(),
                i <= items.len(),
                items.len() <= u32::MAX,
                items_dv == items.deep_view(),
                items_dv.len() == items.len(),
                seen0 == old(self).seen_ids(),
                self.known_seq() == old(self).known_seq(),
                self.flushed() == old(self).flushed(),
                nb_new + nb_known == i,
                self.seen_ids() == seen0.union(items_dv.take(i as int).to_set()),
                nb_new + new_count_of(self.seen_ids(), items_dv.skip(i as int))
                    == new_count_of(seen0, items_dv),
                self.pending_seq() + new_items_of(self.seen_ids(), items_dv.skip(i as int))
                    == old(self).pending_seq() + new_items_of(seen0, items_dv),
            decreases items.len() - i,
        {
            let ghost cs = self.seen_ids();
            let ghost pending_pre = self.pending_seq();
            let ghost x = items_dv[i as int];
            proof {
                assert(items_dv.skip(i as int)[0] == x);
                assert(items_dv.skip(i as int).drop_first() =~= items_dv.skip(i + 1));
            }
            let item = items[i].clone();
            assert(item@ == x);
            let is_new = self.record(item);
            if is_new {
                nb_new = nb_new + 1;
                proof {
                    assert(pending_pre.push(x) + new_items_of(cs.insert(x), items_dv.skip(i + 1))
                        =~= pending_pre + (seq![x] + new_items_of(
                        cs.insert(x),
                        items_dv.skip(i + 1),
                    )));
                }
            } else {
                nb_known = nb_known + 1;
                proof {
                    assert(cs.insert(x) =~= cs);
                }
            }
            proof {
                assert(items_dv.take(i + 1) =~= items_dv.take(i as int).push(x));
                lemma_to_set_push(items_dv.take(i as int), x);
                assert(self.seen_ids() =~= seen0.union(items_dv.take(i + 1).to_set()));
            }
            i = i + 1;
        }
        proof {
            assert(items_dv.skip(items_dv.len() as int) =~= Seq::<Seq<char>>::empty());
            assert(items_dv.take(items_dv.len() as int) =~= items_dv);
            assert(self.pending_seq() + Seq::<Seq<char>>::empty() =~= self.pending_seq());
        }
        (nb_new, nb_known)
    }

    /// Hand out the pending identifiers not yet flushed to storage, oldest
    /// first, and mark them flushed. No identifier in the batch was ever in
    /// an earlier batch or in the persisted known part, so appending the
    /// batch to the store file writes nothing twice.
    pub fn take_unflushed(&mut self) -> (batch: Vec<String>)
        requires
            old(self).wf(),
        ensures
            final(self).wf(),
            final(self).known_seq() == old(self).known_seq(),
            final(self).pending_seq() == old(self).pending_seq(),
            final(self).flushed() == final(self).pending_seq().len(),
            batch.deep_view() == old(self).pending_seq().subrange(
                old(self).flushed(),
                old(self).pending_seq().len() as int,
            ),
            forall|j: int| 0 <= j < batch.deep_view().len() ==> {
                &&& !old(self).known_ids().contains(#[trigger] batch.deep_view()[j])
                &&& !old(self).pending_seq().take(old(self).flushed()).contains(
                    batch.deep_view()[j],
                )
            },
    {
        let ghost pending_dv = self.pending.deep_view();
        let ghost f0 = self.flushed as int;
        let mut batch: Vec<String> = Vec::new();
        proof {
            assert(batch.deep_view() =~= pending_dv.subrange(f0, f0));
        }
        let mut i: usize = self.flushed;
        while i < self.pending.len()
            invariant
                self == old(self),
                self.wf(),
                self.flushed <= i <= self.pending.len(),
                pending_dv == self.pending.deep_view(),
                pending_dv.len() == self.pending.len(),
                f0 == self.flushed as int,
                batch.deep_view() == pending_dv.subrange(f0, i as int),
            decreases self.pending.len() - i,
        {
            let ghost pre = batch.deep_view();
            let item = self.pending[i].clone();
            assert(item@ == pending_dv[i as int]);
            batch.push(item);
            proof {
                assert(batch.deep_view() =~= pre.push(pending_dv[i as int]));
                assert(batch.deep_view() =~= pending_dv.subrange(f0, i + 1));
            }
            i = i + 1;
        }
        self.flushed = self.pending.len();
        proof {
            let bdv = batch.deep_view();
            assert forall|j: int| 0 <= j < bdv.len() implies {
                &&& !old(self).known_ids().contains(#[trigger] bdv[j])
                &&& !old(self).pending_seq().take(f0).contains(bdv[j])
            } by {
                assert(bdv[j] == pending_dv[f0 + j]);
                if old(self).known_ids().contains(bdv[j]) {
                    let k = choose|k: int|
                        0 <= k < old(self).known_seq().len() && old(self).known_seq()[k] == bdv[j];
                    assert(old(self).known_seq()[k] != pending_dv[f0 + j]);
                }
                if old(self).pending_seq().take(f0).contains(bdv[j]) {
                    let k = choose|k: int|
                        0 <= k < f0 && old(self).pending_seq().take(f0)[k] == bdv[j];
                    assert(pending_dv[k] == pending_dv[f0 + j]);
                }
            }
        }
        batch
    }

    /// End the current cycle: hand out the still-unflushed pending batch and
    /// merge all pending identifiers into the known part.
    pub fn end_cycle(&mut self) -> (batch: Vec<String>)
        requires
            old(self).wf(),
        ensures
            final(self).wf(),
            batch.deep_view() == old(self).pending_seq().subrange(
                old(self).flushed(),
                old(self).pending_seq().len() as int,
            ),
            final(self).known_seq() == old(self).known_seq() + old(self).pending_seq(),
            final(self).known_ids() == old(self).seen_ids(),
            final(self).pending_seq() == Seq::<Seq<char>>::empty(),
            final(self).flushed() == 0,
    {
        let ghost known0 = self.known.deep_view();
        let ghost pending0 = self.pending.deep_view();
        let batch = self.take_unflushed();
        self.known.append(&mut self.pending);
        self.flushed = 0;
        proof {
            assert(self.known.deep_view() =~= known0 + pending0);
            assert(self.pending.deep_view() =~= Seq::<Seq<char>>::empty());
            let merged = known0 + pending0;
            assert(merged.no_duplicates()) by {
                assert forall|i: int, j: int|
                    0 <= i < merged.len() && 0 <= j < merged.len() && i != j implies merged[i]
                    != merged[j] by {
                    if i < known0.len() && j >= known0.len() {
                        assert(merged[i] == known0[i] && merged[j] == pending0[j - known0.len()]);
                    } else if i >= known0.len() && j < known0.len() {
                        assert(merged[j] == known0[j] && merged[i] == pending0[i - known0.len()]);
                    }
                }
            }
            lemma_to_set_concat(known0, pending0);
        }
        batch
    }
}

/// Linear membership test by string value.
fn contains_id(v: &Vec<String>, id: &String) -> (r: bool)
    ensures
        r == v.deep_view().contains(id@),
{
    let ghost dv = v.deep_view();
    let mut i: usize = 0;
    while i < v.len()
        invariant
            i <= v.len(),
            dv == v.deep_view(),
            dv.len() == v.len(),
            forall|j: int| 0 <= j < i ==> dv[j] != id@,
        decreases v.len() - i,
    {
        if v[i].eq(id) {
            assert(dv[i as int] == id@);
            return true;
        }
        i = i + 1;
    }
    false
}

/// Law: discovery is idempotent. After one pass over a response stream has
/// folded the stream's identifiers into the seen set, a second pass over the
/// identical stream leaves the seen set unchanged and classifies nothing as
/// new — so the store, which holds each seen identifier exactly once, ends
/// with each discovered identifier exactly once.
pub proof fn lemma_discovery_idempotent(seen: Set<Seq<char>>, items: Seq<Seq<char>>)
    ensures
        seen.union(items.to_set()).union(items.to_set()) == seen.union(items.to_set()),
        new_count_of(seen.union(items.to_set()), items) == 0,
{
    assert(seen.union(items.to_set()).union(items.to_set()) =~= seen.union(items.to_set()));
    assert(forall|i: int|
        0 <= i < items.len() ==> seen.union(items.to_set()).contains(#[trigger] items[i]));
    lemma_new_count_zero(seen.union(items.to_set()), items);
}

/// A stream of identifiers that are all already seen yields no new ones.
pub proof fn lemma_new_count_zero(seen: Set<Seq<char>>, items: Seq<Seq<char>>)
    requires
        forall|i: int| 0 <= i < items.len() ==> seen.contains(#[trigger] items[i]),
    ensures
        new_count_of(seen, items) == 0,
    decreases items.len(),
{
    if items.len() > 0 {
        lemma_new_count_zero(seen, items.drop_first());
    }
}

/// The elements of a concatenation are the union of the parts' elements.
pub proof fn lemma_to_set_concat(a: Seq<Seq<char>>, b: Seq<Seq<char>>)
    ensures
        (a + b).to_set() == a.to_set().union(b.to_set()),
{
    assert forall|y: Seq<char>| (a + b).to_set().contains(y)
        implies a.to_set().union(b.to_set()).contains(y) by {
        let i = choose|i: int| 0 <= i < (a + b).len() && (a + b)[i] == y;
        if i < a.len() {
            assert(a[i] == y);
        } else {
            assert(b[i - a.len()] == y);
        }
    }
    assert forall|y: Seq<char>| a.to_set().union(b.to_set()).contains(y)
        implies (a + b).to_set().contains(y) by {
        if a.to_set().contains(y) {
            let i = choose|i: int| 0 <= i < a.len() && a[i] == y;
            assert((a + b)[i] == y);
        } else {
            let i = choose|i: int| 0 <= i < b.len() && b[i] == y;
            assert((a + b)[a.len() + i] == y);
        }
    }
    assert((a + b).to_set() =~= a.to_set().union(b.to_set()));
}

/// Pushing an element onto a sequence adds exactly it to the set of elements.
pub proof fn lemma_to_set_push(s: Seq<Seq<char>>, x: Seq<char>)
    ensures
        s.push(x).to_set() == s.to_set().insert(x),
{
    assert forall|y: Seq<char>| s.push(x).to_set().contains(y)
        implies s.to_set().insert(x).contains(y) by {
        let i = choose|i: int| 0 <= i < s.push(x).len() && s.push(x)[i] == y;
        if i < s.len() {
            assert(s[i] == y);
        }
    }
    assert forall|y: Seq<char>| s.to_set().insert(x).contains(y)
        implies s.push(x).to_set().contains(y) by {
        if y == x {
            assert(s.push(x)[s.len() as int] == y);
        } else {
            let i = choose|i: int| 0 <= i < s.len() && s[i] == y;
            assert(s.push(x)[i] == y);
        }
    }
    assert(s.push(x).to_set() =~= s.to_set().insert(x));
}

} // verus!
