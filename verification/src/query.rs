//! Building the remote search query strings.
//!
//! A keyword query is the sampled keywords joined by single spaces, followed
//! by the fixed filter that constrains results to the target document type.
//! An account-scoped query carries one broadly-present keyword and a scope
//! clause for the account instead.

use vstd::prelude::*;
use vstd::string::StrSliceExecFns;
use vstd::string::StringExecFns;
use crate::weights::WeightTracker;

verus! {

/// The given character sequences joined by single spaces.
pub open spec fn joined_with_spaces(kws: Seq<Seq<char>>) -> Seq<char>
    decreases kws.len(),
{
    if kws.len() == 0 {
        Seq::empty()
    } else if kws.len() == 1 {
        kws[0]
    } else {
        joined_with_spaces(kws.drop_last()) + seq![' '] + kws.last()
    }
}

impl WeightTracker {
    /// The keywords at the given indices, in sampling order.
    pub open spec fn keywords_at(&self, idxs: Seq<usize>) -> Seq<Seq<char>> {
        idxs.map_values(|u: usize| self.keywords_seq()[u as int])
    }
}

/// Join a sampled keyword combination into one query term, keywords
/// separated by single spaces.
pub fn join_keywords(tracker: &WeightTracker, sampled: &Vec<usize>) -> (q: String)
    requires
        forall|j: int| 0 <= j < sampled@.len() ==> sampled@[j] < tracker.num_keywords(),
    ensures
        q@ == joined_with_spaces(tracker.keywords_at(sampled@)),
{
    let ghost kat = tracker.keywords_at(sampled@);
    let mut q = String::new();
    let mut i: usize = 0;
    proof {
        assert(kat.take(0) =~= Seq::<Seq<char>>::empty());
    }
    while i < sampled.len()
        invariant
            i <= sampled@.len(),
            kat == tracker.keywords_at(sampled@),
            kat.len() == sampled@.len(),
            forall|j: int| 0 <= j < sampled@.len() ==> sampled@[j] < tracker.num_keywords(),
            q@ == joined_with_spaces(kat.take(i as int)),
        decreases sampled@.len() - i,
    {
        let ghost pre = q@;
        let idx = sampled[i];
        let kw = tracker.keyword_at(idx);
        assert(kw@ == kat[i as int]);
        if i > 0 {
            q.append(" ");
        }
        q.append(kw.as_str());
        proof {
            reveal_strlit(" ");
            assert(" "@ =~= seq![' ']);
            assert(kat.take(i + 1).drop_last() =~= kat.take(i as int));
            assert(kat.take(i + 1).last() == kat[i as int]);
            if i == 0 {
                assert(q@ =~= kat[0]);
            }
        }
        i = i + 1;
    }
    proof {
        assert(kat.take(kat.len() as int) =~= kat);
    }
    q
}

/// The full query for a keyword combination: the joined keywords plus the
/// fixed document-type filter.
pub fn keyword_query(keyword: &str) -> (q: String)
    ensures
        q@ == keyword@ + " extension:Rmd"@,
{
    let mut q = keyword.to_owned();
    q.append(" extension:Rmd");
    q
}

/// The full query for one account: a broadly-present keyword, the account
/// scope, and the fixed document-type filter.
pub fn user_query(user: &str) -> (q: String)
    ensures
        q@ == "output user:"@ + user@ + " extension:Rmd"@,
{
    let mut q = "output user:".to_owned();
    q.append(user);
    q.append(" extension:Rmd");
    q
}

} // verus!
