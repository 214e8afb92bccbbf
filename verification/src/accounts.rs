//! Deriving account names from stored repository identifiers.
//!
//! An identifier has the shape `owner/name`; the account is the segment
//! before the first `/`, or the whole identifier where no `/` occurs. The
//! account-scoped discovery mode sweeps the accounts of all known
//! identifiers, deduplicated and sorted, one query cycle per account.

use vstd::prelude::*;
use vstd::string::StrSliceExecFns;
use crate::ident::lemma_to_set_push;

verus! {

/// Index of the first `/` at or after `i`, or the length where none occurs.
pub open spec fn first_slash_from(s: Seq<char>, i: int) -> int
    decreases s.len() - i,
{
    if i < 0 || i >= s.len() {
        i
    } else if s[i] == '/' {
        i
    } else {
        first_slash_from(s, i + 1)
    }
}

/// The account segment of an identifier: everything before the first `/`,
/// or the whole identifier where no `/` occurs.
pub open spec fn account_of(s: Seq<char>) -> Seq<char> {
    s.take(first_slash_from(s, 0))
}

proof fn lemma_first_slash_from(s: Seq<char>, i: int, k: int)
    requires
        0 <= i <= k <= s.len(),
        forall|j: int| i <= j < k ==> s[j] != '/',
        k == s.len() || s[k] == '/',
    ensures
        first_slash_from(s, i) == k,
    decreases k - i,
{
    if i < k {
        lemma_first_slash_from(s, i + 1, k);
    }
}

/// The account segment of a repository identifier of the shape
/// `owner/name`: the part before the first `/`, or the whole identifier
/// where no `/` occurs.
pub fn user_from_repo(repository: &str) -> (r: String)
    ensures
        r@ == account_of(repository@),
{
    let n = repository.unicode_len();
    let mut i: usize = 0;
    while i < n
        invariant
            i <= n,
            n == repository@.len(),
            forall|j: int| 0 <= j < i ==> repository@[j] != '/',
        decreases n - i,
    {
        let c = repository.get_char(i);
        if c == '/' {
            proof {
                lemma_first_slash_from(repository@, 0, i as int);
            }
            return repository.substring_char(0, i).to_owned();
        }
        i = i + 1;
    }
    proof {
        lemma_first_slash_from(repository@, 0, n as int);
        assert(repository@.take(n as int) =~= repository@);
    }
    repository.to_owned()
}

/// Strict lexicographic order on character sequences, by code point.
pub open spec fn lex_lt(a: Seq<char>, b: Seq<char>) -> bool
    decreases a.len(),
{
    if b.len() == 0 {
        false
    } else if a.len() == 0 {
        true
    } else if a[0] == b[0] {
        lex_lt(a.drop_first(), b.drop_first())
    } else {
        (a[0] as u32) < (b[0] as u32)
    }
}

/// Adjacent elements grow strictly in lexicographic order.
pub open spec fn sorted_lex(s: Seq<Seq<char>>) -> bool {
    forall|i: int| #![trigger s[i]] 0 <= i < s.len() - 1 ==> lex_lt(s[i], s[i + 1])
}

pub proof fn lemma_lex_irreflexive(a: Seq<char>)
    ensures
        !lex_lt(a, a),
    decreases a.len(),
{
    if a.len() > 0 {
        lemma_lex_irreflexive(a.drop_first());
    }
}

/// Any two distinct sequences are ordered one way or the other.
pub proof fn lemma_lex_connected(a: Seq<char>, b: Seq<char>)
    ensures
        lex_lt(a, b) || lex_lt(b, a) || a == b,
    decreases a.len(),
{
    if a.len() == 0 && b.len() == 0 {
        assert(a =~= b);
    }
    if a.len() > 0 && b.len() > 0 && a[0] != b[0] {
        vstd::utf8::char_u32_cast(a[0], a[0] as u32);
        vstd::utf8::char_u32_cast(b[0], b[0] as u32);
        assert((a[0] as u32) != (b[0] as u32));
    }
    if a.len() > 0 && b.len() > 0 && a[0] == b[0] {
        lemma_lex_connected(a.drop_first(), b.drop_first());
        if a.drop_first() == b.drop_first() {
            assert(a.drop_first().len() == b.drop_first().len());
            assert(a.len() == b.len());
            assert forall|i: int| 0 <= i < a.len() implies a[i] == b[i] by {
                if i > 0 {
                    assert(a.drop_first()[i - 1] == a[i]);
                    assert(b.drop_first()[i - 1] == b[i]);
                }
            }
            assert(a =~= b);
        }
    }
}

pub proof fn lemma_lex_trans(a: Seq<char>, b: Seq<char>, c: Seq<char>)
    requires
        lex_lt(a, b),
        lex_lt(b, c),
    ensures
        lex_lt(a, c),
    decreases a.len(),
{
    if a.len() > 0 && b.len() > 0 && c.len() > 0 && a[0] == b[0] && b[0] == c[0] {
        lemma_lex_trans(a.drop_first(), b.drop_first(), c.drop_first());
    }
}

proof fn lemma_sorted_lt(s: Seq<Seq<char>>, i: int, j: int)
    requires
        sorted_lex(s),
        0 <= i < j < s.len(),
    ensures
        lex_lt(s[i], s[j]),
    decreases j - i,
{
    if i + 1 < j {
        lemma_sorted_lt(s, i, j - 1);
        lemma_lex_trans(s[i], s[j - 1], s[j]);
    }
}

/// A strictly sorted sequence holds no element twice.
pub proof fn lemma_sorted_no_duplicates(s: Seq<Seq<char>>)
    requires
        sorted_lex(s),
    ensures
        s.no_duplicates(),
{
    assert forall|i: int, j: int|
        0 <= i < s.len() && 0 <= j < s.len() && i != j implies s[i] != s[j] by {
        if i < j {
            lemma_sorted_lt(s, i, j);
            lemma_lex_irreflexive(s[i]);
        } else {
            lemma_sorted_lt(s, j, i);
            lemma_lex_irreflexive(s[j]);
        }
    }
}

/// Decide `lex_lt` on two strings.
fn lex_lt_exec(a: &String, b: &String) -> (r: bool)
    ensures
        r == lex_lt(a@, b@),
{
    let an = a.as_str().unicode_len();
    let bn = b.as_str().unicode_len();
    let mut i: usize = 0;
    proof {
        assert(a@.skip(0) =~= a@);
        assert(b@.skip(0) =~= b@);
    }
    while i < an && i < bn
        invariant
            i <= an,
            i <= bn,
            an == a@.len(),
            bn == b@.len(),
            lex_lt(a@, b@) == lex_lt(a@.skip(i as int), b@.skip(i as int)),
        decreases an - i,
    {
        let ca = a.as_str().get_char(i);
        let cb = b.as_str().get_char(i);
        proof {
            assert(a@.skip(i as int)[0] == a@[i as int]);
            assert(b@.skip(i as int)[0] == b@[i as int]);
            assert(a@.skip(i as int).drop_first() =~= a@.skip(i + 1));
            assert(b@.skip(i as int).drop_first() =~= b@.skip(i + 1));
        }
        if ca != cb {
            return (ca as u32) < (cb as u32);
        }
        i = i + 1;
    }
    an < bn
}

/// The accounts of a sequence of identifiers, in identifier order.
pub open spec fn accounts_of_seq(rs: Seq<Seq<char>>) -> Seq<Seq<char>> {
    rs.map_values(|r: Seq<char>| account_of(r))
}

/// The first position whose element is not lexicographically below `u`, or
/// the length where every element is.
fn lower_bound(users: &Vec<String>, u: &String) -> (pos: usize)
    ensures
        pos <= users.deep_view().len(),
        forall|j: int| 0 <= j < pos ==> lex_lt(#[trigger] users.deep_view()[j], u@),
        pos < users.deep_view().len() ==> !lex_lt(users.deep_view()[pos as int], u@),
{
    let ghost dv = users.deep_view();
    let mut pos: usize = 0;
    while pos < users.len()
        invariant
            pos <= users.len(),
            dv == users.deep_view(),
            dv.len() == users.len(),
            forall|j: int| 0 <= j < pos ==> lex_lt(#[trigger] dv[j], u@),
        decreases users.len() - pos,
    {
        if !lex_lt_exec(&users[pos], u) {
            return pos;
        }
        pos = pos + 1;
    }
    pos
}

/// Insert an account into a strictly sorted list, keeping it strictly
/// sorted; an account already present is dropped.
fn insert_sorted_unique(users: &mut Vec<String>, u: String)
    requires
        sorted_lex(old(users).deep_view()),
    ensures
        sorted_lex(final(users).deep_view()),
        final(users).deep_view().to_set() == old(users).deep_view().to_set().insert(u@),
{
    let ghost dv = users.deep_view();
    let ghost uv = u@;
    let pos = lower_bound(users, &u);
    if pos < users.len() && users[pos].eq(&u) {
        proof {
            assert(dv[pos as int] == uv);
            assert(dv.to_set().contains(uv));
            assert(dv.to_set().insert(uv) =~= dv.to_set());
        }
        return;
    }
    proof {
        if pos < dv.len() {
            assert(!lex_lt(dv[pos as int], uv));
            assert(dv[pos as int] != uv);
            lemma_lex_connected(dv[pos as int], uv);
            assert(lex_lt(uv, dv[pos as int]));
        }
    }
    users.insert(pos, u);
    proof {
        let dv2 = users.deep_view();
        assert(dv2 =~= dv.insert(pos as int, uv));
        assert forall|k: int| 0 <= k < dv2.len() - 1 implies #[trigger] lex_lt(dv2[k], dv2[k + 1]) by {
            if k + 1 < pos {
                assert(dv2[k] == dv[k] && dv2[k + 1] == dv[k + 1]);
            } else if k + 1 == pos {
                assert(dv2[k] == dv[k] && dv2[k + 1] == uv);
            } else if k == pos {
                assert(dv2[k] == uv && dv2[k + 1] == dv[k]);
            } else {
                assert(dv2[k] == dv[k - 1] && dv2[k + 1] == dv[k]);
            }
        }
        assert forall|y: Seq<char>| dv2.to_set().contains(y)
            implies dv.to_set().insert(uv).contains(y) by {
            let k = choose|k: int| 0 <= k < dv2.len() && dv2[k] == y;
            if k < pos {
                assert(dv[k] == y);
            } else if k > pos {
                assert(dv[k - 1] == y);
            }
        }
        assert forall|y: Seq<char>| dv.to_set().insert(uv).contains(y)
            implies dv2.to_set().contains(y) by {
            if y == uv {
                assert(dv2[pos as int] == y);
            } else {
                let k = choose|k: int| 0 <= k < dv.len() && dv[k] == y;
                if k < pos {
                    assert(dv2[k] == y);
                } else {
                    assert(dv2[k + 1] == y);
                }
            }
        }
        assert(dv2.to_set() =~= dv.to_set().insert(uv));
    }
}

/// The accounts of the given identifiers, each exactly once, in strictly
/// increasing lexicographic order.
pub fn derive_accounts(repos: &Vec<String>) -> (users: Vec<String>)
    ensures
        sorted_lex(users.deep_view()),
        users.deep_view().no_duplicates(),
        users.deep_view().to_set() == accounts_of_seq(repos.deep_view()).to_set(),
{
    let ghost rdv = repos.deep_view();
    let mut users: Vec<String> = Vec::new();
    let mut i: usize = 0;
    proof {
        assert(users.deep_view() =~= Seq::<Seq<char>>::empty());
        assert(users.deep_view().to_set() =~= accounts_of_seq(rdv.take(0)).to_set());
    }
    while i < repos.len()
        invariant
            i <= repos.len(),
            rdv == repos.deep_view(),
            rdv.len() == repos.len(),
            sorted_lex(users.deep_view()),
            users.deep_view().to_set() == accounts_of_seq(rdv.take(i as int)).to_set(),
        decreases repos.len() - i,
    {
        let ghost pre_set = users.deep_view().to_set();
        let u = user_from_repo(repos[i].as_str());
        assert(u@ == account_of(rdv[i as int]));
        insert_sorted_unique(&mut users, u);
        proof {
            assert(rdv.take(i + 1) =~= rdv.take(i as int).push(rdv[i as int]));
            assert(accounts_of_seq(rdv.take(i + 1)) =~= accounts_of_seq(rdv.take(i as int)).push(
                account_of(rdv[i as int]),
            ));
            lemma_to_set_push(accounts_of_seq(rdv.take(i as int)), account_of(rdv[i as int]));
        }
        i = i + 1;
    }
    proof {
        assert(rdv.take(rdv.len() as int) =~= rdv);
        lemma_sorted_no_duplicates(users.deep_view());
    }
    users
}

} // verus!
