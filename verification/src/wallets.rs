use vstd::prelude::*;

use crate::key::Pubkey;

verus! {

/// First-seen-wins de-duplication of a wallet list: the input is scanned in
/// order and an address is kept only where it has not appeared earlier, so
/// the first occurrence of each address survives in its original position.
///
/// Duplicates are collapsed silently rather than rejected; that is a design
/// choice of the configuration lifecycle, not an oversight.
pub open spec fn dedup(s: Seq<Pubkey>) -> Seq<Pubkey>
    decreases s.len(),
{
    if s.len() == 0 {
        Seq::<Pubkey>::empty()
    } else {
        let prefix = dedup(s.drop_last());
        if prefix.contains(s.last()) {
            prefix
        } else {
            prefix.push(s.last())
        }
    }
}

/// De-duplication never lengthens a list.
pub proof fn lemma_dedup_bounds_len(s: Seq<Pubkey>)
    ensures
        dedup(s).len() <= s.len(),
    decreases s.len(),
{
    if s.len() > 0 {
        lemma_dedup_bounds_len(s.drop_last());
    }
}

/// An address survives de-duplication exactly when it stood in the input.
pub proof fn lemma_dedup_preserves_membership(s: Seq<Pubkey>, w: Pubkey)
    ensures
        dedup(s).contains(w) <==> s.contains(w),
    decreases s.len(),
{
    if s.len() > 0 {
        let pre = s.drop_last();
        lemma_dedup_preserves_membership(pre, w);
        if s.contains(w) {
            let i: int = choose|i: int| 0 <= i < s.len() && s[i] == w;
            if i < s.len() - 1 {
                assert(pre[i] == w);
                assert(pre.contains(w));
            } else {
                assert(s.last() == w);
            }
        }
        if pre.contains(w) {
            let i: int = choose|i: int| 0 <= i < pre.len() && pre[i] == w;
            assert(s[i] == w);
            assert(s.contains(w));
        }
        if s.last() == w {
            assert(s.contains(w));
        }
        if !dedup(pre).contains(s.last()) {
            let pushed = dedup(pre).push(s.last());
            assert(pushed[pushed.len() - 1] == s.last());
            if dedup(pre).contains(w) {
                let i: int = choose|i: int| 0 <= i < dedup(pre).len() && dedup(pre)[i] == w;
                assert(pushed[i] == w);
            }
        }
    }
}

/// The output of de-duplication holds no duplicate addresses.
pub proof fn lemma_dedup_no_duplicates(s: Seq<Pubkey>)
    ensures
        dedup(s).no_duplicates(),
    decreases s.len(),
{
    if s.len() > 0 {
        let pre = s.drop_last();
        lemma_dedup_no_duplicates(pre);
        let dp = dedup(pre);
        if !dp.contains(s.last()) {
            let pushed = dp.push(s.last());
            assert forall|i: int, j: int|
                0 <= i < pushed.len() && 0 <= j < pushed.len() && i != j implies pushed[i]
                != pushed[j] by {
                if i == pushed.len() - 1 {
                    if pushed[i] == pushed[j] {
                        assert(dp[j] == s.last());
                        assert(dp.contains(s.last()));
                    }
                } else if j == pushed.len() - 1 {
                    if pushed[i] == pushed[j] {
                        assert(dp[i] == s.last());
                        assert(dp.contains(s.last()));
                    }
                } else {
                    assert(pushed[i] == dp[i] && pushed[j] == dp[j]);
                }
            }
        }
    }
}

/// A list already free of duplicates passes through de-duplication
/// unchanged.
pub proof fn lemma_dedup_of_unique(s: Seq<Pubkey>)
    requires
        s.no_duplicates(),
    ensures
        dedup(s) == s,
    decreases s.len(),
{
    if s.len() == 0 {
        assert(dedup(s) =~= s);
    } else {
        let pre = s.drop_last();
        assert(pre.no_duplicates());
        lemma_dedup_of_unique(pre);
        if pre.contains(s.last()) {
            let i: int = choose|i: int| 0 <= i < pre.len() && pre[i] == s.last();
            assert(s[i] == s[s.len() - 1]);
            assert(false);
        }
        assert(dedup(s) =~= s);
    }
}

/// De-duplicating a list a second time changes nothing: the first pass
/// already leaves a duplicate-free list.
pub proof fn lemma_dedup_idempotent(s: Seq<Pubkey>)
    ensures
        dedup(dedup(s)) == dedup(s),
{
    lemma_dedup_no_duplicates(s);
    lemma_dedup_of_unique(dedup(s));
}

/// Appending to a list moves no first occurrence: an address already
/// present keeps its first index.
proof fn lemma_first_index_stable_under_push(s: Seq<Pubkey>, x: Pubkey, y: Pubkey)
    requires
        s.contains(x),
    ensures
        s.push(y).index_of_first(x) == s.index_of_first(x),
{
    s.index_of_first_ensures(x);
    s.push(y).index_of_first_ensures(x);
    assert(s.push(y).contains(x)) by {
        let k: int = choose|k: int| 0 <= k < s.len() && s[k] == x;
        assert(s.push(y)[k] == x);
    }
    let k: int = s.index_of_first(x)->Some_0;
    let m: int = s.push(y).index_of_first(x)->Some_0;
    if m < k {
        assert(s[m] == s.push(y)[m]);
    } else if k < m {
        assert(s.push(y)[k] == s[k]);
    }
}

/// De-duplication keeps the surviving addresses in first-seen order: of
/// two addresses in the output, the earlier one first occurs in the input
/// before the later one does.
pub proof fn lemma_dedup_keeps_first_seen_order(s: Seq<Pubkey>, i: int, j: int)
    requires
        0 <= i < j < dedup(s).len(),
    ensures
        s.index_of_first(dedup(s)[i]) is Some,
        s.index_of_first(dedup(s)[j]) is Some,
        s.index_of_first(dedup(s)[i])->Some_0 < s.index_of_first(dedup(s)[j])->Some_0,
    decreases s.len(),
{
    lemma_dedup_bounds_len(s);
    let pre = s.drop_last();
    let dp = dedup(pre);
    assert(s =~= pre.push(s.last()));
    lemma_dedup_preserves_membership(pre, s.last());
    if j < dp.len() {
        // Both addresses already survive in the shorter list; appending
        // one element moves no first occurrence.
        lemma_dedup_keeps_first_seen_order(pre, i, j);
        assert(dp.contains(dp[i]));
        assert(dp.contains(dp[j]));
        lemma_dedup_preserves_membership(pre, dp[i]);
        lemma_dedup_preserves_membership(pre, dp[j]);
        lemma_first_index_stable_under_push(pre, dp[i], s.last());
        lemma_first_index_stable_under_push(pre, dp[j], s.last());
        assert(dedup(s)[i] == dp[i] && dedup(s)[j] == dp[j]);
    } else {
        // The later address is the appended element, new to the list: its
        // first occurrence is the last index, after every other first
        // occurrence.
        assert(!dp.contains(s.last()) && j == dp.len() && dedup(s) == dp.push(s.last()));
        assert(dedup(s)[j] == s.last());
        assert(dedup(s)[i] == dp[i]);
        assert(dp.contains(dp[i]));
        lemma_dedup_preserves_membership(pre, dp[i]);
        lemma_first_index_stable_under_push(pre, dp[i], s.last());
        pre.index_of_first_ensures(dp[i]);
        s.index_of_first_ensures(dp[i]);
        s.index_of_first_ensures(s.last());
        assert(s.contains(s.last())) by {
            assert(s[s.len() - 1] == s.last());
        }
        let q: int = s.index_of_first(s.last())->Some_0;
        if q < s.len() - 1 {
            assert(pre[q] == s[q]);
            assert(pre.contains(s.last()));
        }
        assert(q == s.len() - 1);
        assert(s.index_of_first(dedup(s)[i])->Some_0 < pre.len());
    }
}

/// Linear scan for membership of an address in a wallet list.
pub fn wallet_list_contains(list: &Vec<Pubkey>, w: Pubkey) -> (present: bool)
    ensures
        present == list@.contains(w),
{
    let mut i: usize = 0;
    while i < list.len()
        invariant
            i <= list@.len(),
            forall|j: int| 0 <= j < i ==> list@[j] != w,
        decreases list@.len() - i,
    {
        if list[i] == w {
            assert(list@.contains(w));
            return true;
        }
        i = i + 1;
    }
    false
}

/// Finds the first occurrence of an address in a wallet list.
pub fn find_wallet(list: &Vec<Pubkey>, w: Pubkey) -> (position: Option<usize>)
    ensures
        match position {
            Some(i) => i < list@.len() && list@[i as int] == w && forall|j: int|
                0 <= j < i ==> list@[j] != w,
            None => !list@.contains(w),
        },
{
    let mut i: usize = 0;
    while i < list.len()
        invariant
            i <= list@.len(),
            forall|j: int| 0 <= j < i ==> list@[j] != w,
        decreases list@.len() - i,
    {
        if list[i] == w {
            return Some(i);
        }
        i = i + 1;
    }
    None
}

/// First-seen-wins de-duplication, exactly as `dedup` describes it.
pub fn dedup_wallets(wallets: &Vec<Pubkey>) -> (unique: Vec<Pubkey>)
    ensures
        unique@ == dedup(wallets@),
{
    let mut unique: Vec<Pubkey> = Vec::new();
    let mut i: usize = 0;
    while i < wallets.len()
        invariant
            i <= wallets@.len(),
            unique@ == dedup(wallets@.subrange(0, i as int)),
        decreases wallets@.len() - i,
    {
        let w = wallets[i];
        proof {
            let longer = wallets@.subrange(0, i as int + 1);
            assert(longer.drop_last() =~= wallets@.subrange(0, i as int));
            assert(longer.last() == wallets@[i as int]);
        }
        if !wallet_list_contains(&unique, w) {
            unique.push(w);
        }
        i = i + 1;
    }
    proof {
        assert(wallets@.subrange(0, wallets@.len() as int) =~= wallets@);
    }
    unique
}

} // verus!
