//! A list of (account, balance) entries read as a map, and the facts about
//! that reading that the ledger's proofs use.

use vstd::prelude::*;

verus! {

/// The identity under which a balance is stored.
pub type AccountId = [u8; 32];

/// An amount of the ledger's single fungible unit.
pub type Balance = u128;

/// The map that a list of entries stands for; a later entry for an account
/// takes the place of an earlier one.
pub open spec fn map_of(s: Seq<(AccountId, Balance)>) -> Map<AccountId, Balance>
    decreases s.len(),
{
    if s.len() == 0 {
        Map::empty()
    } else {
        map_of(s.drop_last()).insert(s.last().0, s.last().1)
    }
}

/// No account has two entries.
pub open spec fn keys_unique(s: Seq<(AccountId, Balance)>) -> bool {
    forall|i: int, j: int| 0 <= i < j < s.len() ==> s[i].0 != s[j].0
}

/// An account has an entry in the map exactly when the list holds one.
pub proof fn lemma_map_of_contains(s: Seq<(AccountId, Balance)>, a: AccountId)
    ensures
        map_of(s).contains_key(a) <==> exists|i: int| 0 <= i < s.len() && s[i].0 == a,
    decreases s.len(),
{
    if s.len() > 0 {
        let init = s.drop_last();
        lemma_map_of_contains(init, a);
        if map_of(s).contains_key(a) && s.last().0 != a {
            let i = choose|i: int| 0 <= i < init.len() && init[i].0 == a;
            assert(s[i].0 == a);
        }
        if exists|i: int| 0 <= i < s.len() && s[i].0 == a {
            let i = choose|i: int| 0 <= i < s.len() && s[i].0 == a;
            if i < s.len() - 1 {
                assert(init[i].0 == a);
            }
        }
    }
}

/// With no account listed twice, the map gives each listed account the
/// balance beside it.
pub proof fn lemma_map_of_at(s: Seq<(AccountId, Balance)>, i: int)
    requires
        keys_unique(s),
        0 <= i < s.len(),
    ensures
        map_of(s).contains_key(s[i].0),
        map_of(s)[s[i].0] == s[i].1,
    decreases s.len(),
{
    if i < s.len() - 1 {
        let init = s.drop_last();
        assert(keys_unique(init));
        lemma_map_of_at(init, i);
        assert(init[i] == s[i]);
    }
}

/// Changing a listed balance in place stores it in the map.
pub proof fn lemma_map_of_update(s: Seq<(AccountId, Balance)>, i: int, v: Balance)
    requires
        keys_unique(s),
        0 <= i < s.len(),
    ensures
        map_of(s.update(i, (s[i].0, v))) == map_of(s).insert(s[i].0, v),
        keys_unique(s.update(i, (s[i].0, v))),
    decreases s.len(),
{
    let t = s.update(i, (s[i].0, v));
    let init = s.drop_last();
    if i == s.len() - 1 {
        assert(t.drop_last() =~= init);
        assert(map_of(t) =~= map_of(s).insert(s[i].0, v));
    } else {
        assert(keys_unique(init));
        lemma_map_of_update(init, i, v);
        assert(t.drop_last() =~= init.update(i, (init[i].0, v)));
        assert(s.last().0 != s[i].0);
        assert(map_of(t) =~= map_of(s).insert(s[i].0, v));
    }
}

/// Appending an account that the list does not hold stores it in the map.
pub proof fn lemma_map_of_push(s: Seq<(AccountId, Balance)>, a: AccountId, v: Balance)
    requires
        keys_unique(s),
        !map_of(s).contains_key(a),
    ensures
        map_of(s.push((a, v))) == map_of(s).insert(a, v),
        keys_unique(s.push((a, v))),
{
    let t = s.push((a, v));
    assert(t.drop_last() =~= s);
    lemma_map_of_contains(s, a);
    assert forall|i: int, j: int| 0 <= i < j < t.len() implies t[i].0 != t[j].0 by {
        if j == s.len() {
            assert(s[i].0 != a);
        }
    }
}

} // verus!
