use vstd::prelude::*;

verus! {

/// An amount of one asset denomination.
pub struct Coin {
    pub denom: String,
    pub amount: u128,
}

/// The mathematical image of a `Coin`: a denomination and a non-negative
/// amount.
#[verifier::ext_equal]
pub struct CoinModel {
    pub denom: Seq<char>,
    pub amount: nat,
}

impl View for Coin {
    type V = CoinModel;

    open spec fn view(&self) -> CoinModel {
        CoinModel { denom: self.denom@, amount: self.amount as nat }
    }
}

impl DeepView for Coin {
    type V = CoinModel;

    open spec fn deep_view(&self) -> CoinModel {
        self@
    }
}

/// Total amount of denomination `d` held across a list of coins.
/// A denomination that does not occur contributes zero, so a list may
/// mention a denomination more than once without changing its meaning.
pub open spec fn amount_of(coins: Seq<CoinModel>, d: Seq<char>) -> nat
    decreases coins.len(),
{
    if coins.len() == 0 {
        0
    } else {
        amount_of(coins.drop_last(), d) + if coins.last().denom == d {
            coins.last().amount
        } else {
            0
        }
    }
}

/// Whether some coin in the list carries denomination `d`.
pub open spec fn has_denom(coins: Seq<CoinModel>, d: Seq<char>) -> bool {
    exists|i: int| 0 <= i < coins.len() && (#[trigger] coins[i]).denom == d
}

/// Pairwise-distinct denominations.
pub open spec fn denoms_unique(coins: Seq<CoinModel>) -> bool {
    forall|i: int, j: int|
        0 <= i < j < coins.len() ==> (#[trigger] coins[i]).denom != (#[trigger] coins[j]).denom
}

/// Normal form of a configured limit: pairwise-distinct denominations and
/// no zero amounts.
pub open spec fn limit_wf(coins: Seq<CoinModel>) -> bool {
    denoms_unique(coins) && forall|i: int|
        0 <= i < coins.len() ==> (#[trigger] coins[i]).amount > 0
}

/// Two coins of the same denomination with non-zero amounts.
pub open spec fn has_duplicate_nonzero(coins: Seq<CoinModel>) -> bool {
    exists|i: int, j: int|
        0 <= i < j < coins.len() && (#[trigger] coins[i]).denom == (#[trigger] coins[j]).denom
            && coins[i].amount != 0 && coins[j].amount != 0
}

/// The acceptance condition of the rate-limit policy: for every
/// denomination, the total spend stays within the configured allowance.
/// A denomination absent from the limit has a zero allowance.
pub open spec fn within_limit(limit: Seq<CoinModel>, spend: Seq<CoinModel>) -> bool {
    forall|d: Seq<char>| #[trigger] amount_of(spend, d) <= amount_of(limit, d)
}

/// A denomination that no coin carries totals zero.
pub proof fn lemma_amount_absent(coins: Seq<CoinModel>, d: Seq<char>)
    requires
        !has_denom(coins, d),
    ensures
        amount_of(coins, d) == 0,
    decreases coins.len(),
{
    if coins.len() > 0 {
        assert(forall|i: int|
            0 <= i < coins.drop_last().len() ==> #[trigger] coins.drop_last()[i] == coins[i]);
        lemma_amount_absent(coins.drop_last(), d);
        assert(coins.last() == coins[coins.len() - 1]);
    }
}

/// When only zero-amount coins carry `d`, the total of `d` is zero.
pub proof fn lemma_amount_only_zero(coins: Seq<CoinModel>, d: Seq<char>)
    requires
        forall|i: int|
            0 <= i < coins.len() && (#[trigger] coins[i]).denom == d ==> coins[i].amount == 0,
    ensures
        amount_of(coins, d) == 0,
    decreases coins.len(),
{
    if coins.len() > 0 {
        assert(forall|i: int|
            0 <= i < coins.drop_last().len() ==> #[trigger] coins.drop_last()[i] == coins[i]);
        lemma_amount_only_zero(coins.drop_last(), d);
        assert(coins.last() == coins[coins.len() - 1]);
    }
}

/// With distinct denominations, the total of a listed denomination is the
/// amount of its one entry.
pub proof fn lemma_amount_unique(coins: Seq<CoinModel>, i: int)
    requires
        denoms_unique(coins),
        0 <= i < coins.len(),
    ensures
        amount_of(coins, coins[i].denom) == coins[i].amount,
    decreases coins.len(),
{
    assert(coins.last() == coins[coins.len() - 1]);
    if i == coins.len() - 1 {
        assert(!has_denom(coins.drop_last(), coins[i].denom)) by {
            assert(forall|k: int|
                0 <= k < coins.drop_last().len() ==> #[trigger] coins.drop_last()[k] == coins[k]);
        }
        lemma_amount_absent(coins.drop_last(), coins[i].denom);
    } else {
        assert(forall|k: int|
            0 <= k < coins.drop_last().len() ==> #[trigger] coins.drop_last()[k] == coins[k]);
        lemma_amount_unique(coins.drop_last(), i);
    }
}

/// A prefix of a coin list never totals more than the whole list.
pub proof fn lemma_amount_prefix(coins: Seq<CoinModel>, j: int, d: Seq<char>)
    requires
        0 <= j <= coins.len(),
    ensures
        amount_of(coins.subrange(0, j), d) <= amount_of(coins, d),
    decreases coins.len(),
{
    if j == coins.len() {
        assert(coins.subrange(0, j) =~= coins);
    } else {
        assert(coins.drop_last().subrange(0, j) =~= coins.subrange(0, j));
        lemma_amount_prefix(coins.drop_last(), j, d);
    }
}

/// Each coin's amount is a lower bound on the total of its denomination.
pub proof fn lemma_amount_elem(coins: Seq<CoinModel>, i: int)
    requires
        0 <= i < coins.len(),
    ensures
        amount_of(coins, coins[i].denom) >= coins[i].amount,
    decreases coins.len(),
{
    assert(coins.last() == coins[coins.len() - 1]);
    if i < coins.len() - 1 {
        assert(forall|k: int|
            0 <= k < coins.drop_last().len() ==> #[trigger] coins.drop_last()[k] == coins[k]);
        lemma_amount_elem(coins.drop_last(), i);
    }
}

/// Whether some coin of the list carries the given denomination.
pub fn contains_denom(coins: &Vec<Coin>, d: &String) -> (r: bool)
    ensures
        r == has_denom(coins.deep_view(), d@),
{
    let n = coins.len();
    for i in 0..n
        invariant
            n == coins@.len(),
            forall|k: int| 0 <= k < i ==> (#[trigger] coins.deep_view()[k]).denom != d@,
    {
        if coins[i].denom == *d {
            assert(coins.deep_view()[i as int].denom == d@);
            return true;
        }
    }
    false
}

/// A positive total of denomination `d` is witnessed by some coin of `d`
/// with a positive amount.
pub proof fn lemma_amount_positive_witness(coins: Seq<CoinModel>, d: Seq<char>)
    requires
        amount_of(coins, d) > 0,
    ensures
        exists|k: int|
            0 <= k < coins.len() && (#[trigger] coins[k]).denom == d && coins[k].amount > 0,
    decreases coins.len(),
{
    assert(coins.last() == coins[coins.len() - 1]);
    if coins.last().denom == d && coins.last().amount > 0 {
    } else {
        lemma_amount_positive_witness(coins.drop_last(), d);
        let k = choose|k: int|
            0 <= k < coins.drop_last().len() && (#[trigger] coins.drop_last()[k]).denom == d
                && coins.drop_last()[k].amount > 0;
        assert(coins[k] == coins.drop_last()[k]);
    }
}

/// Brings a coin list to the normal form of a configured limit: zero
/// amounts are dropped, and a denomination occurring twice with non-zero
/// amounts is rejected.
pub fn normalize_coins(coins: &Vec<Coin>) -> (r: Option<Vec<Coin>>)
    ensures
        r is Some <==> !has_duplicate_nonzero(coins.deep_view()),
        match r {
            Some(v) => limit_wf(v.deep_view()) && forall|d: Seq<char>|
                #[trigger] amount_of(v.deep_view(), d) == amount_of(coins.deep_view(), d),
            None => true,
        },
{
    let ghost all: Seq<CoinModel> = coins.deep_view();
    let mut out: Vec<Coin> = Vec::new();
    let n = coins.len();
    for i in 0..n
        invariant
            n == coins@.len(),
            all == coins.deep_view(),
            limit_wf(out.deep_view()),
            forall|d: Seq<char>| #[trigger] amount_of(out.deep_view(), d) == amount_of(
                all.subrange(0, i as int),
                d,
            ),
            !has_duplicate_nonzero(all.subrange(0, i as int)),
    {
        let ghost pre: Seq<CoinModel> = all.subrange(0, i as int);
        let ghost post: Seq<CoinModel> = all.subrange(0, i + 1);
        let ghost cur_denom: Seq<char> = all[i as int].denom;
        proof {
            assert(post.drop_last() =~= pre);
            assert(post.last() == all[i as int]);
            assert(forall|w: int| 0 <= w < pre.len() ==> #[trigger] post[w] == pre[w]);
        }
        if coins[i].amount != 0 {
            if contains_denom(&out, &coins[i].denom) {
                proof {
                    let w = choose|w: int|
                        0 <= w < out.deep_view().len() && (#[trigger] out.deep_view()[w]).denom
                            == cur_denom;
                    lemma_amount_unique(out.deep_view(), w);
                    assert(amount_of(pre, cur_denom) > 0);
                    lemma_amount_positive_witness(pre, cur_denom);
                    let k = choose|k: int|
                        0 <= k < pre.len() && (#[trigger] pre[k]).denom == cur_denom && pre[
                            k
                        ].amount > 0;
                    assert(pre[k] == all[k]);
                    assert(all[k].denom == all[i as int].denom && all[k].amount != 0 && all[
                        i as int
                    ].amount != 0);
                    assert(has_duplicate_nonzero(all));
                }
                return None;
            }
            let ghost before: Seq<CoinModel> = out.deep_view();
            out.push(Coin { denom: coins[i].denom.clone(), amount: coins[i].amount });
            proof {
                let cur = out.deep_view();
                assert(cur =~= before.push(all[i as int]));
                assert(cur.drop_last() =~= before);
                assert(cur.last() == all[i as int]);
                assert(forall|w: int| 0 <= w < before.len() ==> #[trigger] cur[w] == before[w]);
                assert(limit_wf(cur)) by {
                    assert(!has_denom(before, cur_denom));
                }
                assert forall|d: Seq<char>| #[trigger] amount_of(cur, d) == amount_of(post, d) by {
                    assert(amount_of(cur, d) == amount_of(before, d) + if cur_denom == d {
                        all[i as int].amount
                    } else {
                        0
                    });
                    assert(amount_of(post, d) == amount_of(pre, d) + if cur_denom == d {
                        all[i as int].amount
                    } else {
                        0
                    });
                }
                assert(!has_duplicate_nonzero(post)) by {
                    lemma_amount_absent(before, cur_denom);
                    assert(amount_of(pre, cur_denom) == 0);
                    assert forall|k: int|
                        0 <= k < i && (#[trigger] all[k]).denom == cur_denom implies all[
                        k
                    ].amount == 0 by {
                        assert(pre[k] == all[k]);
                        lemma_amount_elem(pre, k);
                    }
                    if has_duplicate_nonzero(post) {
                        let (a, b) = choose|a: int, b: int|
                            0 <= a < b < post.len() && (#[trigger] post[a]).denom == (
                            #[trigger] post[b]).denom && post[a].amount != 0 && post[b].amount
                                != 0;
                        if b == i {
                            assert(post[a] == pre[a] && pre[a] == all[a]);
                            assert(false);
                        } else {
                            assert(has_duplicate_nonzero(pre));
                            assert(false);
                        }
                    }
                }
            }
        } else {
            proof {
                assert forall|d: Seq<char>| #[trigger] amount_of(post, d) == amount_of(pre, d) by {
                    assert(amount_of(post, d) == amount_of(pre, d) + if cur_denom == d {
                        all[i as int].amount
                    } else {
                        0
                    });
                }
                assert(!has_duplicate_nonzero(post)) by {
                    if has_duplicate_nonzero(post) {
                        let (a, b) = choose|a: int, b: int|
                            0 <= a < b < post.len() && (#[trigger] post[a]).denom == (
                            #[trigger] post[b]).denom && post[a].amount != 0 && post[b].amount
                                != 0;
                        if b == i {
                            assert(post[b] == all[i as int]);
                            assert(false);
                        } else {
                            assert(has_duplicate_nonzero(pre));
                            assert(false);
                        }
                    }
                }
            }
        }
    }
    proof {
        assert(all.subrange(0, n as int) =~= all);
    }
    Some(out)
}

/// Copies a coin list.
pub fn clone_coins(coins: &Vec<Coin>) -> (r: Vec<Coin>)
    ensures
        r.deep_view() == coins.deep_view(),
{
    let mut r: Vec<Coin> = Vec::new();
    let n = coins.len();
    for i in 0..n
        invariant
            n == coins@.len(),
            r.deep_view() == coins.deep_view().subrange(0, i as int),
    {
        let ghost before: Seq<CoinModel> = r.deep_view();
        let c = Coin { denom: coins[i].denom.clone(), amount: coins[i].amount };
        proof {
            assert(c@ =~~= coins.deep_view()[i as int]);
        }
        r.push(c);
        proof {
            assert(r.deep_view() =~~= before.push(c@));
            assert(before.push(c@) =~= coins.deep_view().subrange(0, i + 1));
        }
    }
    proof {
        assert(coins.deep_view().subrange(0, n as int) =~= coins.deep_view());
    }
    r
}

/// Concatenates the historical amounts of a window with the newly
/// requested fee into the one list of coins the limit is checked against.
pub fn concat_spend(used: &Vec<Vec<Coin>>, requested: &Vec<Coin>) -> (r: Vec<Coin>)
    ensures
        r.deep_view() == used.deep_view().flatten() + requested.deep_view(),
{
    broadcast use vstd::seq_lib::group_seq_properties;

    let mut r: Vec<Coin> = Vec::new();
    let m = used.len();
    for k in 0..m
        invariant
            m == used@.len(),
            r.deep_view() == used.deep_view().subrange(0, k as int).flatten(),
    {
        let ghost base: Seq<CoinModel> = r.deep_view();
        let n = used[k].len();
        for j in 0..n
            invariant
                m == used@.len(),
                0 <= k < m,
                n == used@[k as int]@.len(),
                base == used.deep_view().subrange(0, k as int).flatten(),
                r.deep_view() == base + used.deep_view()[k as int].subrange(0, j as int),
        {
            let ghost step: Seq<CoinModel> = r.deep_view();
            let c = Coin { denom: used[k][j].denom.clone(), amount: used[k][j].amount };
            proof {
                assert(c@ =~~= used.deep_view()[k as int][j as int]);
            }
            r.push(c);
            proof {
                assert(r.deep_view() =~~= step.push(c@));
                assert(step.push(c@) =~= base + used.deep_view()[k as int].subrange(0, j + 1));
            }
        }
        proof {
            let uv = used.deep_view();
            assert(uv[k as int].subrange(0, n as int) =~= uv[k as int]);
            assert(uv.subrange(0, k + 1) =~= uv.subrange(0, k as int).push(uv[k as int]));
            Seq::lemma_flatten_push(uv.subrange(0, k as int), uv[k as int]);
            assert(r.deep_view() =~= uv.subrange(0, k + 1).flatten());
        }
    }
    proof {
        assert(used.deep_view().subrange(0, m as int) =~= used.deep_view());
    }
    let ghost flat: Seq<CoinModel> = used.deep_view().flatten();
    let n2 = requested.len();
    for j in 0..n2
        invariant
            n2 == requested@.len(),
            flat == used.deep_view().flatten(),
            r.deep_view() == flat + requested.deep_view().subrange(0, j as int),
    {
        let ghost step: Seq<CoinModel> = r.deep_view();
        let c = Coin { denom: requested[j].denom.clone(), amount: requested[j].amount };
        proof {
            assert(c@ =~~= requested.deep_view()[j as int]);
        }
        r.push(c);
        proof {
            assert(r.deep_view() =~~= step.push(c@));
            assert(step.push(c@) =~= flat + requested.deep_view().subrange(0, j + 1));
        }
    }
    proof {
        assert(requested.deep_view().subrange(0, n2 as int) =~= requested.deep_view());
        assert(r.deep_view() =~= used.deep_view().flatten() + requested.deep_view());
    }
    r
}

/// Decides `within_limit` for a normal-form limit and an arbitrary list of
/// spent coins.
pub fn check_spend(limit: &Vec<Coin>, spend: &Vec<Coin>) -> (r: bool)
    requires
        denoms_unique(limit.deep_view()),
    ensures
        r == within_limit(limit.deep_view(), spend.deep_view()),
{
    let ghost lim: Seq<CoinModel> = limit.deep_view();
    let ghost sp: Seq<CoinModel> = spend.deep_view();
    let n = spend.len();
    // Every coin actually spent must have a configured allowance.
    for i in 0..n
        invariant
            n == spend@.len(),
            lim == limit.deep_view(),
            sp == spend.deep_view(),
            denoms_unique(lim),
            forall|k: int|
                0 <= k < i && (#[trigger] sp[k]).amount != 0 ==> has_denom(lim, sp[k].denom),
    {
        if spend[i].amount != 0 && !contains_denom(limit, &spend[i].denom) {
            proof {
                lemma_amount_absent(lim, sp[i as int].denom);
                lemma_amount_elem(sp, i as int);
                assert(amount_of(sp, sp[i as int].denom) > amount_of(lim, sp[i as int].denom));
            }
            return false;
        }
    }
    // Per configured denomination, subtract the spend from the allowance.
    let m = limit.len();
    for k in 0..m
        invariant
            m == limit@.len(),
            n == spend@.len(),
            lim == limit.deep_view(),
            sp == spend.deep_view(),
            denoms_unique(lim),
            forall|t: int|
                0 <= t < n && (#[trigger] sp[t]).amount != 0 ==> has_denom(lim, sp[t].denom),
            forall|t: int|
                0 <= t < k ==> amount_of(sp, (#[trigger] lim[t]).denom) <= lim[t].amount,
    {
        let mut remaining: u128 = limit[k].amount;
        for j in 0..n
            invariant
                m == limit@.len(),
                n == spend@.len(),
                lim == limit.deep_view(),
                sp == spend.deep_view(),
                denoms_unique(lim),
                0 <= k < m,
                remaining == lim[k as int].amount - amount_of(
                    sp.subrange(0, j as int),
                    lim[k as int].denom,
                ),
                forall|t: int|
                    0 <= t < n && (#[trigger] sp[t]).amount != 0 ==> has_denom(lim, sp[t].denom),
                forall|t: int|
                    0 <= t < k ==> amount_of(sp, (#[trigger] lim[t]).denom) <= lim[t].amount,
        {
            let ghost pre: Seq<CoinModel> = sp.subrange(0, j as int);
            let ghost post: Seq<CoinModel> = sp.subrange(0, j + 1);
            let ghost d: Seq<char> = lim[k as int].denom;
            proof {
                assert(post.drop_last() =~= pre);
                assert(post.last() == sp[j as int]);
                assert(amount_of(post, d) == amount_of(pre, d) + if sp[j as int].denom == d {
                    sp[j as int].amount
                } else {
                    0
                });
            }
            if spend[j].denom == limit[k].denom {
                if spend[j].amount > remaining {
                    proof {
                        assert(amount_of(post, d) > lim[k as int].amount);
                        lemma_amount_prefix(sp, j + 1, d);
                        lemma_amount_unique(lim, k as int);
                        assert(amount_of(sp, d) > amount_of(lim, d));
                    }
                    return false;
                }
                remaining = remaining - spend[j].amount;
            }
        }
        proof {
            assert(sp.subrange(0, n as int) =~= sp);
        }
    }
    proof {
        assert forall|d: Seq<char>| #[trigger] amount_of(sp, d) <= amount_of(lim, d) by {
            if has_denom(lim, d) {
                let t = choose|t: int| 0 <= t < lim.len() && (#[trigger] lim[t]).denom == d;
                lemma_amount_unique(lim, t);
            } else {
                lemma_amount_absent(lim, d);
                assert(forall|t: int|
                    0 <= t < sp.len() && (#[trigger] sp[t]).denom == d ==> sp[t].amount == 0);
                lemma_amount_only_zero(sp, d);
            }
        }
    }
    true
}

} // verus!

