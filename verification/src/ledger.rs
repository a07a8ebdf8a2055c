use crate::coins::{clone_coins, Coin, CoinModel};
use vstd::prelude::*;

verus! {

/// One usage record: a sender was granted `coins` at `time` (unix
/// seconds).
pub struct UsageEntry {
    pub sender: String,
    pub time: u64,
    pub coins: Vec<Coin>,
}

/// The mathematical image of a `UsageEntry`.
pub struct UsageEntryModel {
    pub sender: Seq<char>,
    pub time: int,
    pub coins: Seq<CoinModel>,
}

impl View for UsageEntry {
    type V = UsageEntryModel;

    open spec fn view(&self) -> UsageEntryModel {
        UsageEntryModel {
            sender: self.sender@,
            time: self.time as int,
            coins: self.coins.deep_view(),
        }
    }
}

impl DeepView for UsageEntry {
    type V = UsageEntryModel;

    open spec fn deep_view(&self) -> UsageEntryModel {
        self@
    }
}

/// The amounts recorded for `sender` within the closed window
/// `[from, to]`, in ledger order.
pub open spec fn window_amounts(
    entries: Seq<UsageEntryModel>,
    sender: Seq<char>,
    from: int,
    to: int,
) -> Seq<Seq<CoinModel>>
    decreases entries.len(),
{
    if entries.len() == 0 {
        Seq::empty()
    } else {
        window_amounts(entries.drop_last(), sender, from, to) + if entries.last().sender == sender
            && from <= entries.last().time && entries.last().time <= to {
            seq![entries.last().coins]
        } else {
            Seq::empty()
        }
    }
}

/// The usage ledger: a durable, append-only record of accepted spends.
/// Entries are never removed; those outside the trailing window are merely
/// excluded from range queries, so the ledger grows over the account's
/// lifetime.
pub struct UsageLedger {
    pub entries: Vec<UsageEntry>,
}

impl View for UsageLedger {
    type V = Seq<UsageEntryModel>;

    open spec fn view(&self) -> Seq<UsageEntryModel> {
        self.entries.deep_view()
    }
}

impl UsageLedger {
    /// An empty ledger.
    pub fn new() -> (r: UsageLedger)
        ensures
            r@ == Seq::<UsageEntryModel>::empty(),
    {
        let r = UsageLedger { entries: Vec::new() };
        proof {
            assert(r@ =~= Seq::<UsageEntryModel>::empty());
        }
        r
    }

    /// Records one accepted spend.
    pub fn append(&mut self, sender: String, time: u64, coins: Vec<Coin>)
        ensures
            final(self)@ == old(self)@.push(
                UsageEntryModel { sender: sender@, time: time as int, coins: coins.deep_view() },
            ),
    {
        let ghost e = UsageEntryModel {
            sender: sender@,
            time: time as int,
            coins: coins.deep_view(),
        };
        self.entries.push(UsageEntry { sender, time, coins });
        proof {
            assert(self@ =~= old(self)@.push(e));
        }
    }

    /// The amounts spent by `sender` in the closed window `[from, to]`, in
    /// ascending ledger order.
    pub fn range_usage(&self, sender: &String, from: u64, to: u64) -> (r: Vec<Vec<Coin>>)
        ensures
            r.deep_view() == window_amounts(self@, sender@, from as int, to as int),
    {
        let mut r: Vec<Vec<Coin>> = Vec::new();
        let n = self.entries.len();
        for i in 0..n
            invariant
                n == self.entries@.len(),
                r.deep_view() == window_amounts(
                    self@.subrange(0, i as int),
                    sender@,
                    from as int,
                    to as int,
                ),
        {
            let ghost pre: Seq<UsageEntryModel> = self@.subrange(0, i as int);
            let ghost post: Seq<UsageEntryModel> = self@.subrange(0, i + 1);
            proof {
                assert(post.drop_last() =~= pre);
                assert(post.last() == self@[i as int]);
            }
            let ghost before: Seq<Seq<CoinModel>> = r.deep_view();
            if self.entries[i].sender == *sender && from <= self.entries[i].time
                && self.entries[i].time <= to {
                let c = clone_coins(&self.entries[i].coins);
                r.push(c);
                proof {
                    assert(r.deep_view() =~= before.push(self@[i as int].coins));
                    assert(before.push(self@[i as int].coins) =~= before + seq![
                        self@[i as int].coins,
                    ]);
                    assert(r.deep_view() =~= window_amounts(post, sender@, from as int, to as int));
                }
            } else {
                proof {
                    assert(before + Seq::<Seq<CoinModel>>::empty() =~= before);
                    assert(r.deep_view() =~= window_amounts(post, sender@, from as int, to as int));
                }
            }
        }
        proof {
            assert(self@.subrange(0, n as int) =~= self@);
        }
        r
    }
}

} // verus!
