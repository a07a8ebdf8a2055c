use crate::coins::{
    amount_of, check_spend, clone_coins, concat_spend, has_duplicate_nonzero, limit_wf,
    normalize_coins, within_limit, Coin, CoinModel,
};
use crate::grant::{CwGrant, CwGrantModel, SudoMsg};
use crate::granter::{granter_field_encoding, new_register_as_granter_msg, StargateMsg};
use crate::ledger::{window_amounts, UsageEntryModel, UsageLedger};
use vstd::prelude::*;
use vstd::utf8::encode_utf8;

verus! {

/// The length of the trailing usage window, in seconds.
pub const WINDOW_SECS: u64 = 3600;

/// Rejections of the rate-limit policy.
#[derive(Debug)]
pub enum ContractError {
    /// The sender has no configured limit.
    Unauthorized(String),
    /// Requests holding more than one message are never authorized.
    OnlyOneMessage,
    /// The spend would exceed the sender's allowance in the trailing
    /// window.
    LimitsReached,
    /// A configured limit lists one denomination twice.
    DuplicateDenom,
}

/// The mathematical image of a rate-limit rejection.
pub enum ErrorModel {
    Unauthorized(Seq<char>),
    OnlyOneMessage,
    LimitsReached,
    DuplicateDenom,
}

impl View for ContractError {
    type V = ErrorModel;

    open spec fn view(&self) -> ErrorModel {
        match self {
            ContractError::Unauthorized(s) => ErrorModel::Unauthorized(s@),
            ContractError::OnlyOneMessage => ErrorModel::OnlyOneMessage,
            ContractError::LimitsReached => ErrorModel::LimitsReached,
            ContractError::DuplicateDenom => ErrorModel::DuplicateDenom,
        }
    }
}

/// One sender's configured allowance.
pub struct LimitEntry {
    pub sender: String,
    pub coins: Vec<Coin>,
}

/// The mathematical image of a `LimitEntry`.
#[verifier::ext_equal]
pub struct LimitEntryModel {
    pub sender: Seq<char>,
    pub coins: Seq<CoinModel>,
}

impl View for LimitEntry {
    type V = LimitEntryModel;

    open spec fn view(&self) -> LimitEntryModel {
        LimitEntryModel { sender: self.sender@, coins: self.coins.deep_view() }
    }
}

impl DeepView for LimitEntry {
    type V = LimitEntryModel;

    open spec fn deep_view(&self) -> LimitEntryModel {
        self@
    }
}

/// The limit configured for `sender`; of several entries for one sender
/// the latest wins, as a later configuration overwrites an earlier one.
pub open spec fn limit_of(limits: Seq<LimitEntryModel>, sender: Seq<char>) -> Option<
    Seq<CoinModel>,
>
    decreases limits.len(),
{
    if limits.len() == 0 {
        None
    } else if limits.last().sender == sender {
        Some(limits.last().coins)
    } else {
        limit_of(limits.drop_last(), sender)
    }
}

/// Rate-limit deployment state: the per-sender limits and the usage
/// ledger.
pub struct RateLimitState {
    pub limits: Vec<LimitEntry>,
    pub usage: UsageLedger,
}

impl RateLimitState {
    /// Every configured limit is in normal form.
    pub open spec fn wf(&self) -> bool {
        forall|k: int|
            0 <= k < self.limits.deep_view().len() ==> limit_wf(
                (#[trigger] self.limits.deep_view()[k]).coins,
            )
    }
}

/// The rate-limit evaluator's verdict on one request at time `now`:
/// `None` authorizes it, `Some` names the rule that rejects it.
pub open spec fn rl_verdict(
    limits: Seq<LimitEntryModel>,
    ledger: Seq<UsageEntryModel>,
    now: int,
    req: CwGrantModel,
) -> Option<ErrorModel> {
    if req.msgs.len() > 1 {
        Some(ErrorModel::OnlyOneMessage)
    } else {
        let sender = req.msgs[0].sender;
        match limit_of(limits, sender) {
            Option::None => Some(ErrorModel::Unauthorized(sender)),
            Option::Some(limit) => if within_limit(
                limit,
                window_amounts(ledger, sender, now - WINDOW_SECS, now).flatten()
                    + req.fee_requested,
            ) {
                None
            } else {
                Some(ErrorModel::LimitsReached)
            },
        }
    }
}

/// Finds the entry that `limit_of` designates for `sender`.
fn find_limit(limits: &Vec<LimitEntry>, sender: &String) -> (r: Option<usize>)
    ensures
        match r {
            Some(i) => i < limits@.len() && limits.deep_view()[i as int].sender == sender@
                && limit_of(limits.deep_view(), sender@) == Some(
                limits.deep_view()[i as int].coins,
            ),
            None => limit_of(limits.deep_view(), sender@) is None,
        },
{
    let ghost dv = limits.deep_view();
    let mut i = limits.len();
    proof {
        assert(dv.subrange(0, i as int) =~= dv);
    }
    while i > 0
        invariant
            i <= limits@.len(),
            dv == limits.deep_view(),
            limit_of(dv, sender@) == limit_of(dv.subrange(0, i as int), sender@),
        decreases i,
    {
        let j = i - 1;
        let ghost upto = dv.subrange(0, j as int + 1);
        proof {
            assert(upto.drop_last() =~= dv.subrange(0, j as int));
            assert(upto.last() == dv[j as int]);
        }
        if limits[j].sender == *sender {
            proof {
                assert(limit_of(upto, sender@) == Some(dv[j as int].coins));
            }
            return Some(j);
        }
        proof {
            assert(limit_of(upto, sender@) == limit_of(dv.subrange(0, j as int), sender@));
        }
        i = j;
    }
    proof {
        assert(dv.subrange(0, 0) =~= Seq::<LimitEntryModel>::empty());
    }
    None
}

/// Evaluates one grant request against the configured limits and the
/// trailing window of the ledger, and records the spend on acceptance.
/// A rejection leaves the state untouched: the ledger write happens only
/// together with acceptance.
pub fn process_grant(state: &mut RateLimitState, now: u64, req: &CwGrant) -> (r: Result<
    (),
    ContractError,
>)
    requires
        old(state).wf(),
        req.msgs@.len() >= 1,
        now >= WINDOW_SECS,
    ensures
        final(state).wf(),
        final(state).limits == old(state).limits,
        match r {
            Ok(()) => {
                &&& rl_verdict(
                    old(state).limits.deep_view(),
                    old(state).usage@,
                    now as int,
                    req@,
                ) is None
                &&& final(state).usage@ == old(state).usage@.push(
                    UsageEntryModel {
                        sender: req@.msgs[0].sender,
                        time: now as int,
                        coins: req@.fee_requested,
                    },
                )
            },
            Err(e) => {
                &&& rl_verdict(old(state).limits.deep_view(), old(state).usage@, now as int, req@)
                    == Some(e@)
                &&& *final(state) == *old(state)
            },
        },
{
    if req.msgs.len() > 1 {
        return Err(ContractError::OnlyOneMessage);
    }
    let sender = &req.msgs[0].sender;
    proof {
        assert(req@.msgs[0] == req.msgs@[0]@);
        assert(sender@ == req@.msgs[0].sender);
    }
    match find_limit(&state.limits, sender) {
        None => Err(ContractError::Unauthorized(sender.clone())),
        Some(idx) => {
            let low = now - WINDOW_SECS;
            let used = state.usage.range_usage(sender, low, now);
            let spend = concat_spend(&used, &req.fee_requested);
            proof {
                assert(limit_wf(state.limits.deep_view()[idx as int].coins));
            }
            let ok = check_spend(&state.limits[idx].coins, &spend);
            if ok {
                state.usage.append(sender.clone(), now, clone_coins(&req.fee_requested));
                proof {
                    assert(final(state).usage@.last() =~~= UsageEntryModel {
                        sender: req@.msgs[0].sender,
                        time: now as int,
                        coins: req@.fee_requested,
                    });
                    assert(final(state).usage@ =~~= old(state).usage@.push(
                        UsageEntryModel {
                            sender: req@.msgs[0].sender,
                            time: now as int,
                            coins: req@.fee_requested,
                        },
                    ));
                }
                Ok(())
            } else {
                Err(ContractError::LimitsReached)
            }
        },
    }
}

/// The grant decision coordinator of a rate-limit deployment: dispatches
/// the host's call to the evaluator. Acceptance and the ledger write are
/// one atomic unit; any rejection leaves the state exactly as it was.
pub fn sudo(state: &mut RateLimitState, now: u64, msg: &SudoMsg) -> (r: Result<(), ContractError>)
    requires
        old(state).wf(),
        now >= WINDOW_SECS,
        match msg {
            SudoMsg::CwGrant(req) => req.msgs@.len() >= 1,
        },
    ensures
        final(state).wf(),
        final(state).limits == old(state).limits,
        match msg {
            SudoMsg::CwGrant(req) => match r {
                Ok(()) => {
                    &&& rl_verdict(
                        old(state).limits.deep_view(),
                        old(state).usage@,
                        now as int,
                        req@,
                    ) is None
                    &&& final(state).usage@ == old(state).usage@.push(
                        UsageEntryModel {
                            sender: req@.msgs[0].sender,
                            time: now as int,
                            coins: req@.fee_requested,
                        },
                    )
                },
                Err(e) => {
                    &&& rl_verdict(
                        old(state).limits.deep_view(),
                        old(state).usage@,
                        now as int,
                        req@,
                    ) == Some(e@)
                    &&& *final(state) == *old(state)
                },
            },
        },
{
    match msg {
        SudoMsg::CwGrant(req) => process_grant(state, now, req),
    }
}

/// Initialization input of a rate-limit deployment.
pub struct InstantiateMsg {
    pub allow_list_and_limits: Vec<(String, Vec<Coin>)>,
}

/// Coin lists that allot the same amount to every denomination.
pub open spec fn coins_equiv(a: Seq<CoinModel>, b: Seq<CoinModel>) -> bool {
    forall|d: Seq<char>| #[trigger] amount_of(a, d) == amount_of(b, d)
}

/// The limit the initialization list configures for `sender`: the latest
/// entry wins.
pub open spec fn list_limit_of(list: Seq<(String, Vec<Coin>)>, sender: Seq<char>) -> Option<
    Seq<CoinModel>,
>
    decreases list.len(),
{
    if list.len() == 0 {
        None
    } else if list.last().0@ == sender {
        Some(list.last().1.deep_view())
    } else {
        list_limit_of(list.drop_last(), sender)
    }
}

/// Whether some entry of the initialization list repeats a denomination
/// with non-zero amounts.
pub open spec fn list_has_dup(list: Seq<(String, Vec<Coin>)>) -> bool {
    exists|i: int| 0 <= i < list.len() && has_duplicate_nonzero((#[trigger] list[i]).1.deep_view())
}

/// The stored limits allot to every sender and denomination exactly what
/// the initialization list does.
pub open spec fn limits_agree(
    limits: Seq<LimitEntryModel>,
    list: Seq<(String, Vec<Coin>)>,
) -> bool {
    forall|s: Seq<char>|
        match #[trigger] limit_of(limits, s) {
            Option::None => list_limit_of(list, s) is None,
            Option::Some(c) => match list_limit_of(list, s) {
                Option::None => false,
                Option::Some(l) => coins_equiv(c, l),
            },
        }
}

/// Sets up a rate-limit deployment: stores each sender's limit (in normal
/// form), starts an empty ledger, and emits the control message that
/// registers the deployment as a fee granter with the host.
pub fn instantiate(msg: InstantiateMsg, contract_address: String) -> (r: Result<
    (RateLimitState, StargateMsg),
    ContractError,
>)
    ensures
        match r {
            Ok(p) => {
                &&& !list_has_dup(msg.allow_list_and_limits@)
                &&& p.0.wf()
                &&& p.0.usage@ == Seq::<UsageEntryModel>::empty()
                &&& limits_agree(p.0.limits.deep_view(), msg.allow_list_and_limits@)
                &&& p.1.type_url@ == "/archway.cwfees.v1.MsgRegisterAsGranter"@
                &&& p.1.value@ == granter_field_encoding(encode_utf8(contract_address@))
            },
            Err(e) => e@ == ErrorModel::DuplicateDenom && list_has_dup(msg.allow_list_and_limits@),
        },
{
    let ghost list: Seq<(String, Vec<Coin>)> = msg.allow_list_and_limits@;
    let mut limits: Vec<LimitEntry> = Vec::new();
    let n = msg.allow_list_and_limits.len();
    for i in 0..n
        invariant
            n == msg.allow_list_and_limits@.len(),
            list == msg.allow_list_and_limits@,
            forall|k: int|
                0 <= k < limits.deep_view().len() ==> limit_wf(
                    (#[trigger] limits.deep_view()[k]).coins,
                ),
            limits_agree(limits.deep_view(), list.subrange(0, i as int)),
            !list_has_dup(list.subrange(0, i as int)),
    {
        let ghost pre: Seq<(String, Vec<Coin>)> = list.subrange(0, i as int);
        let ghost post: Seq<(String, Vec<Coin>)> = list.subrange(0, i + 1);
        proof {
            assert(post.drop_last() =~= pre);
            assert(post.last() == list[i as int]);
            assert(forall|w: int| 0 <= w < pre.len() ==> #[trigger] post[w] == pre[w]);
        }
        match normalize_coins(&msg.allow_list_and_limits[i].1) {
            None => {
                proof {
                    assert(has_duplicate_nonzero(list[i as int].1.deep_view()));
                    assert(list_has_dup(list));
                }
                return Err(ContractError::DuplicateDenom);
            },
            Some(norm) => {
                let ghost before: Seq<LimitEntryModel> = limits.deep_view();
                let ghost e = LimitEntryModel {
                    sender: list[i as int].0@,
                    coins: norm.deep_view(),
                };
                let entry = LimitEntry {
                    sender: msg.allow_list_and_limits[i].0.clone(),
                    coins: norm,
                };
                proof {
                    assert(entry@ =~~= e);
                }
                limits.push(entry);
                proof {
                    let cur = limits.deep_view();
                    assert(cur =~~= before.push(e));
                    assert(cur.drop_last() =~= before);
                    assert(cur.last() == e);
                    assert(limits_agree(cur, post)) by {
                        assert forall|s: Seq<char>|
                            match #[trigger] limit_of(cur, s) {
                                Option::None => list_limit_of(post, s) is None,
                                Option::Some(c) => match list_limit_of(post, s) {
                                    Option::None => false,
                                    Option::Some(l) => coins_equiv(c, l),
                                },
                            } by {
                            if s == e.sender {
                                assert(limit_of(cur, s) == Some(e.coins));
                                assert(list_limit_of(post, s) == Some(
                                    list[i as int].1.deep_view(),
                                ));
                            } else {
                                assert(limit_of(cur, s) == limit_of(before, s));
                                assert(list_limit_of(post, s) == list_limit_of(pre, s));
                            }
                        }
                    }
                    assert(!list_has_dup(post)) by {
                        if list_has_dup(post) {
                            let w = choose|w: int|
                                0 <= w < post.len() && has_duplicate_nonzero(
                                    (#[trigger] post[w]).1.deep_view(),
                                );
                            if w == i {
                                assert(false);
                            } else {
                                assert(list_has_dup(pre));
                                assert(false);
                            }
                        }
                    }
                }
            },
        }
    }
    proof {
        assert(list.subrange(0, n as int) =~= list);
    }
    let reg = new_register_as_granter_msg(contract_address);
    Ok((RateLimitState { limits, usage: UsageLedger::new() }, reg))
}

/// Batch-size rejection: a request carrying more than one message is
/// rejected with `OnlyOneMessage`, whatever its messages or fee hold and
/// whatever the configuration and ledger say.
pub proof fn lemma_batch_size_rejection(
    limits: Seq<LimitEntryModel>,
    ledger: Seq<UsageEntryModel>,
    now: int,
    req: CwGrantModel,
)
    requires
        req.msgs.len() >= 2,
    ensures
        rl_verdict(limits, ledger, now, req) == Some(ErrorModel::OnlyOneMessage),
{
}

/// Unknown sender: a single-message request from a sender with no
/// configured limit is rejected as `Unauthorized`, naming that sender.
pub proof fn lemma_unknown_sender_rejected(
    limits: Seq<LimitEntryModel>,
    ledger: Seq<UsageEntryModel>,
    now: int,
    req: CwGrantModel,
)
    requires
        req.msgs.len() == 1,
        limit_of(limits, req.msgs[0].sender) is None,
    ensures
        rl_verdict(limits, ledger, now, req) == Some(
            ErrorModel::Unauthorized(req.msgs[0].sender),
        ),
{
}

} // verus!
