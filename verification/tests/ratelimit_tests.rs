use cwfees::coins::Coin;
use cwfees::grant::{CwGrant, Msg, SudoMsg};
use cwfees::ledger::{UsageEntry, UsageLedger};
use cwfees::ratelimit::{
    instantiate, sudo, ContractError, InstantiateMsg, LimitEntry, RateLimitState,
};

fn coin(amount: u128, denom: &str) -> Coin {
    Coin { denom: denom.to_string(), amount }
}

fn grant_msg(sender: &str) -> Msg {
    Msg { sender: sender.to_string(), type_url: String::new(), msg: Vec::new() }
}

fn request(sender: &str, fee: Vec<Coin>) -> SudoMsg {
    SudoMsg::CwGrant(CwGrant { fee_requested: fee, msgs: vec![grant_msg(sender)] })
}

fn usage(sender: &str, time: u64, coins: Vec<Coin>) -> UsageEntry {
    UsageEntry { sender: sender.to_string(), time, coins }
}

fn state_with(limit: Vec<Coin>, entries: Vec<UsageEntry>) -> RateLimitState {
    RateLimitState {
        limits: vec![LimitEntry { sender: "alice".to_string(), coins: limit }],
        usage: UsageLedger { entries },
    }
}

const T: u64 = 100_000;

#[test]
fn builds() {}

#[test]
fn window_accounting_accepts_then_rejects() {
    let mut st = state_with(
        vec![coin(100, "denom-A")],
        vec![usage("alice", T - 1800, vec![coin(40, "denom-A")])],
    );
    let r = sudo(&mut st, T, &request("alice", vec![coin(50, "denom-A")]));
    assert!(r.is_ok());
    assert_eq!(st.usage.entries.len(), 2);
    assert_eq!(st.usage.entries[1].sender, "alice");
    assert_eq!(st.usage.entries[1].time, T);
    assert_eq!(st.usage.entries[1].coins.len(), 1);
    assert_eq!(st.usage.entries[1].coins[0].amount, 50);

    let r2 = sudo(&mut st, T + 60, &request("alice", vec![coin(20, "denom-A")]));
    assert!(matches!(r2, Err(ContractError::LimitsReached)));
    assert_eq!(st.usage.entries.len(), 2);
}

#[test]
fn expired_usage_frees_the_window() {
    let mut st = state_with(
        vec![coin(100, "denom-A")],
        vec![usage("alice", T - 3660, vec![coin(40, "denom-A")])],
    );
    let r = sudo(&mut st, T, &request("alice", vec![coin(100, "denom-A")]));
    assert!(r.is_ok());
    assert_eq!(st.usage.entries.len(), 2);
}

#[test]
fn window_boundary_is_inclusive() {
    let mut st = state_with(
        vec![coin(100, "denom-A")],
        vec![usage("alice", T - 3600, vec![coin(60, "denom-A")])],
    );
    let r = sudo(&mut st, T, &request("alice", vec![coin(50, "denom-A")]));
    assert!(matches!(r, Err(ContractError::LimitsReached)));
    assert_eq!(st.usage.entries.len(), 1);

    let r2 = sudo(&mut st, T, &request("alice", vec![coin(40, "denom-A")]));
    assert!(r2.is_ok());
}

#[test]
fn rejects_multi_message_batches() {
    let mut st = state_with(vec![coin(100, "denom-A")], Vec::new());
    let batch = SudoMsg::CwGrant(CwGrant {
        fee_requested: vec![coin(1, "denom-A")],
        msgs: vec![grant_msg("alice"), grant_msg("alice")],
    });
    let r = sudo(&mut st, T, &batch);
    assert!(matches!(r, Err(ContractError::OnlyOneMessage)));
    assert_eq!(st.usage.entries.len(), 0);
}

#[test]
fn rejects_sender_without_limit() {
    let mut st = state_with(vec![coin(100, "denom-A")], Vec::new());
    let r = sudo(&mut st, T, &request("mallory", vec![coin(1, "denom-A")]));
    assert!(matches!(r, Err(ContractError::Unauthorized(who)) if who == "mallory"));
    assert_eq!(st.usage.entries.len(), 0);
}

#[test]
fn rejects_unknown_denomination() {
    let mut st = state_with(vec![coin(100, "denom-A")], Vec::new());
    let r = sudo(&mut st, T, &request("alice", vec![coin(1, "denom-B")]));
    assert!(matches!(r, Err(ContractError::LimitsReached)));
    assert_eq!(st.usage.entries.len(), 0);
}

#[test]
fn zero_amount_of_unknown_denomination_passes() {
    let mut st = state_with(vec![coin(100, "denom-A")], Vec::new());
    let r = sudo(&mut st, T, &request("alice", vec![coin(0, "denom-B")]));
    assert!(r.is_ok());
}

#[test]
fn instantiate_stores_limits_and_registers_granter() {
    let r = instantiate(
        InstantiateMsg {
            allow_list_and_limits: vec![("alice".to_string(), vec![coin(100, "denom-A")])],
        },
        "archway1granter".to_string(),
    );
    let (st, reg) = r.unwrap();
    assert_eq!(st.limits.len(), 1);
    assert_eq!(st.limits[0].sender, "alice");
    assert_eq!(st.limits[0].coins.len(), 1);
    assert_eq!(st.limits[0].coins[0].denom, "denom-A");
    assert_eq!(st.limits[0].coins[0].amount, 100);
    assert_eq!(st.usage.entries.len(), 0);
    assert_eq!(reg.type_url, "/archway.cwfees.v1.MsgRegisterAsGranter");
}

#[test]
fn instantiate_rejects_duplicate_denominations() {
    let r = instantiate(
        InstantiateMsg {
            allow_list_and_limits: vec![(
                "alice".to_string(),
                vec![coin(1, "denom-A"), coin(2, "denom-A")],
            )],
        },
        "archway1granter".to_string(),
    );
    assert!(matches!(r, Err(ContractError::DuplicateDenom)));
}

#[test]
fn later_limit_for_same_sender_wins() {
    let r = instantiate(
        InstantiateMsg {
            allow_list_and_limits: vec![
                ("alice".to_string(), vec![coin(10, "denom-A")]),
                ("alice".to_string(), vec![coin(70, "denom-A")]),
            ],
        },
        "archway1granter".to_string(),
    );
    let (mut st, _) = r.unwrap();
    let accepted = sudo(&mut st, T, &request("alice", vec![coin(70, "denom-A")]));
    assert!(accepted.is_ok());
    let rejected = sudo(&mut st, T, &request("alice", vec![coin(1, "denom-A")]));
    assert!(matches!(rejected, Err(ContractError::LimitsReached)));
}
