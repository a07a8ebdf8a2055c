use crate::grant::{CwGrant, MsgModel, SudoMsg};
use crate::granter::{granter_field_encoding, new_register_as_granter_msg, StargateMsg};
use vstd::prelude::*;
use vstd::utf8::encode_utf8;

verus! {

/// Rejections of the allowlist policy.
#[derive(Debug)]
pub enum ContractError {
    /// The caller or a message sender is not permitted.
    Unauthorized(String),
    /// The message kind is not the one the policy recognizes.
    DisallowedMessage(String),
    /// The decoded target is not the configured destination.
    DisallowedContract(String),
    /// The payload cannot be parsed as a contract execution.
    DecodeError,
    /// State was queried before initialization.
    ConfigurationMissing,
}

/// The mathematical image of an allowlist rejection.
pub enum ErrorModel {
    Unauthorized(Seq<char>),
    DisallowedMessage(Seq<char>),
    DisallowedContract(Seq<char>),
    DecodeError,
    ConfigurationMissing,
}

impl View for ContractError {
    type V = ErrorModel;

    open spec fn view(&self) -> ErrorModel {
        match self {
            ContractError::Unauthorized(s) => ErrorModel::Unauthorized(s@),
            ContractError::DisallowedMessage(s) => ErrorModel::DisallowedMessage(s@),
            ContractError::DisallowedContract(s) => ErrorModel::DisallowedContract(s@),
            ContractError::DecodeError => ErrorModel::DecodeError,
            ContractError::ConfigurationMissing => ErrorModel::ConfigurationMissing,
        }
    }
}

#[verifier::external_type_specification]
#[verifier::external_body]
pub struct ExDecodeError(prost::DecodeError);

/// What decoding a payload as a contract execution yields: the target
/// contract of the call, or nothing if the bytes do not parse.
pub uninterp spec fn exec_contract_decoding(bytes: Seq<u8>) -> Option<Seq<char>>;

/// Relies on prost's `Message::decode` for cosmos-sdk-proto's
/// `MsgExecuteContract`: the result is a function of the payload bytes
/// alone; on success the decoded call's target contract is handed back.
#[verifier::external_body]
fn decode_exec_contract(bytes: &Vec<u8>) -> (r: Result<String, prost::DecodeError>)
    ensures
        match r {
            Ok(c) => exec_contract_decoding(bytes@) == Some(c@),
            Err(_) => exec_contract_decoding(bytes@) is None,
        },
{
    <cosmos_sdk_proto::cosmwasm::wasm::v1::MsgExecuteContract as prost::Message>::decode(
        bytes.as_slice(),
    ).map(|m| m.contract)
}

/// Allowlist deployment state: the owner, the allowed senders, and the
/// one destination contract that authorized messages may target.
pub struct AllowlistState {
    pub owner: String,
    pub allowed_contract: String,
    pub allowed_addresses: Vec<String>,
}

/// Initialization input of an allowlist deployment.
pub struct InstantiateMsg {
    pub allowed_addresses: Vec<String>,
    pub allowed_contract: String,
}

/// Owner-gated administration of the allowed-sender set.
pub enum ExecuteMsg {
    RemoveAllowance(String),
    AddAllowance(String),
}

/// All checks of the allowlist policy on one message.
pub open spec fn msg_ok(allowed: Seq<Seq<char>>, dest: Seq<char>, m: MsgModel) -> bool {
    allowed.contains(m.sender) && m.type_url.len() == 0 && exec_contract_decoding(m.msg) == Some(
        dest,
    )
}

/// The allowlist evaluator's verdict on a list of messages, checked in
/// order and stopping at the first violation: `None` authorizes the
/// request.
pub open spec fn allow_verdict(
    allowed: Seq<Seq<char>>,
    dest: Seq<char>,
    msgs: Seq<MsgModel>,
) -> Option<ErrorModel>
    decreases msgs.len(),
{
    if msgs.len() == 0 {
        None
    } else {
        let m = msgs.first();
        if !allowed.contains(m.sender) {
            Some(ErrorModel::Unauthorized(m.sender))
        } else if m.type_url.len() != 0 {
            Some(ErrorModel::DisallowedMessage(m.type_url))
        } else {
            match exec_contract_decoding(m.msg) {
                Option::None => Some(ErrorModel::DecodeError),
                Option::Some(target) => if target != dest {
                    Some(ErrorModel::DisallowedContract(target))
                } else {
                    allow_verdict(allowed, dest, msgs.drop_first())
                },
            }
        }
    }
}

/// Whether `a` is one of the listed addresses.
fn contains_addr(addrs: &Vec<String>, a: &String) -> (r: bool)
    ensures
        r == addrs.deep_view().contains(a@),
{
    let n = addrs.len();
    for i in 0..n
        invariant
            n == addrs@.len(),
            forall|k: int| 0 <= k < i ==> (#[trigger] addrs.deep_view()[k]) != a@,
    {
        if addrs[i] == *a {
            proof {
                assert(addrs.deep_view()[i as int] == a@);
            }
            return true;
        }
    }
    proof {
        if addrs.deep_view().contains(a@) {
            let k = choose|k: int|
                0 <= k < addrs.deep_view().len() && addrs.deep_view()[k] == a@;
            assert(false);
        }
    }
    false
}

/// Sets up an allowlist deployment from its initial configuration and
/// emits the control message registering it as a fee granter.
pub fn instantiate(msg: InstantiateMsg, info_sender: String, contract_address: String) -> (r: (
    AllowlistState,
    StargateMsg,
))
    ensures
        r.0.owner@ == info_sender@,
        r.0.allowed_contract@ == msg.allowed_contract@,
        r.0.allowed_addresses.deep_view() == msg.allowed_addresses.deep_view(),
        r.1.type_url@ == "/archway.cwfees.v1.MsgRegisterAsGranter"@,
        r.1.value@ == granter_field_encoding(encode_utf8(contract_address@)),
{
    let reg = new_register_as_granter_msg(contract_address);
    let state = AllowlistState {
        owner: info_sender,
        allowed_contract: msg.allowed_contract,
        allowed_addresses: msg.allowed_addresses,
    };
    (state, reg)
}

/// Evaluates one grant request: every sender must be allowed, every
/// message must be of the recognized kind, and every decoded target must
/// be the configured destination. Reads only; accepts with no state
/// change.
pub fn process_grant(state: &AllowlistState, grant: &CwGrant) -> (r: Result<(), ContractError>)
    ensures
        match r {
            Ok(()) => allow_verdict(
                state.allowed_addresses.deep_view(),
                state.allowed_contract@,
                grant.msgs.deep_view(),
            ) is None,
            Err(e) => allow_verdict(
                state.allowed_addresses.deep_view(),
                state.allowed_contract@,
                grant.msgs.deep_view(),
            ) == Some(e@),
        },
{
    let ghost allowed: Seq<Seq<char>> = state.allowed_addresses.deep_view();
    let ghost dest: Seq<char> = state.allowed_contract@;
    let ghost all: Seq<MsgModel> = grant.msgs.deep_view();
    let n = grant.msgs.len();
    proof {
        assert(all.skip(0) =~= all);
    }
    for i in 0..n
        invariant
            n == grant.msgs@.len(),
            allowed == state.allowed_addresses.deep_view(),
            dest == state.allowed_contract@,
            all == grant.msgs.deep_view(),
            allow_verdict(allowed, dest, all) == allow_verdict(allowed, dest, all.skip(i as int)),
    {
        let ghost suffix: Seq<MsgModel> = all.skip(i as int);
        proof {
            assert(suffix.first() == all[i as int]);
            assert(suffix.drop_first() =~= all.skip(i + 1));
        }
        let m = &grant.msgs[i];
        proof {
            assert(m@ == all[i as int]);
        }
        if !contains_addr(&state.allowed_addresses, &m.sender) {
            return Err(ContractError::Unauthorized(m.sender.clone()));
        }
        if !m.type_url.as_str().is_empty() {
            return Err(ContractError::DisallowedMessage(m.type_url.clone()));
        }
        match decode_exec_contract(&m.msg) {
            Err(_) => {
                return Err(ContractError::DecodeError);
            },
            Ok(target) => {
                if !(target == state.allowed_contract) {
                    return Err(ContractError::DisallowedContract(target));
                }
            },
        }
    }
    proof {
        assert(all.skip(n as int) =~= Seq::<MsgModel>::empty());
    }
    Ok(())
}

/// The grant decision coordinator of an allowlist deployment: dispatches
/// the host's call to the evaluator. The policy is read-only, so the call
/// never changes state.
pub fn sudo(state: &Option<AllowlistState>, msg: &SudoMsg) -> (r: Result<(), ContractError>)
    ensures
        match state {
            Option::None => match r {
                Err(e) => e@ == ErrorModel::ConfigurationMissing,
                Ok(_) => false,
            },
            Option::Some(cfg) => match msg {
                SudoMsg::CwGrant(grant) => match r {
                    Ok(()) => allow_verdict(
                        cfg.allowed_addresses.deep_view(),
                        cfg.allowed_contract@,
                        grant.msgs.deep_view(),
                    ) is None,
                    Err(e) => allow_verdict(
                        cfg.allowed_addresses.deep_view(),
                        cfg.allowed_contract@,
                        grant.msgs.deep_view(),
                    ) == Some(e@),
                },
            },
        },
{
    match state {
        None => Err(ContractError::ConfigurationMissing),
        Some(cfg) => match msg { SudoMsg::CwGrant(grant) => process_grant(cfg, grant) },
    }
}

/// Copies the address list without every occurrence of `a`.
fn remove_addr(addrs: &Vec<String>, a: &String) -> (r: Vec<String>)
    ensures
        forall|x: Seq<char>| #[trigger]
            r.deep_view().contains(x) <==> (addrs.deep_view().contains(x) && x != a@),
{
    let ghost dv: Seq<Seq<char>> = addrs.deep_view();
    let mut out: Vec<String> = Vec::new();
    let n = addrs.len();
    for i in 0..n
        invariant
            n == addrs@.len(),
            dv == addrs.deep_view(),
            forall|w: int|
                0 <= w < out.deep_view().len() ==> (#[trigger] out.deep_view()[w]) != a@
                    && dv.contains(out.deep_view()[w]),
            forall|k: int|
                0 <= k < i && (#[trigger] dv[k]) != a@ ==> out.deep_view().contains(dv[k]),
    {
        if !(addrs[i] == *a) {
            let ghost before: Seq<Seq<char>> = out.deep_view();
            out.push(addrs[i].clone());
            proof {
                let cur = out.deep_view();
                assert(cur =~~= before.push(dv[i as int]));
                assert(dv.contains(dv[i as int]));
                assert forall|k: int|
                    0 <= k < i + 1 && (#[trigger] dv[k]) != a@ implies cur.contains(dv[k]) by {
                    if k < i {
                        let w = choose|w: int| 0 <= w < before.len() && before[w] == dv[k];
                        assert(cur[w] == dv[k]);
                    } else {
                        assert(cur[before.len() as int] == dv[k]);
                    }
                }
            }
        }
    }
    proof {
        assert forall|x: Seq<char>| #[trigger]
            out.deep_view().contains(x) <==> (dv.contains(x) && x != a@) by {
            if out.deep_view().contains(x) {
                let w = choose|w: int|
                    0 <= w < out.deep_view().len() && out.deep_view()[w] == x;
            }
            if dv.contains(x) && x != a@ {
                let k = choose|k: int| 0 <= k < dv.len() && dv[k] == x;
            }
        }
    }
    out
}

/// Owner-gated configuration mutation: adds an address to, or removes one
/// from, the allowed-sender set. Any caller but the owner is turned away
/// before any change.
pub fn execute(state: &mut Option<AllowlistState>, sender: &String, msg: ExecuteMsg) -> (r: Result<
    (),
    ContractError,
>)
    ensures
        match *old(state) {
            Option::None => *final(state) == *old(state) && match r {
                Err(e) => e@ == ErrorModel::ConfigurationMissing,
                Ok(_) => false,
            },
            Option::Some(cfg) => if sender@ != cfg.owner@ {
                *final(state) == *old(state) && match r {
                    Err(e) => e@ == ErrorModel::Unauthorized(sender@),
                    Ok(_) => false,
                }
            } else {
                r is Ok && match *final(state) {
                    Option::Some(ncfg) => ncfg.owner == cfg.owner && ncfg.allowed_contract
                        == cfg.allowed_contract && match msg {
                        ExecuteMsg::AddAllowance(a) => forall|x: Seq<char>| #[trigger]
                            ncfg.allowed_addresses.deep_view().contains(x) <==> (
                            cfg.allowed_addresses.deep_view().contains(x) || x == a@),
                        ExecuteMsg::RemoveAllowance(a) => forall|x: Seq<char>| #[trigger]
                            ncfg.allowed_addresses.deep_view().contains(x) <==> (
                            cfg.allowed_addresses.deep_view().contains(x) && x != a@),
                    },
                    Option::None => false,
                }
            },
        },
{
    match state {
        None => Err(ContractError::ConfigurationMissing),
        Some(cfg) => {
            if !(cfg.owner == *sender) {
                return Err(ContractError::Unauthorized(sender.clone()));
            }
            match msg {
                ExecuteMsg::AddAllowance(a) => {
                    let ghost before: Seq<Seq<char>> = cfg.allowed_addresses.deep_view();
                    let ghost av: Seq<char> = a@;
                    cfg.allowed_addresses.push(a);
                    proof {
                        let cur = cfg.allowed_addresses.deep_view();
                        assert(cur =~~= before.push(av));
                        assert forall|x: Seq<char>| #[trigger]
                            cur.contains(x) <==> (before.contains(x) || x == av) by {
                            if cur.contains(x) {
                                let w = choose|w: int| 0 <= w < cur.len() && cur[w] == x;
                                if w < before.len() {
                                    assert(before[w] == x);
                                }
                            }
                            if before.contains(x) {
                                let w = choose|w: int|
                                    0 <= w < before.len() && before[w] == x;
                                assert(cur[w] == x);
                            }
                            if x == av {
                                assert(cur[before.len() as int] == x);
                            }
                        }
                    }
                    Ok(())
                },
                ExecuteMsg::RemoveAllowance(a) => {
                    let pruned = remove_addr(&cfg.allowed_addresses, &a);
                    cfg.allowed_addresses = pruned;
                    Ok(())
                },
            }
        },
    }
}

/// Allowlist soundness, first half: a request containing any message
/// whose sender is not allowed is never authorized, whatever its other
/// messages hold.
pub proof fn lemma_allowlist_soundness(
    allowed: Seq<Seq<char>>,
    dest: Seq<char>,
    msgs: Seq<MsgModel>,
    i: int,
)
    requires
        0 <= i < msgs.len(),
        !allowed.contains(msgs[i].sender),
    ensures
        allow_verdict(allowed, dest, msgs) is Some,
    decreases msgs.len(),
{
    let m = msgs.first();
    if !allowed.contains(m.sender) {
    } else if m.type_url.len() != 0 {
    } else {
        match exec_contract_decoding(m.msg) {
            Option::None => {},
            Option::Some(target) => {
                if target == dest {
                    assert(i != 0);
                    assert(msgs.drop_first()[i - 1] == msgs[i]);
                    lemma_allowlist_soundness(allowed, dest, msgs.drop_first(), i - 1);
                }
            },
        }
    }
}

/// Allowlist soundness, second half: when every message before the first
/// disallowed sender passes all checks, the rejection is `Unauthorized`
/// and names that sender.
pub proof fn lemma_allowlist_unauthorized(
    allowed: Seq<Seq<char>>,
    dest: Seq<char>,
    msgs: Seq<MsgModel>,
    i: int,
)
    requires
        0 <= i < msgs.len(),
        !allowed.contains(msgs[i].sender),
        forall|j: int| 0 <= j < i ==> msg_ok(allowed, dest, #[trigger] msgs[j]),
    ensures
        allow_verdict(allowed, dest, msgs) == Some(ErrorModel::Unauthorized(msgs[i].sender)),
    decreases msgs.len(),
{
    if i == 0 {
    } else {
        assert(msg_ok(allowed, dest, msgs[0]));
        let rest = msgs.drop_first();
        assert(forall|j: int| 0 <= j < rest.len() ==> #[trigger] rest[j] == msgs[j + 1]);
        assert(rest[i - 1] == msgs[i]);
        lemma_allowlist_unauthorized(allowed, dest, rest, i - 1);
    }
}

/// Allowlist target binding: when every sender is allowed and every
/// message is of the recognized kind and decodes, the request is
/// authorized exactly when every decoded target is the configured
/// destination.
pub proof fn lemma_allowlist_target_binding(
    allowed: Seq<Seq<char>>,
    dest: Seq<char>,
    msgs: Seq<MsgModel>,
)
    requires
        forall|j: int| 0 <= j < msgs.len() ==> allowed.contains((#[trigger] msgs[j]).sender),
        forall|j: int| 0 <= j < msgs.len() ==> (#[trigger] msgs[j]).type_url.len() == 0,
        forall|j: int|
            0 <= j < msgs.len() ==> exec_contract_decoding((#[trigger] msgs[j]).msg) is Some,
    ensures
        allow_verdict(allowed, dest, msgs) is None <==> forall|j: int|
            0 <= j < msgs.len() ==> exec_contract_decoding((#[trigger] msgs[j]).msg) == Some(dest),
    decreases msgs.len(),
{
    if msgs.len() == 0 {
    } else {
        let m = msgs.first();
        let rest = msgs.drop_first();
        assert(forall|j: int| 0 <= j < rest.len() ==> #[trigger] rest[j] == msgs[j + 1]);
        match exec_contract_decoding(m.msg) {
            Option::None => {
                assert(false);
            },
            Option::Some(target) => {
                if target == dest {
                    lemma_allowlist_target_binding(allowed, dest, rest);
                    assert((forall|j: int|
                        0 <= j < msgs.len() ==> exec_contract_decoding((#[trigger] msgs[j]).msg)
                            == Some(dest)) <==> (forall|j: int|
                        0 <= j < rest.len() ==> exec_contract_decoding((#[trigger] rest[j]).msg)
                            == Some(dest))) by {
                        if (forall|j: int|
                            0 <= j < rest.len() ==> exec_contract_decoding(
                                (#[trigger] rest[j]).msg,
                            ) == Some(dest)) {
                            assert forall|j: int| 0 <= j < msgs.len() implies exec_contract_decoding(
                                (#[trigger] msgs[j]).msg,
                            ) == Some(dest) by {
                                if j > 0 {
                                    assert(rest[j - 1] == msgs[j]);
                                }
                            }
                        }
                    }
                } else {
                    assert(allow_verdict(allowed, dest, msgs) is Some);
                    assert(exec_contract_decoding(msgs[0].msg) == Some(target));
                }
            },
        }
    }
}

} // verus!
