use cwfees::allowlist::{
    execute, instantiate, process_grant, sudo, AllowlistState, ContractError, ExecuteMsg,
    InstantiateMsg,
};
use cwfees::grant::{CwGrant, Msg, SudoMsg};
use prost::Message;

fn exec_payload(contract: &str) -> Vec<u8> {
    cosmos_sdk_proto::cosmwasm::wasm::v1::MsgExecuteContract {
        sender: String::new(),
        contract: contract.to_string(),
        msg: Vec::new(),
        funds: Vec::new(),
    }
    .encode_to_vec()
}

fn state() -> AllowlistState {
    AllowlistState {
        owner: "owner".to_string(),
        allowed_contract: "dest".to_string(),
        allowed_addresses: vec!["alice".to_string(), "bob".to_string()],
    }
}

fn msg(sender: &str, type_url: &str, payload: Vec<u8>) -> Msg {
    Msg { sender: sender.to_string(), type_url: type_url.to_string(), msg: payload }
}

#[test]
fn build() {}

#[test]
fn accepts_allowed_senders_targeting_destination() {
    let s = state();
    let grant = CwGrant {
        fee_requested: Vec::new(),
        msgs: vec![msg("alice", "", exec_payload("dest")), msg("bob", "", exec_payload("dest"))],
    };
    assert!(process_grant(&s, &grant).is_ok());
}

#[test]
fn rejects_unknown_sender() {
    let s = state();
    let grant = CwGrant {
        fee_requested: Vec::new(),
        msgs: vec![msg("alice", "", exec_payload("dest")), msg("mallory", "", exec_payload("dest"))],
    };
    let r = process_grant(&s, &grant);
    assert!(matches!(r, Err(ContractError::Unauthorized(who)) if who == "mallory"));
}

#[test]
fn rejects_typed_message() {
    let s = state();
    let grant = CwGrant {
        fee_requested: Vec::new(),
        msgs: vec![msg("alice", "/cosmos.bank.v1beta1.MsgSend", exec_payload("dest"))],
    };
    let r = process_grant(&s, &grant);
    assert!(
        matches!(r, Err(ContractError::DisallowedMessage(t)) if t == "/cosmos.bank.v1beta1.MsgSend")
    );
}

#[test]
fn rejects_other_target_contract() {
    let s = state();
    let grant = CwGrant {
        fee_requested: Vec::new(),
        msgs: vec![msg("alice", "", exec_payload("somewhere-else"))],
    };
    let r = process_grant(&s, &grant);
    assert!(matches!(r, Err(ContractError::DisallowedContract(t)) if t == "somewhere-else"));
}

#[test]
fn rejects_undecodable_payload() {
    let s = state();
    let grant = CwGrant { fee_requested: Vec::new(), msgs: vec![msg("alice", "", vec![0xff])] };
    let r = process_grant(&s, &grant);
    assert!(matches!(r, Err(ContractError::DecodeError)));
}

#[test]
fn sudo_without_config_reports_missing_configuration() {
    let grant = CwGrant { fee_requested: Vec::new(), msgs: Vec::new() };
    let r = sudo(&None, &SudoMsg::CwGrant(grant));
    assert!(matches!(r, Err(ContractError::ConfigurationMissing)));
}

#[test]
fn sudo_dispatches_to_the_evaluator() {
    let grant = CwGrant {
        fee_requested: Vec::new(),
        msgs: vec![msg("bob", "", exec_payload("dest"))],
    };
    let r = sudo(&Some(state()), &SudoMsg::CwGrant(grant));
    assert!(r.is_ok());
}

#[test]
fn instantiate_sets_config_and_registers_granter() {
    let (s, reg) = instantiate(
        InstantiateMsg {
            allowed_addresses: vec!["alice".to_string()],
            allowed_contract: "dest".to_string(),
        },
        "owner".to_string(),
        "archway1granter".to_string(),
    );
    assert_eq!(s.owner, "owner");
    assert_eq!(s.allowed_contract, "dest");
    assert_eq!(s.allowed_addresses, vec!["alice".to_string()]);
    assert_eq!(reg.type_url, "/archway.cwfees.v1.MsgRegisterAsGranter");
    let reference = cosmos_sdk_proto::cosmwasm::wasm::v1::MsgExecuteContract {
        sender: "archway1granter".to_string(),
        contract: String::new(),
        msg: Vec::new(),
        funds: Vec::new(),
    }
    .encode_to_vec();
    assert_eq!(reg.value, reference);
}

#[test]
fn owner_updates_the_allowlist() {
    let mut st = Some(state());
    let owner = "owner".to_string();
    execute(&mut st, &owner, ExecuteMsg::AddAllowance("carol".to_string())).unwrap();
    let grant = CwGrant {
        fee_requested: Vec::new(),
        msgs: vec![msg("carol", "", exec_payload("dest"))],
    };
    assert!(process_grant(st.as_ref().unwrap(), &grant).is_ok());

    execute(&mut st, &owner, ExecuteMsg::RemoveAllowance("alice".to_string())).unwrap();
    let grant = CwGrant {
        fee_requested: Vec::new(),
        msgs: vec![msg("alice", "", exec_payload("dest"))],
    };
    let r = process_grant(st.as_ref().unwrap(), &grant);
    assert!(matches!(r, Err(ContractError::Unauthorized(who)) if who == "alice"));
}

#[test]
fn non_owner_cannot_update_the_allowlist() {
    let mut st = Some(state());
    let r = execute(&mut st, &"mallory".to_string(), ExecuteMsg::AddAllowance("mallory".to_string()));
    assert!(matches!(r, Err(ContractError::Unauthorized(who)) if who == "mallory"));
    let grant = CwGrant {
        fee_requested: Vec::new(),
        msgs: vec![msg("mallory", "", exec_payload("dest"))],
    };
    let r = process_grant(st.as_ref().unwrap(), &grant);
    assert!(matches!(r, Err(ContractError::Unauthorized(who)) if who == "mallory"));
}

#[test]
fn execute_without_config_reports_missing_configuration() {
    let mut st: Option<AllowlistState> = None;
    let r = execute(&mut st, &"owner".to_string(), ExecuteMsg::AddAllowance("a".to_string()));
    assert!(matches!(r, Err(ContractError::ConfigurationMissing)));
    assert!(st.is_none());
}
