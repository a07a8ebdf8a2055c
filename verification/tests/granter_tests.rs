use cwfees::granter::{
    new_register_as_granter_msg, new_unregister_as_granter_msg, MsgRegisterAsGranter,
    MsgUnregisterAsGranter,
};
use prost::Message;

fn reference_encoding(address: &str) -> Vec<u8> {
    // A protobuf message whose first field is a string encodes exactly as
    // the granter registration messages do.
    cosmos_sdk_proto::cosmwasm::wasm::v1::MsgExecuteContract {
        sender: address.to_string(),
        contract: String::new(),
        msg: Vec::new(),
        funds: Vec::new(),
    }
    .encode_to_vec()
}

#[test]
fn register_msg_matches_protobuf_wire_format() {
    let mine =
        MsgRegisterAsGranter { granting_contract: "archway1xyz".to_string() }.encode_to_vec();
    assert_eq!(mine, reference_encoding("archway1xyz"));
    assert_eq!(mine[0], 0x0a);
    assert_eq!(mine[1], 11);
}

#[test]
fn unregister_msg_matches_protobuf_wire_format() {
    let mine =
        MsgUnregisterAsGranter { granting_contract: "archway1abc".to_string() }.encode_to_vec();
    assert_eq!(mine, reference_encoding("archway1abc"));
}

#[test]
fn empty_address_encodes_to_nothing() {
    let mine = MsgRegisterAsGranter { granting_contract: String::new() }.encode_to_vec();
    assert!(mine.is_empty());
    assert_eq!(mine, reference_encoding(""));
}

#[test]
fn long_address_gets_a_multibyte_length_prefix() {
    let address = "a".repeat(200);
    let mine = MsgRegisterAsGranter { granting_contract: address.clone() }.encode_to_vec();
    assert_eq!(mine, reference_encoding(&address));
    assert_eq!(mine[0], 0x0a);
    assert_eq!(mine[1], 0xc8);
    assert_eq!(mine[2], 0x01);
}

#[test]
fn control_messages_name_their_type_urls() {
    let reg = new_register_as_granter_msg("archway1granter".to_string());
    assert_eq!(reg.type_url, "/archway.cwfees.v1.MsgRegisterAsGranter");
    assert_eq!(reg.value, reference_encoding("archway1granter"));

    let unreg = new_unregister_as_granter_msg("archway1granter".to_string());
    assert_eq!(unreg.type_url, "/archway.cwfees.v1.MsgUnregisterAsGranter");
    assert_eq!(unreg.value, reference_encoding("archway1granter"));
}
