use vstd::prelude::*;
use vstd::utf8::encode_utf8;

verus! {

/// Little-endian base-128 encoding of an unsigned integer, as used by
/// length prefixes in protobuf wire data.
pub open spec fn varint_encoding(n: nat) -> Seq<u8>
    decreases n,
{
    if n < 128 {
        seq![n as u8]
    } else {
        seq![(n % 128 + 128) as u8] + varint_encoding(n / 128)
    }
}

/// Appends the varint encoding of `n` to `out`.
pub fn push_varint(out: &mut Vec<u8>, n: u64)
    ensures
        final(out)@ == old(out)@ + varint_encoding(n as nat),
{
    let mut rest: u64 = n;
    let ghost prefix: Seq<u8> = out@;
    loop
        invariant_except_break
            out@ + varint_encoding(rest as nat) == prefix + varint_encoding(n as nat),
        ensures
            out@ == prefix + varint_encoding(n as nat),
        decreases rest,
    {
        if rest < 128 {
            out.push(rest as u8);
            proof {
                assert(out@ =~= prefix + varint_encoding(n as nat));
            }
            break;
        } else {
            out.push((rest % 128 + 128) as u8);
            proof {
                assert(out@ + varint_encoding((rest / 128) as nat) =~= prefix + varint_encoding(
                    n as nat,
                ));
            }
            rest = rest / 128;
        }
    }
}

/// Protobuf wire encoding of a message holding one string field at tag 1:
/// the empty string is the field's default value and is omitted entirely;
/// any other value is laid down as the field key `0x0a`, a varint length
/// prefix, and the string's bytes.
pub open spec fn granter_field_encoding(b: Seq<u8>) -> Seq<u8> {
    if b.len() == 0 {
        Seq::empty()
    } else {
        seq![10u8] + varint_encoding(b.len()) + b
    }
}

/// Encodes the one-string-field payload shared by the granter
/// registration messages.
fn granter_payload(contract_address: &String) -> (r: Vec<u8>)
    ensures
        r@ == granter_field_encoding(encode_utf8(contract_address@)),
{
    let bytes: &[u8] = contract_address.as_str().as_bytes();
    let mut out: Vec<u8> = Vec::new();
    let n = bytes.len();
    if n == 0 {
        proof {
            assert(out@ =~= granter_field_encoding(encode_utf8(contract_address@)));
        }
        return out;
    }
    out.push(10u8);
    proof {
        assert(out@ =~= seq![10u8]);
    }
    push_varint(&mut out, n as u64);
    let ghost header: Seq<u8> = seq![10u8] + varint_encoding(bytes@.len() as nat);
    proof {
        assert(out@ == header);
    }
    for i in 0..n
        invariant
            n == bytes@.len(),
            bytes@ == encode_utf8(contract_address@),
            header == seq![10u8] + varint_encoding(bytes@.len() as nat),
            out@ == header + bytes@.subrange(0, i as int),
    {
        out.push(bytes[i]);
        proof {
            assert(out@ =~= header + bytes@.subrange(0, i + 1));
        }
    }
    proof {
        assert(bytes@.subrange(0, n as int) =~= bytes@);
        assert(out@ =~= granter_field_encoding(encode_utf8(contract_address@)));
    }
    out
}

/// Asks the host to register the named deployment as a fee granter.
pub struct MsgRegisterAsGranter {
    pub granting_contract: String,
}

/// Asks the host to unregister the named deployment as a fee granter.
pub struct MsgUnregisterAsGranter {
    pub granting_contract: String,
}

impl MsgRegisterAsGranter {
    /// Protobuf wire bytes of this message.
    pub fn encode_to_vec(&self) -> (r: Vec<u8>)
        ensures
            r@ == granter_field_encoding(encode_utf8(self.granting_contract@)),
    {
        granter_payload(&self.granting_contract)
    }
}

impl MsgUnregisterAsGranter {
    /// Protobuf wire bytes of this message.
    pub fn encode_to_vec(&self) -> (r: Vec<u8>)
        ensures
            r@ == granter_field_encoding(encode_utf8(self.granting_contract@)),
    {
        granter_payload(&self.granting_contract)
    }
}

/// An outgoing control message for the host: a protocol type identifier
/// together with protobuf-encoded payload bytes.
pub struct StargateMsg {
    pub type_url: String,
    pub value: Vec<u8>,
}

/// The control message registering `contract_address` as a fee granter
/// with the host, emitted once on successful initialization.
pub fn new_register_as_granter_msg(contract_address: String) -> (r: StargateMsg)
    ensures
        r.type_url@ == "/archway.cwfees.v1.MsgRegisterAsGranter"@,
        r.value@ == granter_field_encoding(encode_utf8(contract_address@)),
{
    let msg = MsgRegisterAsGranter { granting_contract: contract_address };
    let value = msg.encode_to_vec();
    StargateMsg { type_url: "/archway.cwfees.v1.MsgRegisterAsGranter".to_owned(), value }
}

/// The control message unregistering `contract_address` as a fee granter.
pub fn new_unregister_as_granter_msg(contract_address: String) -> (r: StargateMsg)
    ensures
        r.type_url@ == "/archway.cwfees.v1.MsgUnregisterAsGranter"@,
        r.value@ == granter_field_encoding(encode_utf8(contract_address@)),
{
    let msg = MsgUnregisterAsGranter { granting_contract: contract_address };
    let value = msg.encode_to_vec();
    StargateMsg { type_url: "/archway.cwfees.v1.MsgUnregisterAsGranter".to_owned(), value }
}

} // verus!
