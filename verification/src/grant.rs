use crate::coins::{Coin, CoinModel};
use vstd::prelude::*;

verus! {

/// One message proposed in a candidate transaction: its sender (resolved
/// and supplied by the host, so it can be trusted), its type discriminator,
/// and the encoded payload bytes.
pub struct Msg {
    pub sender: String,
    pub type_url: String,
    pub msg: Vec<u8>,
}

/// The mathematical image of a `Msg`.
pub struct MsgModel {
    pub sender: Seq<char>,
    pub type_url: Seq<char>,
    pub msg: Seq<u8>,
}

impl View for Msg {
    type V = MsgModel;

    open spec fn view(&self) -> MsgModel {
        MsgModel { sender: self.sender@, type_url: self.type_url@, msg: self.msg@ }
    }
}

impl DeepView for Msg {
    type V = MsgModel;

    open spec fn deep_view(&self) -> MsgModel {
        self@
    }
}

/// A grant request: the fee amount requested for one candidate transaction
/// and the ordered messages it intends to execute.
pub struct CwGrant {
    pub fee_requested: Vec<Coin>,
    pub msgs: Vec<Msg>,
}

/// The mathematical image of a `CwGrant`.
pub struct CwGrantModel {
    pub fee_requested: Seq<CoinModel>,
    pub msgs: Seq<MsgModel>,
}

impl View for CwGrant {
    type V = CwGrantModel;

    open spec fn view(&self) -> CwGrantModel {
        CwGrantModel {
            fee_requested: self.fee_requested.deep_view(),
            msgs: self.msgs.deep_view(),
        }
    }
}

/// The host's authorization call into a granting deployment.
pub enum SudoMsg {
    CwGrant(CwGrant),
}

} // verus!
