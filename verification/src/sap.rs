//! The primitives that the injection entity exchanges with the TETRA stack.
use std::collections::VecDeque;
use vstd::prelude::*;

verus! {

/// Service access point of a primitive.
#[derive(Debug, Clone, Copy, PartialEq, Eq, Structural)]
pub enum Sap {
    Control,
    TmdSap,
}

/// The entities of the stack that a primitive can come from or go to.
#[derive(Debug, Clone, Copy, PartialEq, Eq, Structural)]
pub enum TetraEntity {
    Brew,
    FlowDmr,
    Cmce,
    Umac,
}

/// Position in the TDMA structure: hyperframe, multiframe, frame, timeslot.
#[derive(Debug, Clone, Copy, PartialEq, Eq, Structural)]
pub struct TdmaTime {
    pub h: u16,
    pub m: u8,
    pub f: u8,
    pub t: u8,
}

/// Group-call control between the entity and CMCE. Calls are named by a 128-bit id.
#[derive(Debug, Clone, Copy, PartialEq, Eq, Structural)]
pub enum CallControl {
    NetworkCallStart { brew_uuid: u128, source_issi: u32, dest_gssi: u32, priority: u8 },
    NetworkCallReady { brew_uuid: u128, call_id: u16, ts: u8, usage: u8 },
    NetworkCallEnd { brew_uuid: u128 },
}

/// One voice block for a timeslot.
#[derive(Debug, Clone, PartialEq, Eq)]
pub struct TmdCircuitDataReq {
    pub ts: u8,
    pub data: Vec<u8>,
}

/// The content of a primitive.
#[derive(Debug, Clone, PartialEq, Eq)]
pub enum SapMsgInner {
    CmceCallControl(CallControl),
    TmdCircuitDataReq(TmdCircuitDataReq),
    /// Any primitive that means nothing to the entity.
    Other,
}

/// A primitive with its addresses.
#[derive(Debug, Clone, PartialEq, Eq)]
pub struct SapMsg {
    pub sap: Sap,
    pub src: TetraEntity,
    pub dest: TetraEntity,
    pub msg: SapMsgInner,
}

/// Mathematical value of a [`SapMsgInner`].
pub enum InnerView {
    Control(CallControl),
    Voice { ts: u8, data: Seq<u8> },
    Other,
}

/// Mathematical value of a [`SapMsg`].
pub struct MsgView {
    pub sap: Sap,
    pub src: TetraEntity,
    pub dest: TetraEntity,
    pub msg: InnerView,
}

impl View for SapMsgInner {
    type V = InnerView;

    open spec fn view(&self) -> InnerView {
        match *self {
            SapMsgInner::CmceCallControl(c) => InnerView::Control(c),
            SapMsgInner::TmdCircuitDataReq(req) => InnerView::Voice { ts: req.ts, data: req.data@ },
            SapMsgInner::Other => InnerView::Other,
        }
    }
}

impl View for SapMsg {
    type V = MsgView;

    open spec fn view(&self) -> MsgView {
        MsgView { sap: self.sap, src: self.src, dest: self.dest, msg: self.msg@ }
    }
}

/// A call-control primitive from `src` to CMCE.
pub open spec fn control_msg(src: TetraEntity, c: CallControl) -> MsgView {
    MsgView { sap: Sap::Control, src, dest: TetraEntity::Cmce, msg: InnerView::Control(c) }
}

/// A voice primitive from `src` to UMAC.
pub open spec fn voice_msg(src: TetraEntity, ts: u8, data: Seq<u8>) -> MsgView {
    MsgView { sap: Sap::TmdSap, src, dest: TetraEntity::Umac, msg: InnerView::Voice { ts, data } }
}

impl SapMsg {
    pub fn new(sap: Sap, src: TetraEntity, dest: TetraEntity, msg: SapMsgInner) -> (r: Self)
        ensures
            r.sap == sap,
            r.src == src,
            r.dest == dest,
            r.msg == msg,
    {
        SapMsg { sap, src, dest, msg }
    }

    pub fn get_dest(&self) -> (r: &TetraEntity)
        ensures
            *r == self.dest,
    {
        &self.dest
    }

    pub fn get_source(&self) -> (r: &TetraEntity)
        ensures
            *r == self.src,
    {
        &self.src
    }
}

/// Primitives on their way out, oldest first.
pub struct MessageQueue {
    msgs: VecDeque<SapMsg>,
}

impl View for MessageQueue {
    type V = Seq<MsgView>;

    closed spec fn view(&self) -> Seq<MsgView> {
        self.msgs@.map_values(|m: SapMsg| m@)
    }
}

impl MessageQueue {
    pub fn new() -> (r: Self)
        ensures
            r@ == Seq::<MsgView>::empty(),
    {
        let r = MessageQueue { msgs: VecDeque::new() };
        assert(r@ =~= Seq::<MsgView>::empty());
        r
    }

    pub fn push_back(&mut self, msg: SapMsg)
        ensures
            final(self)@ == old(self)@.push(msg@),
    {
        self.msgs.push_back(msg);
        assert(self@ =~= old(self)@.push(msg@));
    }

    pub fn pop_front(&mut self) -> (r: Option<SapMsg>)
        ensures
            match r {
                Some(m) => old(self)@.len() > 0 && m@ == old(self)@[0] && final(self)@
                    == old(self)@.drop_first(),
                None => old(self)@.len() == 0 && final(self)@ == old(self)@,
            },
    {
        let r = self.msgs.pop_front();
        proof {
            if old(self)@.len() > 0 {
                assert(self@ =~= old(self)@.drop_first());
            } else {
                assert(self@ =~= old(self)@);
            }
        }
        r
    }
}

} // verus!
