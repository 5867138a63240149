//! Reassembly of the fragments of a single session, which arrive in order.
use vstd::prelude::*;
use crate::packet::{Packet, PacketType};

verus! {

/// Gathers the data of one session until the fragment whose index is the
/// last one arrives.
pub struct Assembler {
    session_id: u64,
    data: Vec<u8>,
}

/// What taking in one packet leads to.
pub enum AssemblyStep {
    /// More fragments are needed.
    Continue,
    /// The last fragment arrived: all the data gathered.
    Done(Vec<u8>),
    /// The packet cannot belong to this assembly: the reason.
    Failed(String),
}

pub open spec fn session_mismatch_text() -> Seq<char> {
    "Session ID mismatch"@
}

pub open spec fn unexpected_type_text() -> Seq<char> {
    "Unexpected packet type"@
}

impl Assembler {
    pub fn new(session_id: u64) -> (r: Self)
        ensures
            r.session() == session_id,
            r.data()@ == Seq::<u8>::empty(),
    {
        Assembler { session_id, data: Vec::new() }
    }

    pub closed spec fn data(&self) -> Vec<u8> {
        self.data
    }

    pub closed spec fn session(&self) -> u64 {
        self.session_id
    }

    /// The session this assembler gathers.
    pub fn session_id(&self) -> (r: u64)
        ensures
            r == self.session(),
    {
        self.session_id
    }

    /// The data gathered so far.
    pub fn gathered(&self) -> (r: &Vec<u8>)
        ensures
            r@ == self.data()@,
    {
        &self.data
    }

    /// Takes in one packet: a packet of another session, or one that is not
    /// a fragment, fails; a fragment adds its 128 bytes, and ends the
    /// assembly when its index is the last one.
    pub fn absorb(&mut self, packet: &Packet) -> (r: AssemblyStep)
        requires
            packet.session_id == old(self).session() ==> (packet.pack_type matches PacketType::MsgFragment(f) ==> f.total_n_fragments >= 1),
        ensures
            final(self).session() == old(self).session(),
            packet.session_id != old(self).session() ==> final(self).data()@ == old(self).data()@
                && (r matches AssemblyStep::Failed(e) && e@ == session_mismatch_text()),
            packet.session_id == old(self).session() ==> match packet.pack_type {
                PacketType::MsgFragment(f) => {
                    &&& final(self).data()@ == old(self).data()@ + f.data@
                    &&& if f.fragment_index == f.total_n_fragments - 1 {
                        r matches AssemblyStep::Done(d) && d@ == final(self).data()@
                    } else {
                        r is Continue
                    }
                },
                _ => final(self).data()@ == old(self).data()@ && (r matches AssemblyStep::Failed(e) && e@ == unexpected_type_text()),
            },
    {
        if packet.session_id != self.session_id {
            return AssemblyStep::Failed("Session ID mismatch".to_string());
        }
        match &packet.pack_type {
            PacketType::MsgFragment(f) => {
                self.data.extend_from_slice(&f.data);
                if f.fragment_index == f.total_n_fragments - 1 {
                    AssemblyStep::Done(self.data.clone())
                } else {
                    AssemblyStep::Continue
                }
            },
            _ => AssemblyStep::Failed("Unexpected packet type".to_string()),
        }
    }
}

} // verus!
