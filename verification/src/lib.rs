//! A library form of a cycle-driven interconnection network simulator:
//! crossbar allocators, router buffers and credit flow control, virtual channel
//! policies, routing algorithms over tabulated topologies, the event queue and
//! traffic patterns, each with its behaviour stated as a contract.

pub mod allocator;
pub mod config;
pub mod event;
pub mod experiments;
pub mod network;
pub mod output;
pub mod pattern;
pub mod policies;
pub mod rng;
pub mod text;
pub mod routing;
pub mod router;
pub mod simulation;
pub mod topology;

pub use network::{Server, ServerStatistics, LinkClass, LinkStatistics, Statistics, ReportColumnKind, ReportColumn};

use vstd::prelude::*;
use std::rc::Rc;
use crate::routing::RoutingInfo;

verus! {

/// Makes another pointer to the same shared value with `Rc::clone`.
#[verifier::external_body]
pub fn rc_clone<T>(rc: &Rc<T>) -> (r: Rc<T>)
    ensures
        r == *rc,
{
    Rc::clone(rc)
}

///An application message, broken into packets
#[derive(Debug)]
pub struct Message {
    ///Server that created the message.
    pub origin: usize,
    ///Server that is the destination of the message.
    pub destination: usize,
    ///Number of phits.
    pub size: usize,
    ///Cycle when the message was created.
    pub creation_cycle: usize,
}

///A portion of a message. They are divided into phits.
///All phits must go through the same queues without phits of other packets in between.
#[derive(Debug)]
pub struct Packet {
    ///Number of phits
    pub size: usize,
    ///Information for the routing
    pub routing_info: RoutingInfo,
    ///The message to what this packet belongs.
    pub message: Rc<Message>,
    ///position inside the message
    pub index: usize,
}

///Minimal unit to be processed by the network.
///Not to be confused with flits.
#[derive(Debug)]
pub struct Phit {
    ///The packet to what this phit belongs
    pub packet: Rc<Packet>,
    ///position inside the packet
    pub index: usize,
    ///The virtual channel in which this phit should be inserted
    pub virtual_channel: Option<usize>,
}

impl Phit {
    ///Whether the phit is leading a packet. Routers check this to make requests, stablish flows, etc.
    pub fn is_begin(&self) -> (b: bool)
        ensures
            b == (self.index == 0),
    {
        self.index == 0
    }

    ///Whether this phit is the last one of a packet. Routers use this to finalize some operations.
    pub fn is_end(&self) -> (b: bool)
        requires
            self.packet.size > 0,
        ensures
            b == (self.index == self.packet.size - 1),
    {
        self.index == self.packet.size - 1
    }
}

} // verus!
