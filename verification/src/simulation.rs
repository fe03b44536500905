//! The simulated network: its routers, its servers, the event queue and the statistics, built from a tabulated topology.

use vstd::prelude::*;
use std::rc::Rc;
use crate::event::{Event, EventQueue, enqueued};
use crate::{Message, Phit};
use crate::network::{Server, Statistics};
use crate::policies::VirtualChannelPolicy;
use crate::router::basic::{Basic, BufferSizes};
use crate::router::StatusAtServer;
use crate::routing::take_first;
use crate::topology::{Location, TopologyTable};

verus! {

///The number of cycles the event queue spans, more than any link delay.
pub const EVENT_QUEUE_SIZE: usize = 1000;

///The simulated network at a cycle.
pub struct Simulation {
    ///The topology, as tables.
    pub topology: TopologyTable,
    ///The delay of each link class.
    pub link_delays: Vec<usize>,
    ///The maximum size of the packets in which messages are broken.
    pub maximum_packet_size: usize,
    ///The routers, by their index in the topology.
    pub routers: Vec<Basic>,
    ///The servers, by their index in the topology.
    pub servers: Vec<Server>,
    ///The events to be processed.
    pub event_queue: EventQueue<Event>,
    ///The statistics of the whole network.
    pub statistics: Statistics,
    ///The current cycle.
    pub cycle: usize,
}

///Whether each port of a router leads to a server.
pub open spec fn server_ports_of(topology: &TopologyTable, router: int) -> Seq<bool> {
    Seq::new(topology.spec_ports(router), |p: int| topology.spec_neighbour(router, p).0 is ServerPort)
}

///A router as the network is built: consistent, at its place, with the ports of the topology and the given configuration,
///empty buffers, full credits and nothing selected.
pub open spec fn built_router(
    router: Basic,
    r: int,
    topology: &TopologyTable,
    virtual_channels: usize,
    buffer_size: usize,
    sizes: BufferSizes,
    bubble: bool,
    intransit_priority: bool,
    allow_request_busy_port: bool,
    output_priorize_lowest_label: bool,
    policies: Seq<VirtualChannelPolicy>,
) -> bool {
    &&& router.wf()
    &&& router.router_index == r
    &&& router.num_ports() == topology.spec_ports(r)
    &&& router.nvc() == virtual_channels
    &&& router.sizes == sizes
    &&& router.buffer_size == buffer_size
    &&& router.bubble == bubble
    &&& router.intransit_priority == intransit_priority
    &&& router.allow_request_busy_port == allow_request_busy_port
    &&& router.output_priorize_lowest_label == output_priorize_lowest_label
    &&& router.virtual_channel_policies@ == policies
    &&& router.last_process_at_cycle is None
    &&& forall|p: int, v: int| 0 <= p < router.num_ports() && 0 <= v < router.nvc() ==> {
        &&& #[trigger] router.credits(p, v) == crate::router::basic::initial_credits(server_ports_of(topology, r)[p], buffer_size)
        &&& router.input(p, v).len() == 0
        &&& router.selected_input@[p]@[v] is None
    }
}

///The status a server starts with towards its router: the space of all the virtual channels of the router's port, and a
///whole packet of the maximum size to send.
pub open spec fn initial_server_status(virtual_channels: usize, buffer_size: usize, maximum_packet_size: usize) -> StatusAtServer {
    StatusAtServer { available_size: (virtual_channels * buffer_size) as usize, size_to_send: maximum_packet_size }
}

impl Simulation {
    ///Builds the network of a topology: a basic router for each router of the topology, with its ports towards servers
    ///told apart and the given virtual channels, buffers and policies, and a server for each server of the topology, knowing
    ///the whole space of its router's port; cleared statistics and an empty event queue, at cycle 0.
    #[verifier::rlimit(50)]
    pub fn new(
        topology: TopologyTable,
        link_delays: Vec<usize>,
        maximum_packet_size: usize,
        virtual_channels: usize,
        buffer_size: usize,
        sizes: BufferSizes,
        bubble: bool,
        intransit_priority: bool,
        allow_request_busy_port: bool,
        output_priorize_lowest_label: bool,
        policies: Vec<Vec<VirtualChannelPolicy>>,
    ) -> (s: Simulation)
        requires
            topology.wf(),
            policies@.len() == topology.spec_num_routers(),
            forall|r: int| 0 <= r < topology.spec_num_routers() ==> #[trigger] topology.spec_ports(r) > 0,
            forall|r: int, p: int| 0 <= r < topology.spec_num_routers() && 0 <= p < topology.spec_ports(r) ==>
                (#[trigger] topology.spec_neighbour(r, p)).1 < link_delays@.len(),
            forall|k: int| 0 <= k < topology.servers@.len() ==> (#[trigger] topology.servers@[k]).0 is RouterPort,
            forall|k: int| 0 <= k < topology.servers@.len() ==> (#[trigger] topology.servers@[k]).1 < link_delays@.len(),
            forall|c: int| 0 <= c < link_delays@.len() ==> #[trigger] link_delays@[c] < EVENT_QUEUE_SIZE,
            maximum_packet_size > 0,
            0 < virtual_channels <= i64::MAX,
            virtual_channels * buffer_size <= usize::MAX,
            sizes.flit_size > 0,
            sizes.maximum_packet_size <= usize::MAX / 2,
        ensures
            s.wf(),
            s.topology == topology,
            s.link_delays@ == link_delays@,
            s.maximum_packet_size == maximum_packet_size,
            s.cycle == 0,
            s.statistics.is_clear(0),
            s.event_queue.wf(),
            s.event_queue.size() == EVENT_QUEUE_SIZE,
            s.event_queue.begin_view() == Seq::new(EVENT_QUEUE_SIZE as nat, |d: int| Seq::<Event>::empty()),
            s.routers@.len() == topology.spec_num_routers(),
            forall|r: int| 0 <= r < s.routers@.len() ==> #[trigger] built_router(s.routers@[r], r, &topology, virtual_channels, buffer_size, sizes,
                bubble, intransit_priority, allow_request_busy_port, output_priorize_lowest_label, policies@[r]@),
            s.servers@.len() == topology.servers@.len(),
            forall|k: int| 0 <= k < s.servers@.len() ==> {
                let server = #[trigger] s.servers@[k];
                &&& server.index == k
                &&& server.port == topology.servers@[k]
                &&& server.router_status == initial_server_status(virtual_channels, buffer_size, maximum_packet_size)
                &&& server.stored_messages@.len() == 0
                &&& server.stored_packets@.len() == 0
                &&& server.stored_phits@.len() == 0
            },
    {
        let num_routers = topology.num_routers();
        let mut routers: Vec<Basic> = Vec::new();
        let mut rest = policies;
        let ghost all_policies = rest@;
        let mut r: usize = 0;
        while r < num_routers
            invariant
                topology.wf(),
                num_routers == topology.spec_num_routers(),
                all_policies.len() == num_routers,
                forall|q: int| 0 <= q < num_routers ==> #[trigger] topology.spec_ports(q) > 0,
                0 < virtual_channels <= i64::MAX,
                sizes.flit_size > 0,
                sizes.maximum_packet_size <= usize::MAX / 2,
                r <= num_routers,
                rest@ == all_policies.skip(r as int),
                routers@.len() == r,
                forall|q: int| 0 <= q < r ==> #[trigger] built_router(routers@[q], q, &topology, virtual_channels, buffer_size, sizes,
                    bubble, intransit_priority, allow_request_busy_port, output_priorize_lowest_label, all_policies[q]@),
            decreases num_routers - r,
        {
            let ports = topology.ports(r);
            let mut server_ports: Vec<bool> = Vec::new();
            let mut p: usize = 0;
            while p < ports
                invariant
                    r < topology.spec_num_routers(),
                    ports == topology.spec_ports(r as int),
                    p <= ports,
                    server_ports@ == server_ports_of(&topology, r as int).take(p as int),
                decreases ports - p,
            {
                let (location, _class) = topology.neighbour(r, p);
                let is_server = match location {
                    Location::ServerPort(_) => true,
                    _ => false,
                };
                server_ports.push(is_server);
                p = p + 1;
                proof {
                    assert(server_ports@ =~= server_ports_of(&topology, r as int).take(p as int));
                }
            }
            proof {
                assert(server_ports@ =~= server_ports_of(&topology, r as int));
            }
            let router_policies = take_first(&mut rest);
            proof {
                assert(router_policies == all_policies[r as int]);
                assert(all_policies.skip(r + 1) =~= all_policies.skip(r as int).drop_first());
            }
            let router = Basic::new(
                r,
                &server_ports,
                router_policies,
                virtual_channels,
                buffer_size,
                sizes,
                bubble,
                intransit_priority,
                allow_request_busy_port,
                output_priorize_lowest_label,
            );
            proof {
                let sp = server_ports_of(&topology, r as int);
                assert(router.num_ports() == topology.spec_ports(r as int));
                assert(router.virtual_channel_policies@ == all_policies[r as int]@);
                assert forall|p: int, v: int| 0 <= p < router.num_ports() && 0 <= v < router.nvc() implies {
                    &&& #[trigger] router.credits(p, v) == crate::router::basic::initial_credits(sp[p], buffer_size)
                    &&& router.input(p, v).len() == 0
                    &&& router.selected_input@[p]@[v] is None
                } by {
                    assert(server_ports@[p] == sp[p]);
                }
            }
            assert(built_router(router, r as int, &topology, virtual_channels, buffer_size, sizes,
                bubble, intransit_priority, allow_request_busy_port, output_priorize_lowest_label, all_policies[r as int]@));
            let ghost before = routers@;
            routers.push(router);
            proof {
                assert forall|q: int| 0 <= q < r + 1 implies #[trigger] routers@[q] == if q < r { before[q] } else { router } by {}
            }
            r = r + 1;
        }
        let num_servers = topology.num_servers();
        let status_size = virtual_channels * buffer_size;
        let mut servers: Vec<Server> = Vec::new();
        let mut k: usize = 0;
        while k < num_servers
            invariant
                num_servers == topology.servers@.len(),
                status_size == virtual_channels * buffer_size,
                k <= num_servers,
                servers@.len() == k,
                forall|q: int| 0 <= q < k ==> {
                    let server = #[trigger] servers@[q];
                    &&& server.index == q
                    &&& server.port == topology.servers@[q]
                    &&& server.router_status == initial_server_status(virtual_channels, buffer_size, maximum_packet_size)
                    &&& server.stored_messages@.len() == 0
                    &&& server.stored_packets@.len() == 0
                    &&& server.stored_phits@.len() == 0
                },
            decreases num_servers - k,
        {
            let port = topology.server_neighbour(k);
            let status = StatusAtServer { available_size: status_size, size_to_send: maximum_packet_size };
            servers.push(Server::new(k, port, status));
            k = k + 1;
        }
        let statistics = Statistics::new(&topology);
        let sim = Simulation {
            topology,
            link_delays,
            maximum_packet_size,
            routers,
            servers,
            event_queue: EventQueue::new(EVENT_QUEUE_SIZE),
            statistics,
            cycle: 0,
        };
        proof {
            assert forall|r: int| 0 <= r < sim.routers@.len() implies {
                &&& (#[trigger] sim.routers@[r]).wf()
                &&& sim.routers@[r].router_index == r
                &&& sim.routers@[r].num_ports() == sim.topology.spec_ports(r)
            } by {
                assert(built_router(sim.routers@[r], r, &sim.topology, virtual_channels, buffer_size, sizes,
                    bubble, intransit_priority, allow_request_busy_port, output_priorize_lowest_label, all_policies[r]@));
            }
        }
        sim
    }
}


impl Simulation {
    ///The routers and servers are those of the topology, each router consistent and at its place, every link class has a
    ///delay shorter than the event queue, the queue is consistent, and the statistics count every router port.
    pub open spec fn wf(&self) -> bool {
        &&& self.topology.wf()
        &&& self.maximum_packet_size > 0
        &&& self.routers@.len() == self.topology.spec_num_routers()
        &&& forall|r: int| 0 <= r < self.routers@.len() ==> {
            &&& (#[trigger] self.routers@[r]).wf()
            &&& self.routers@[r].router_index == r
            &&& self.routers@[r].num_ports() == self.topology.spec_ports(r)
        }
        &&& forall|r: int, p: int| 0 <= r < self.topology.spec_num_routers() && 0 <= p < self.topology.spec_ports(r) ==>
            (#[trigger] self.topology.spec_neighbour(r, p)).1 < self.link_delays@.len()
        &&& forall|c: int| 0 <= c < self.link_delays@.len() ==> #[trigger] self.link_delays@[c] < EVENT_QUEUE_SIZE
        &&& self.event_queue.wf()
        &&& self.event_queue.size() == EVENT_QUEUE_SIZE
        &&& self.servers@.len() == self.topology.servers@.len()
        &&& forall|k: int| 0 <= k < self.servers@.len() ==> (#[trigger] self.servers@[k]).port == self.topology.servers@[k]
        &&& forall|k: int| 0 <= k < self.servers@.len() ==> (#[trigger] self.topology.servers@[k]).1 < self.link_delays@.len()
    }

    ///A server stores the message it generated this cycle, if any, when it has room for it.
    pub fn store_generated(&mut self, server: usize, generated: Option<Rc<Message>>)
        requires
            old(self).wf(),
            server < old(self).servers@.len(),
        ensures
            final(self).wf(),
            *final(self) == (Simulation { servers: final(self).servers, ..*old(self) }),
            final(self).servers@.len() == old(self).servers@.len(),
            forall|k: int| 0 <= k < old(self).servers@.len() && k != server ==> #[trigger] final(self).servers@[k] == old(self).servers@[k],
            final(self).servers@[server as int].stored_messages@ == match generated {
                Some(m) => if old(self).servers@[server as int].stored_messages@.len() < crate::network::MAX_STORED_MESSAGES {
                    old(self).servers@[server as int].stored_messages@.push(m)
                } else {
                    old(self).servers@[server as int].stored_messages@
                },
                None => old(self).servers@[server as int].stored_messages@,
            },
            final(self).servers@[server as int].stored_packets@ == old(self).servers@[server as int].stored_packets@,
            final(self).servers@[server as int].stored_phits@ == old(self).servers@[server as int].stored_phits@,
            final(self).servers@[server as int].router_status == old(self).servers@[server as int].router_status,
            final(self).servers@[server as int].statistics == old(self).servers@[server as int].statistics,
            final(self).servers@[server as int].port == old(self).servers@[server as int].port,
            final(self).servers@[server as int].index == old(self).servers@[server as int].index,
    {
        match generated {
            Some(m) => {
                if self.servers[server].has_room_for_message() {
                    let ghost before = self.servers@;
                    self.servers[server].store_message(m);
                    proof {
                        assert forall|k: int| 0 <= k < before.len() implies (#[trigger] self.servers@[k]).port == self.topology.servers@[k] by {
                            if k != server {
                                assert(self.servers@[k] == before[k]);
                            }
                        }
                    }
                }
            },
            None => {},
        }
    }

    ///A server attached to a router sends its next phit, when its status towards the router allows it: the phit is to arrive
    ///at the router port after the delay of the link.
    pub fn send_from_server(&mut self, server: usize) -> (sent: Option<Rc<Phit>>)
        requires
            old(self).wf(),
            server < old(self).servers@.len(),
            old(self).servers@[server as int].statistics.created_phits < usize::MAX,
            old(self).statistics.created_phits < usize::MAX,
            old(self).servers@[server as int].sendable_phit_has_room(old(self).maximum_packet_size),
        ensures
            final(self).wf(),
            *final(self) == (Simulation {
                servers: final(self).servers,
                statistics: final(self).statistics,
                event_queue: final(self).event_queue,
                ..*old(self)
            }),
            final(self).servers@.len() == old(self).servers@.len(),
            forall|k: int| 0 <= k < old(self).servers@.len() && k != server ==> #[trigger] final(self).servers@[k] == old(self).servers@[k],
            final(self).servers@[server as int].after_refill(old(self).servers@[server as int], old(self).maximum_packet_size),
            final(self).event_queue.end_view() == old(self).event_queue.end_view(),
            match sent {
                Some(phit) => {
                    &&& phit == refilled_first(old(self).servers@[server as int], old(self).maximum_packet_size)
                    &&& final(self).servers@[server as int].router_status.available_size == old(self).servers@[server as int].router_status.available_size - 1
                    &&& final(self).statistics.created_phits == old(self).statistics.created_phits + 1
                    &&& final(self).event_queue.begin_view() == enqueued(
                        old(self).event_queue.begin_view(),
                        Event::PhitToLocation {
                            phit,
                            previous: crate::topology::Location::ServerPort(server),
                            new: old(self).servers@[server as int].port.0,
                        },
                        old(self).link_delays@[old(self).servers@[server as int].port.1 as int] as int,
                    )
                },
                None => {
                    &&& final(self).servers@[server as int].router_status == old(self).servers@[server as int].router_status
                    &&& final(self).statistics.created_phits == old(self).statistics.created_phits
                    &&& final(self).event_queue.begin_view() == old(self).event_queue.begin_view()
                },
            },
    {
        let ghost before = self.servers@;
        let maximum_packet_size = self.maximum_packet_size;
        let port = self.servers[server].port;
        assert(port == self.topology.servers@[server as int]);
        let sent = self.servers[server].send_phit(maximum_packet_size, &mut self.statistics, self.cycle);
        proof {
            assert forall|k: int| 0 <= k < before.len() implies (#[trigger] self.servers@[k]).port == self.topology.servers@[k] by {
                if k != server {
                    assert(self.servers@[k] == before[k]);
                }
            }
        }
        match sent {
            Some(phit) => {
                let delay = self.link_delays[port.1];
                let event = Event::PhitToLocation {
                    phit: crate::rc_clone(&phit),
                    previous: Location::ServerPort(server),
                    new: port.0,
                };
                self.event_queue.enqueue_begin(event, delay);
                Some(phit)
            },
            None => None,
        }
    }

    ///Ends the cycle: the event queue moves to the next cycle.
    pub fn finish_cycle(&mut self)
        requires
            old(self).wf(),
            old(self).cycle < usize::MAX,
        ensures
            final(self).wf(),
            final(self).cycle == old(self).cycle + 1,
            *final(self) == (Simulation { event_queue: final(self).event_queue, cycle: final(self).cycle, ..*old(self) }),
            final(self).event_queue.begin_view() == crate::event::advanced(old(self).event_queue.begin_view()),
    {
        self.event_queue.advance();
        self.cycle = self.cycle + 1;
    }
}

///The first phit a server hands out after refilling.
pub open spec fn refilled_first(s: Server, maximum: usize) -> Rc<Phit> {
    crate::network::refilled_phits(s, maximum as nat)[0]
}

} // verus!
