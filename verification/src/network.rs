//! The servers that create and consume the traffic, the link classes, and the
//! statistics the simulation gathers and reports.

use vstd::prelude::*;
use std::rc::Rc;
use std::collections::VecDeque;
use std::collections::BTreeMap;
use crate::{Message, Packet, Phit, rc_clone};
use crate::routing::{RoutingInfo, fresh_routing_info};
use crate::topology::{Location, TopologyTable};
use crate::router::{StatusAtServer, StatusAtEmissor};

verus! {

///Statistics local to a server.
#[derive(Clone, Copy, Debug)]
pub struct ServerStatistics {
    pub created_phits: usize,
    pub consumed_phits: usize,
    pub consumed_messages: usize,
    pub total_message_delay: usize,
}

impl ServerStatistics {
    ///All the counters at zero.
    pub open spec fn is_zero(&self) -> bool {
        &&& self.created_phits == 0
        &&& self.consumed_phits == 0
        &&& self.consumed_messages == 0
        &&& self.total_message_delay == 0
    }

    pub fn new() -> (s: ServerStatistics)
        ensures
            s.is_zero(),
    {
        ServerStatistics { created_phits: 0, consumed_phits: 0, consumed_messages: 0, total_message_delay: 0 }
    }

    pub fn reset(&mut self)
        ensures
            final(self).is_zero(),
    {
        self.created_phits = 0;
        self.consumed_phits = 0;
        self.consumed_messages = 0;
        self.total_message_delay = 0;
    }
}

///A class of link, with its own delay.
///For example, the links to servers could have a different delay.
///The topologies can set additional classes. For example, a mesh/torus can diffentiate horizontal/vertical links.
///And a dragonfly topology can differentiate local from global links.
#[derive(Clone, Copy, Debug)]
pub struct LinkClass {
    ///Cycles the phit needs to move from one endpoint to the other endpoint.
    pub delay: usize,
}

impl LinkClass {
    pub fn new(delay: usize) -> (c: LinkClass)
        ensures
            c.delay == delay,
    {
        LinkClass { delay }
    }
}

///Statistics captured for each link.
#[derive(Debug)]
pub struct LinkStatistics {
    pub phit_arrivals: usize,
}

impl LinkStatistics {
    pub fn new() -> (s: LinkStatistics)
        ensures
            s.phit_arrivals == 0,
    {
        LinkStatistics { phit_arrivals: 0 }
    }

    pub fn reset(&mut self)
        ensures
            final(self).phit_arrivals == 0,
    {
        self.phit_arrivals = 0;
    }
}

///The available statistical columns. Each column has a string for the header and a way to compute what to print each period.
#[derive(Clone, Copy, Debug, PartialEq, Eq, Structural)]
pub enum ReportColumnKind {
    BeginEndCycle,
    InjectedLoad,
    AcceptedLoad,
    ServerGenerationJainIndex,
    ServerConsumptionJainIndex,
    AverageMessageDelay,
    AveragePacketHops,
    AverageLinkUtilization,
    MaximumLinkUtilization,
}

///The name that heads a column.
pub open spec fn column_name(kind: ReportColumnKind) -> Seq<char> {
    match kind {
        ReportColumnKind::BeginEndCycle => "cycle_begin-cycle_end"@,
        ReportColumnKind::InjectedLoad => "injected_load"@,
        ReportColumnKind::AcceptedLoad => "accepted_load"@,
        ReportColumnKind::ServerGenerationJainIndex => "server_generation_jain_index"@,
        ReportColumnKind::ServerConsumptionJainIndex => "server_consumption_jain_index"@,
        ReportColumnKind::AverageMessageDelay => "average_message_delay"@,
        ReportColumnKind::AveragePacketHops => "average_packet_hops"@,
        ReportColumnKind::AverageLinkUtilization => "average_link_utilization"@,
        ReportColumnKind::MaximumLinkUtilization => "maximum_link_utilization"@,
    }
}

impl ReportColumnKind {
    pub fn name(&self) -> (r: &'static str)
        ensures
            r@ == column_name(*self),
    {
        match self {
            ReportColumnKind::BeginEndCycle => "cycle_begin-cycle_end",
            ReportColumnKind::InjectedLoad => "injected_load",
            ReportColumnKind::AcceptedLoad => "accepted_load",
            ReportColumnKind::ServerGenerationJainIndex => "server_generation_jain_index",
            ReportColumnKind::ServerConsumptionJainIndex => "server_consumption_jain_index",
            ReportColumnKind::AverageMessageDelay => "average_message_delay",
            ReportColumnKind::AveragePacketHops => "average_packet_hops",
            ReportColumnKind::AverageLinkUtilization => "average_link_utilization",
            ReportColumnKind::MaximumLinkUtilization => "maximum_link_utilization",
        }
    }
}

///`n` spaces.
pub open spec fn spaces(n: nat) -> Seq<char> {
    Seq::new(n, |i: int| ' ')
}

///A text left aligned in a field of `width` characters: padded with spaces when shorter, whole when longer.
pub open spec fn left_aligned(text: Seq<char>, width: nat) -> Seq<char> {
    if text.len() < width { text + spaces((width - text.len()) as nat) } else { text }
}

///A statistical column with extra formatting information.
#[derive(Clone, Copy, Debug)]
pub struct ReportColumn {
    pub kind: ReportColumnKind,
    pub width: usize,
}

impl ReportColumn {
    ///The name of the column left aligned in its width.
    pub fn header(&self) -> (s: String)
        ensures
            s@ == left_aligned(column_name(self.kind), self.width as nat),
    {
        let base = self.kind.name();
        let mut s = String::from_str(base);
        let n = base.unicode_len();
        let mut i = n;
        while i < self.width
            invariant
                n == column_name(self.kind).len(),
                n <= i,
                i < self.width ==> s@ == column_name(self.kind) + spaces((i - n) as nat),
                i >= self.width ==> s@ == left_aligned(column_name(self.kind), self.width as nat),
            decreases self.width - i,
        {
            s.append(" ");
            proof {
                reveal_strlit(" ");
                assert(column_name(self.kind) + spaces((i - n) as nat) + " "@ =~= column_name(self.kind) + spaces((i + 1 - n) as nat));
            }
            i = i + 1;
        }
        proof {
            if n >= self.width {
                assert(s@ == column_name(self.kind) + spaces(0));
                assert(column_name(self.kind) + spaces(0) =~= column_name(self.kind));
            }
        }
        s
    }

    ///A column with room for its name and a space.
    pub fn from_kind(kind: ReportColumnKind) -> (c: ReportColumn)
        ensures
            c.kind == kind,
            c.width == 1 + column_name(kind).len(),
    {
        let name = kind.name();
        proof {
            reveal_strlit("cycle_begin-cycle_end");
            reveal_strlit("injected_load");
            reveal_strlit("accepted_load");
            reveal_strlit("server_generation_jain_index");
            reveal_strlit("server_consumption_jain_index");
            reveal_strlit("average_message_delay");
            reveal_strlit("average_packet_hops");
            reveal_strlit("average_link_utilization");
            reveal_strlit("maximum_link_utilization");
        }
        let width = 1 + name.unicode_len();
        ReportColumn { kind, width }
    }
}

///The columns reported by default, in order.
pub open spec fn default_column_kinds() -> Seq<ReportColumnKind> {
    seq![
        ReportColumnKind::BeginEndCycle,
        ReportColumnKind::InjectedLoad,
        ReportColumnKind::AcceptedLoad,
        ReportColumnKind::AveragePacketHops,
        ReportColumnKind::AverageLinkUtilization,
        ReportColumnKind::AverageMessageDelay,
        ReportColumnKind::ServerConsumptionJainIndex,
    ]
}

///All the global statistics captured.
#[derive(Debug)]
pub struct Statistics {
    ///The number of the first cycle included in the statistics.
    pub begin_cycle: usize,
    ///The number of phits that servers have sent to routers.
    pub created_phits: usize,
    ///Number of phits that have reached their destination server (called consume).
    pub consumed_phits: usize,
    ///Number of phit tails consumed.
    pub consumed_packets: usize,
    ///Number of messages for which all their phits have beeen consumed.
    pub consumed_messages: usize,
    ///Accumulated delay of al messages. From message creation (in traffic.rs) to server consumption.
    pub total_message_delay: usize,
    ///Accumulated count of hops made for all consumed packets.
    pub total_packet_hops: usize,
    ///Count of consumed packets indexed by the number of hops it made.
    pub total_packet_per_hop_count: Vec<usize>,
    ///Specific statistics of the links. Indexed by router and port.
    pub link_statistics: Vec<Vec<LinkStatistics>>,
    ///The columns to print in the periodic reports.
    pub columns: Vec<ReportColumn>,
}

impl Statistics {
    ///The counters are cleared, from cycle `begin`, and every link counter is zero.
    pub open spec fn is_clear(&self, begin: usize) -> bool {
        &&& self.begin_cycle == begin
        &&& self.created_phits == 0
        &&& self.consumed_phits == 0
        &&& self.consumed_packets == 0
        &&& self.consumed_messages == 0
        &&& self.total_message_delay == 0
        &&& self.total_packet_hops == 0
        &&& self.total_packet_per_hop_count@.len() == 0
        &&& forall|r: int, p: int| 0 <= r < self.link_statistics@.len() && 0 <= p < self.link_statistics@[r]@.len()
            ==> (#[trigger] self.link_statistics@[r]@[p]).phit_arrivals == 0
    }

    ///The link counters have a router and port shape.
    pub open spec fn links_shaped(&self, ports: Seq<nat>) -> bool {
        &&& self.link_statistics@.len() == ports.len()
        &&& forall|r: int| 0 <= r < ports.len() ==> (#[trigger] self.link_statistics@[r])@.len() == ports[r]
    }

    ///New statistics for a topology: cleared, one link counter per router port and the default columns.
    pub fn new(topology: &TopologyTable) -> (s: Statistics)
        ensures
            s.is_clear(0),
            s.links_shaped(Seq::new(topology.spec_num_routers(), |r: int| topology.spec_ports(r))),
            s.columns@.len() == default_column_kinds().len(),
            forall|i: int| 0 <= i < s.columns@.len() ==> {
                &&& (#[trigger] s.columns@[i]).kind == default_column_kinds()[i]
                &&& s.columns@[i].width == 1 + column_name(default_column_kinds()[i]).len()
            },
    {
        let n = topology.num_routers();
        let mut link_statistics: Vec<Vec<LinkStatistics>> = Vec::new();
        let mut r: usize = 0;
        while r < n
            invariant
                r <= n,
                n == topology.spec_num_routers(),
                link_statistics@.len() == r,
                forall|k: int| 0 <= k < r ==> (#[trigger] link_statistics@[k])@.len() == topology.spec_ports(k),
                forall|k: int, p: int| 0 <= k < r && 0 <= p < link_statistics@[k]@.len()
                    ==> (#[trigger] link_statistics@[k]@[p]).phit_arrivals == 0,
            decreases n - r,
        {
            let ports = topology.ports(r);
            let mut row: Vec<LinkStatistics> = Vec::new();
            let mut p: usize = 0;
            while p < ports
                invariant
                    p <= ports,
                    row@.len() == p,
                    forall|q: int| 0 <= q < p ==> (#[trigger] row@[q]).phit_arrivals == 0,
                decreases ports - p,
            {
                row.push(LinkStatistics::new());
                p = p + 1;
            }
            link_statistics.push(row);
            r = r + 1;
        }
        let mut columns: Vec<ReportColumn> = Vec::new();
        columns.push(ReportColumn::from_kind(ReportColumnKind::BeginEndCycle));
        columns.push(ReportColumn::from_kind(ReportColumnKind::InjectedLoad));
        columns.push(ReportColumn::from_kind(ReportColumnKind::AcceptedLoad));
        columns.push(ReportColumn::from_kind(ReportColumnKind::AveragePacketHops));
        columns.push(ReportColumn::from_kind(ReportColumnKind::AverageLinkUtilization));
        columns.push(ReportColumn::from_kind(ReportColumnKind::AverageMessageDelay));
        columns.push(ReportColumn::from_kind(ReportColumnKind::ServerConsumptionJainIndex));
        Statistics {
            begin_cycle: 0,
            created_phits: 0,
            consumed_phits: 0,
            consumed_packets: 0,
            consumed_messages: 0,
            total_message_delay: 0,
            total_packet_hops: 0,
            total_packet_per_hop_count: Vec::new(),
            link_statistics,
            columns,
        }
    }

    ///The headers of the columns, one after another.
    pub fn header_line(&self) -> (s: String)
        ensures
            s@ == columns_header(self.columns@),
    {
        let mut s = String::new();
        let mut i: usize = 0;
        while i < self.columns.len()
            invariant
                i <= self.columns@.len(),
                s@ == columns_header(self.columns@.take(i as int)),
            decreases self.columns@.len() - i,
        {
            let h = self.columns[i].header();
            s.append(h.as_str());
            proof {
                assert(self.columns@.take(i + 1).drop_last() == self.columns@.take(i as int));
            }
            i = i + 1;
        }
        proof {
            assert(self.columns@.take(self.columns@.len() as int) == self.columns@);
        }
        s
    }

    ///Counts a phit arriving at a router port.
    pub fn record_link_arrival(&mut self, router: usize, port: usize)
        requires
            router < old(self).link_statistics@.len(),
            port < old(self).link_statistics@[router as int]@.len(),
            old(self).link_statistics@[router as int]@[port as int].phit_arrivals < usize::MAX,
        ensures
            final(self).link_statistics@.len() == old(self).link_statistics@.len(),
            forall|r: int| 0 <= r < old(self).link_statistics@.len() ==>
                (#[trigger] final(self).link_statistics@[r])@.len() == old(self).link_statistics@[r]@.len(),
            forall|r: int, p: int| 0 <= r < old(self).link_statistics@.len() && 0 <= p < old(self).link_statistics@[r]@.len()
                ==> (#[trigger] final(self).link_statistics@[r]@[p]).phit_arrivals == if r == router && p == port {
                    old(self).link_statistics@[r]@[p].phit_arrivals + 1
                } else {
                    old(self).link_statistics@[r]@[p].phit_arrivals as int
                },
            final(self).begin_cycle == old(self).begin_cycle,
            final(self).created_phits == old(self).created_phits,
            final(self).consumed_phits == old(self).consumed_phits,
            final(self).consumed_packets == old(self).consumed_packets,
            final(self).consumed_messages == old(self).consumed_messages,
            final(self).total_message_delay == old(self).total_message_delay,
            final(self).total_packet_hops == old(self).total_packet_hops,
            final(self).total_packet_per_hop_count@ == old(self).total_packet_per_hop_count@,
    {
        let a = self.link_statistics[router][port].phit_arrivals;
        self.link_statistics[router][port].phit_arrivals = a + 1;
    }

    ///Forgets all captured statistics and began capturing again; the statistics of the servers too.
    pub fn reset(&mut self, next_cycle: usize, servers: &mut Vec<Server>)
        ensures
            final(self).is_clear(next_cycle),
            final(self).link_statistics@.len() == old(self).link_statistics@.len(),
            forall|r: int| 0 <= r < old(self).link_statistics@.len() ==>
                (#[trigger] final(self).link_statistics@[r])@.len() == old(self).link_statistics@[r]@.len(),
            final(self).columns@ == old(self).columns@,
            final(servers)@.len() == old(servers)@.len(),
            forall|i: int| 0 <= i < final(servers)@.len() ==> (#[trigger] final(servers)@[i]).statistics.is_zero()
                && final(servers)@[i].same_but_statistics(old(servers)@[i]),
    {
        let mut i: usize = 0;
        while i < servers.len()
            invariant
                i <= servers@.len(),
                servers@.len() == old(servers)@.len(),
                forall|k: int| 0 <= k < i ==> (#[trigger] servers@[k]).statistics.is_zero()
                    && servers@[k].same_but_statistics(old(servers)@[k]),
                forall|k: int| i <= k < servers@.len() ==> #[trigger] servers@[k] == old(servers)@[k],
            decreases servers@.len() - i,
        {
            servers[i].statistics.reset();
            i = i + 1;
        }
        let ghost old_links = self.link_statistics@;
        let mut r: usize = 0;
        while r < self.link_statistics.len()
            invariant
                r <= self.link_statistics@.len(),
                self.columns@ == old(self).columns@,
                self.link_statistics@.len() == old_links.len(),
                forall|k: int| 0 <= k < old_links.len() ==> (#[trigger] self.link_statistics@[k])@.len() == old_links[k]@.len(),
                forall|k: int, p: int| 0 <= k < r && 0 <= p < self.link_statistics@[k]@.len()
                    ==> (#[trigger] self.link_statistics@[k]@[p]).phit_arrivals == 0,
            decreases self.link_statistics@.len() - r,
        {
            let mut p: usize = 0;
            while p < self.link_statistics[r].len()
                invariant
                    r < self.link_statistics@.len(),
                    p <= self.link_statistics@[r as int]@.len(),
                    self.columns@ == old(self).columns@,
                    self.link_statistics@.len() == old_links.len(),
                    forall|k: int| 0 <= k < old_links.len() ==> (#[trigger] self.link_statistics@[k])@.len() == old_links[k]@.len(),
                    forall|k: int, q: int| 0 <= k < r && 0 <= q < self.link_statistics@[k]@.len()
                        ==> (#[trigger] self.link_statistics@[k]@[q]).phit_arrivals == 0,
                    forall|q: int| 0 <= q < p ==> (#[trigger] self.link_statistics@[r as int]@[q]).phit_arrivals == 0,
                decreases self.link_statistics@[r as int]@.len() - p,
            {
                self.link_statistics[r][p].reset();
                p = p + 1;
            }
            r = r + 1;
        }
        self.begin_cycle = next_cycle;
        self.created_phits = 0;
        self.consumed_phits = 0;
        self.consumed_packets = 0;
        self.consumed_messages = 0;
        self.total_message_delay = 0;
        self.total_packet_hops = 0;
        self.total_packet_per_hop_count = Vec::new();
    }
}

///The headers of some columns, one after another.
pub open spec fn columns_header(columns: Seq<ReportColumn>) -> Seq<char>
    decreases columns.len(),
{
    if columns.len() == 0 {
        Seq::empty()
    } else {
        columns_header(columns.drop_last()) + left_aligned(column_name(columns.last().kind), columns.last().width as nat)
    }
}

///The sizes of the packets a message of `size` phits is broken into, packets of at most `maximum` phits: full packets, then the rest.
pub open spec fn packet_sizes(size: nat, maximum: nat) -> Seq<nat>
    decreases size,
{
    if size == 0 || maximum == 0 {
        Seq::empty()
    } else if size > maximum {
        seq![maximum] + packet_sizes((size - maximum) as nat, maximum)
    } else {
        seq![size]
    }
}

///The sum of some sizes.
pub open spec fn total_size(sizes: Seq<nat>) -> nat
    decreases sizes.len(),
{
    if sizes.len() == 0 { 0 } else { sizes[0] + total_size(sizes.drop_first()) }
}

///Breaking a message into packets keeps every phit: the packet sizes add up to the message size, and no packet is empty or larger than the maximum.
pub proof fn lemma_packets_cover_message(size: nat, maximum: nat)
    requires
        maximum > 0,
    ensures
        total_size(packet_sizes(size, maximum)) == size,
        forall|i: int| 0 <= i < packet_sizes(size, maximum).len() ==>
            0 < #[trigger] packet_sizes(size, maximum)[i] <= maximum,
    decreases size,
{
    if size > maximum {
        lemma_packets_cover_message((size - maximum) as nat, maximum);
        let rest = packet_sizes((size - maximum) as nat, maximum);
        assert((seq![maximum] + rest).drop_first() =~= rest);
        assert(total_size(packet_sizes(size, maximum)) == maximum + total_size(rest));
        assert forall|i: int| 0 <= i < packet_sizes(size, maximum).len() implies
            0 < #[trigger] packet_sizes(size, maximum)[i] <= maximum by {
            if i > 0 {
                assert(packet_sizes(size, maximum)[i] == rest[i - 1]);
            }
        }
    } else if size > 0 {
        assert(seq![size].drop_first() =~= Seq::<nat>::empty());
        assert(total_size(seq![size]) == size + total_size(Seq::<nat>::empty()));
    }
}

///The packet of a message at position `k`, with the given size and fresh routing information.
pub open spec fn packet_at(message: Rc<Message>, size: nat, k: int) -> Rc<Packet> {
    Rc::new(Packet { size: size as usize, routing_info: fresh_routing_info(), message, index: k as usize })
}

///The packets of a message, in order: packet `k` has the size its place gives, fresh routing information and index `k`, its position in the message.
pub open spec fn packets_of(message: Rc<Message>, maximum: nat) -> Seq<Rc<Packet>> {
    let sizes = packet_sizes(message.size as nat, maximum);
    Seq::new(sizes.len(), |k: int| packet_at(message, sizes[k], k))
}

///The phits of a packet, in order: each of it, at its index, with no virtual channel.
pub open spec fn phits_of_packet(packet: Rc<Packet>) -> Seq<Rc<Phit>> {
    Seq::new(packet.size as nat, |i: int| Rc::new(Phit { packet, index: i as usize, virtual_channel: None }))
}

///Breaks a message into packets of at most `maximum_packet_size` phits.
pub fn packetize(message: &Rc<Message>, maximum_packet_size: usize) -> (packets: Vec<Rc<Packet>>)
    requires
        maximum_packet_size > 0,
    ensures
        packets@ == packets_of(*message, maximum_packet_size as nat),
{
    let ghost maximum = maximum_packet_size as nat;
    let mut packets: Vec<Rc<Packet>> = Vec::new();
    let mut size = message.size;
    let mut index: usize = 0;
    let ghost done: Seq<nat> = Seq::empty();
    while size > 0
        invariant
            maximum_packet_size > 0,
            maximum == maximum_packet_size as nat,
            size <= message.size,
            done + packet_sizes(size as nat, maximum) == packet_sizes(message.size as nat, maximum),
            index == done.len(),
            index <= message.size - size,
            packets@.len() == done.len(),
            forall|k: int| 0 <= k < done.len() ==> #[trigger] packets@[k] == packet_at(*message, done[k], k),
            forall|i: int| 0 <= i < done.len() ==> #[trigger] done[i] <= maximum_packet_size,
        decreases size,
    {
        let ps = if size > maximum_packet_size { maximum_packet_size } else { size };
        packets.push(Rc::new(Packet { size: ps, routing_info: RoutingInfo::new(), message: rc_clone(message), index }));
        proof {
            let rest = packet_sizes((size - ps) as nat, maximum);
            assert(packet_sizes(size as nat, maximum) == seq![ps as nat] + rest) by {
                if size <= maximum_packet_size {
                    assert(rest =~= Seq::<nat>::empty());
                    assert(seq![ps as nat] + rest =~= seq![ps as nat]);
                }
            }
            assert(done + (seq![ps as nat] + rest) =~= done.push(ps as nat) + rest);
            done = done.push(ps as nat);
        }
        size = size - ps;
        index = index + 1;
    }
    proof {
        assert(packet_sizes(0, maximum) =~= Seq::<nat>::empty());
        assert(done + Seq::<nat>::empty() =~= done);
        assert(packets@ =~= packets_of(*message, maximum));
    }
    packets
}

///Breaks a packet into its phits.
pub fn phits_of(packet: &Rc<Packet>) -> (phits: Vec<Rc<Phit>>)
    ensures
        phits@ == phits_of_packet(*packet),
{
    let mut phits: Vec<Rc<Phit>> = Vec::new();
    let mut index: usize = 0;
    while index < packet.size
        invariant
            index <= packet.size,
            phits@.len() == index,
            forall|i: int| 0 <= i < index ==> #[trigger] phits@[i] == phits_of_packet(*packet)[i],
        decreases packet.size - index,
    {
        phits.push(Rc::new(Phit { packet: rc_clone(packet), index, virtual_channel: None }));
        index = index + 1;
    }
    proof {
        assert(phits@ =~= phits_of_packet(*packet));
    }
    phits
}

///The objects that create and consume traffic to/from the network.
pub struct Server {
    ///The index of the server in the network.
    pub index: usize,
    ///To which router the server is connected + link class index. Although we could just compute with the topology each time...
    pub port: (Location, usize),
    ///Known available capacity in the connected router.
    pub router_status: StatusAtServer,
    ///Created messages but not sent.
    pub stored_messages: VecDeque<Rc<Message>>,
    ///The packets of the message that have not yet been sent.
    pub stored_packets: VecDeque<Rc<Packet>>,
    ///The phits of a packet being sent.
    pub stored_phits: VecDeque<Rc<Phit>>,
    ///For each message, by its key, we store the number of consumed phits, until the whole message is consumed.
    pub consumed_phits: BTreeMap<usize, usize>,
    ///Statistics local to the server.
    pub statistics: ServerStatistics,
}

///The most messages a server keeps waiting to be sent.
pub const MAX_STORED_MESSAGES: usize = 20;

impl Server {
    ///A server with nothing stored nor consumed.
    pub fn new(index: usize, port: (Location, usize), router_status: StatusAtServer) -> (s: Server)
        ensures
            s.index == index,
            s.port == port,
            s.router_status == router_status,
            s.stored_messages@.len() == 0,
            s.stored_packets@.len() == 0,
            s.stored_phits@.len() == 0,
            s.consumed_phits@ == Map::<usize, usize>::empty(),
            s.statistics.is_zero(),
    {
        Server {
            index,
            port,
            router_status,
            stored_messages: VecDeque::new(),
            stored_packets: VecDeque::new(),
            stored_phits: VecDeque::new(),
            consumed_phits: BTreeMap::new(),
            statistics: ServerStatistics::new(),
        }
    }

    ///Everything but the statistics is as in `other`.
    pub open spec fn same_but_statistics(&self, other: Server) -> bool {
        &&& self.index == other.index
        &&& self.port == other.port
        &&& self.router_status == other.router_status
        &&& self.stored_messages@ == other.stored_messages@
        &&& self.stored_packets@ == other.stored_packets@
        &&& self.stored_phits@ == other.stored_phits@
        &&& self.consumed_phits@ == other.consumed_phits@
    }

    ///Whether the server has room to store another generated message.
    pub fn has_room_for_message(&self) -> (b: bool)
        ensures
            b == (self.stored_messages@.len() < MAX_STORED_MESSAGES),
    {
        self.stored_messages.len() < MAX_STORED_MESSAGES
    }

    ///Stores a generated message to be sent.
    pub fn store_message(&mut self, message: Rc<Message>)
        ensures
            final(self).stored_messages@ == old(self).stored_messages@.push(message),
            final(self).index == old(self).index,
            final(self).port == old(self).port,
            final(self).stored_packets@ == old(self).stored_packets@,
            final(self).stored_phits@ == old(self).stored_phits@,
            final(self).router_status == old(self).router_status,
            final(self).statistics == old(self).statistics,
            final(self).consumed_phits@ == old(self).consumed_phits@,
    {
        self.stored_messages.push_back(message);
    }

    ///The phits consumed of a message, counting this one.
    pub open spec fn consumed_count(&self, message_key: usize) -> int {
        if self.consumed_phits@.contains_key(message_key) { self.consumed_phits@[message_key] + 1 } else { 1 }
    }

    ///The counters that a consumption increases are below their limits.
    pub open spec fn can_count_consumption(&self, phit: &Phit, message_key: usize, statistics: &Statistics, cycle: usize) -> bool {
        let message = phit.packet.message;
        let hops = phit.packet.routing_info.hops;
        &&& phit.packet.size > 0
        &&& self.statistics.consumed_phits < usize::MAX
        &&& statistics.consumed_phits < usize::MAX
        &&& self.consumed_count(message_key) <= usize::MAX
        &&& (self.consumed_count(message_key) == message.size ==> {
            &&& cycle >= message.creation_cycle
            &&& self.statistics.consumed_messages < usize::MAX
            &&& statistics.consumed_messages < usize::MAX
            &&& self.statistics.total_message_delay + (cycle - message.creation_cycle) <= usize::MAX
            &&& statistics.total_message_delay + (cycle - message.creation_cycle) <= usize::MAX
        })
        &&& (phit.index == phit.packet.size - 1 ==> {
            &&& statistics.consumed_packets < usize::MAX
            &&& statistics.total_packet_hops + hops <= usize::MAX
            &&& hops < usize::MAX
            &&& (hops < statistics.total_packet_per_hop_count@.len() ==> statistics.total_packet_per_hop_count@[hops as int] < usize::MAX)
        })
    }

    ///Consumes a phit of the message identified by `message_key`, counting it in the statistics.
    ///Returns whether it completes its message, which is then forgotten; a message is only completed by the last phit of a packet.
    pub fn consume(&mut self, phit: &Phit, message_key: usize, statistics: &mut Statistics, cycle: usize) -> (completed: bool)
        requires
            old(self).can_count_consumption(phit, message_key, old(statistics), cycle),
            old(self).consumed_count(message_key) == phit.packet.message.size ==> phit.index == phit.packet.size - 1,
        ensures
            completed == (old(self).consumed_count(message_key) == phit.packet.message.size),
            completed ==> final(self).consumed_phits@ == old(self).consumed_phits@.remove(message_key),
            !completed ==> final(self).consumed_phits@ == old(self).consumed_phits@.insert(message_key, old(self).consumed_count(message_key) as usize),
            final(self).statistics.consumed_phits == old(self).statistics.consumed_phits + 1,
            final(statistics).consumed_phits == old(statistics).consumed_phits + 1,
            final(self).statistics.consumed_messages == old(self).statistics.consumed_messages + if completed { 1int } else { 0 },
            final(statistics).consumed_messages == old(statistics).consumed_messages + if completed { 1int } else { 0 },
            final(self).statistics.total_message_delay == old(self).statistics.total_message_delay
                + if completed { cycle - phit.packet.message.creation_cycle } else { 0 },
            final(statistics).total_message_delay == old(statistics).total_message_delay
                + if completed { cycle - phit.packet.message.creation_cycle } else { 0 },
            final(self).statistics.created_phits == old(self).statistics.created_phits,
            final(statistics).created_phits == old(statistics).created_phits,
            final(statistics).begin_cycle == old(statistics).begin_cycle,
            final(statistics).link_statistics@ == old(statistics).link_statistics@,
            final(statistics).columns@ == old(statistics).columns@,
            phit.index == phit.packet.size - 1 ==> {
                let hops = phit.packet.routing_info.hops;
                &&& final(statistics).consumed_packets == old(statistics).consumed_packets + 1
                &&& final(statistics).total_packet_hops == old(statistics).total_packet_hops + hops
                &&& final(statistics).total_packet_per_hop_count@ == grow_to(old(statistics).total_packet_per_hop_count@, hops as int + 1).update(
                    hops as int, (grow_to(old(statistics).total_packet_per_hop_count@, hops as int + 1)[hops as int] + 1) as usize)
            },
            phit.index != phit.packet.size - 1 ==> {
                &&& final(statistics).consumed_packets == old(statistics).consumed_packets
                &&& final(statistics).total_packet_hops == old(statistics).total_packet_hops
                &&& final(statistics).total_packet_per_hop_count@ == old(statistics).total_packet_per_hop_count@
            },
            final(self).index == old(self).index,
            final(self).port == old(self).port,
            final(self).router_status == old(self).router_status,
            final(self).stored_messages@ == old(self).stored_messages@,
            final(self).stored_packets@ == old(self).stored_packets@,
            final(self).stored_phits@ == old(self).stored_phits@,
    {
        self.statistics.consumed_phits = self.statistics.consumed_phits + 1;
        statistics.consumed_phits = statistics.consumed_phits + 1;
        let message = &phit.packet.message;
        let cp: usize = match self.consumed_phits.get(&message_key) {
            None => 1,
            Some(x) => *x + 1,
        };
        let completed = cp == message.size;
        if completed {
            let delay = cycle - message.creation_cycle;
            self.statistics.consumed_messages = self.statistics.consumed_messages + 1;
            statistics.consumed_messages = statistics.consumed_messages + 1;
            self.statistics.total_message_delay = self.statistics.total_message_delay + delay;
            statistics.total_message_delay = statistics.total_message_delay + delay;
            self.consumed_phits.remove(&message_key);
        } else {
            self.consumed_phits.insert(message_key, cp);
        }
        if phit.is_end() {
            statistics.consumed_packets = statistics.consumed_packets + 1;
            let hops = phit.packet.routing_info.hops;
            statistics.total_packet_hops = statistics.total_packet_hops + hops;
            count_packet_hops(&mut statistics.total_packet_per_hop_count, hops);
        }
        completed
    }

    ///What the server sends this cycle: it breaks its next message into packets and its next packet into phits when it has none left, and
    ///hands out its next phit when the router status allows it, counting it as created.
    pub fn send_phit(&mut self, maximum_packet_size: usize, statistics: &mut Statistics, cycle: usize) -> (sent: Option<Rc<Phit>>)
        requires
            maximum_packet_size > 0,
            old(self).statistics.created_phits < usize::MAX,
            old(statistics).created_phits < usize::MAX,
            old(self).sendable_phit_has_room(maximum_packet_size),
        ensures
            final(self).after_refill(*old(self), maximum_packet_size),
            final(self).index == old(self).index,
            final(self).port == old(self).port,
            final(self).consumed_phits@ == old(self).consumed_phits@,
            final(self).statistics.consumed_phits == old(self).statistics.consumed_phits,
            final(self).statistics.consumed_messages == old(self).statistics.consumed_messages,
            final(self).statistics.total_message_delay == old(self).statistics.total_message_delay,
            final(statistics).consumed_phits == old(statistics).consumed_phits,
            final(statistics).link_statistics@ == old(statistics).link_statistics@,
            match sent {
                Some(phit) => {
                    &&& refilled_phits(*old(self), maximum_packet_size as nat).len() > 0
                    &&& phit == refilled_phits(*old(self), maximum_packet_size as nat)[0]
                    &&& old(self).router_status.available_size > 0
                    &&& (phit.index != 0 || old(self).router_status.available_size >= old(self).router_status.size_to_send)
                    &&& final(self).stored_phits@ == refilled_phits(*old(self), maximum_packet_size as nat).drop_first()
                    &&& final(self).router_status.available_size == old(self).router_status.available_size - 1
                    &&& final(self).router_status.size_to_send == old(self).router_status.size_to_send
                    &&& final(self).statistics.created_phits == old(self).statistics.created_phits + 1
                    &&& final(statistics).created_phits == old(statistics).created_phits + 1
                },
                None => {
                    &&& (refilled_phits(*old(self), maximum_packet_size as nat).len() == 0 || {
                        let phit = refilled_phits(*old(self), maximum_packet_size as nat)[0];
                        phit.index == 0 && old(self).router_status.available_size < old(self).router_status.size_to_send
                    })
                    &&& final(self).stored_phits@ == refilled_phits(*old(self), maximum_packet_size as nat)
                    &&& final(self).router_status == old(self).router_status
                    &&& final(self).statistics.created_phits == old(self).statistics.created_phits
                    &&& final(statistics).created_phits == old(statistics).created_phits
                },
            },
    {
        if self.stored_packets.len() == 0 && self.stored_messages.len() > 0 {
            let message = self.stored_messages.pop_front().unwrap();
            let packets = packetize(&message, maximum_packet_size);
            extend_queue(&mut self.stored_packets, &packets);
        }
        if self.stored_phits.len() == 0 && self.stored_packets.len() > 0 {
            let packet = self.stored_packets.pop_front().unwrap();
            let phits = phits_of(&packet);
            extend_queue(&mut self.stored_phits, &phits);
        }
        if self.stored_phits.len() > 0 {
            let front = &self.stored_phits[0];
            if self.router_status.can_transmit(front, 0) {
                let phit = self.stored_phits.pop_front().unwrap();
                self.statistics.created_phits = self.statistics.created_phits + 1;
                statistics.created_phits = statistics.created_phits + 1;
                self.router_status.notify_outcoming_phit(0, cycle);
                return Some(phit);
            }
        }
        None
    }
}

///The messages left after a refill: the next one is broken into packets when there are none.
pub open spec fn refilled_messages(s: Server) -> Seq<Rc<Message>> {
    if s.stored_packets@.len() == 0 && s.stored_messages@.len() > 0 { s.stored_messages@.drop_first() } else { s.stored_messages@ }
}

///The packets once the next message is broken into packets, if there were none.
pub open spec fn packets_with_message(s: Server, maximum: nat) -> Seq<Rc<Packet>> {
    if s.stored_packets@.len() == 0 && s.stored_messages@.len() > 0 {
        packets_of(s.stored_messages@[0], maximum)
    } else {
        s.stored_packets@
    }
}

///The phits after a refill: the next packet is broken into phits when there are none.
pub open spec fn refilled_phits(s: Server, maximum: nat) -> Seq<Rc<Phit>> {
    let packets = packets_with_message(s, maximum);
    if s.stored_phits@.len() == 0 && packets.len() > 0 { phits_of_packet(packets[0]) } else { s.stored_phits@ }
}

///The packets left after a refill.
pub open spec fn refilled_packets(s: Server, maximum: nat) -> Seq<Rc<Packet>> {
    let packets = packets_with_message(s, maximum);
    if s.stored_phits@.len() == 0 && packets.len() > 0 { packets.drop_first() } else { packets }
}

impl Server {
    ///The queues of messages and packets are those a refill of `old` leaves.
    pub open spec fn after_refill(&self, old: Server, maximum: usize) -> bool {
        &&& self.stored_messages@ == refilled_messages(old)
        &&& self.stored_packets@ == refilled_packets(old, maximum as nat)
    }

    ///When the router status lets the next phit go, it has room for it.
    pub open spec fn sendable_phit_has_room(&self, maximum: usize) -> bool {
        let phits = refilled_phits(*self, maximum as nat);
        phits.len() > 0 && (phits[0].index != 0 || self.router_status.available_size >= self.router_status.size_to_send)
            ==> self.router_status.available_size > 0
    }
}

///Counts one more packet that made `hops` hops, growing the counts with zeros as needed.
fn count_packet_hops(counts: &mut Vec<usize>, hops: usize)
    requires
        hops < usize::MAX,
        hops < old(counts)@.len() ==> old(counts)@[hops as int] < usize::MAX,
    ensures
        final(counts)@ == grow_to(old(counts)@, hops as int + 1).update(
            hops as int, (grow_to(old(counts)@, hops as int + 1)[hops as int] + 1) as usize),
{
    let ghost before = counts@;
    while counts.len() <= hops
        invariant
            hops < usize::MAX,
            before.len() <= counts@.len(),
            counts@.len() <= hops + 1 || counts@ == before,
            counts@ == grow_to(before, counts@.len() as int),
        decreases hops + 1 - counts@.len(),
    {
        counts.push(0);
        proof {
            assert(counts@ =~= grow_to(before, counts@.len() as int));
        }
    }
    proof {
        assert(grow_to(before, counts@.len() as int) =~= grow_to(before, hops as int + 1)) by {
            if before.len() <= hops {
                assert(counts@.len() == hops + 1);
            }
        }
    }
    let count = counts[hops];
    counts.set(hops, count + 1);
}

///Appends some shared values to a queue, in order.
fn extend_queue<T>(queue: &mut VecDeque<Rc<T>>, items: &Vec<Rc<T>>)
    ensures
        final(queue)@ == old(queue)@ + items@,
{
    let mut i: usize = 0;
    while i < items.len()
        invariant
            i <= items@.len(),
            queue@ == old(queue)@ + items@.take(i as int),
        decreases items@.len() - i,
    {
        queue.push_back(rc_clone(&items[i]));
        proof {
            assert(old(queue)@ + items@.take(i + 1) =~= old(queue)@ + items@.take(i as int) + seq![items@[i as int]]);
        }
        i = i + 1;
    }
    proof {
        assert(items@.take(items@.len() as int) == items@);
    }
}

///A sequence extended with zeros up to length `n`.
pub open spec fn grow_to(s: Seq<usize>, n: int) -> Seq<usize> {
    if s.len() >= n { s } else { s + Seq::new((n - s.len()) as nat, |i: int| 0usize) }
}

} // verus!
