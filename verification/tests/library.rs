use std::rc::Rc;

use caminos_lib::config::{vec_product, BinaryConfigWriter};

use caminos_lib::allocator::{GrantedRequests, Request};
use caminos_lib::allocator::islip::IslipAllocator;
use caminos_lib::allocator::random::{allocate_in_order, RandomAllocator};
use caminos_lib::allocator::random_priority::{sort_by_priority, RandomPriorityAllocator};
use caminos_lib::event::{CyclePosition, EventGeneration, EventQueue};
use caminos_lib::experiments::{job_id_from_output, parse_usize, split_words, Action, Job};
use caminos_lib::network::{packetize, phits_of};
use caminos_lib::output::{latex_make_command_name, latex_protect_text};
use caminos_lib::pattern::{
    Composition, FileMap, Pattern, Pow, ProductPattern, RandomInvolution, RandomPermutation, UniformPattern,
};
use caminos_lib::policies::{
    EnforceFlowControl, Hops, Identity, LabelSaturate, LabelTransform, LowestLabel, NegateLabel, Random, RequestInfo,
    RouterView, ShiftEntryVC, Shortest as ShortestPolicy, VecLabel, WideHops,
};
use caminos_lib::rng::rng_from_seed;
use caminos_lib::router::basic::{advance_token, split_by_label, token_select, PortRequest};
use caminos_lib::router::{AcknowledgeMessage, Buffer, CreditCounterVector, StatusAtEmissor, StatusAtServer};
use caminos_lib::routing::{CandidateEgress, ChannelsPerHop, Mindless, RoutingInfo, Shortest, UpDown};
use caminos_lib::text::decimal_string;
use caminos_lib::topology::{Location, TopologyTable};
use caminos_lib::{
    LinkClass, LinkStatistics, Message, Packet, Phit, ReportColumn, ReportColumnKind, Server, ServerStatistics, Statistics,
};

fn message(size: usize) -> Rc<Message> {
    Rc::new(Message { origin: 0, destination: 1, size, creation_cycle: 3 })
}

fn packet(size: usize) -> Rc<Packet> {
    Rc::new(Packet { size, routing_info: RoutingInfo::new(), message: message(size), index: 0 })
}

fn candidate(port: usize, vc: usize, label: i32) -> CandidateEgress {
    let mut c = CandidateEgress::new(port, vc);
    c.label = label;
    c
}

fn info() -> RequestInfo {
    RequestInfo {
        target_router_index: 2,
        entry_port: 0,
        entry_virtual_channel: 1,
        performed_hops: 1,
        server_ports: Some(vec![3]),
        port_last_transmission: None,
        port_occupied_output_space: None,
        port_available_output_space: None,
        virtual_channel_occupied_output_space: None,
        virtual_channel_available_output_space: None,
        time_at_front: None,
        current_cycle: 0,
    }
}

/// A line of three routers 0-1-2, each with one server; ports: 0 to the left router, 1 to the right router, 2 to the server.
fn line_topology() -> TopologyTable {
    let neighbours = vec![
        vec![(Location::Unconnected, 0), (Location::RouterPort { router_index: 1, router_port: 0 }, 0), (Location::ServerPort(0), 1)],
        vec![
            (Location::RouterPort { router_index: 0, router_port: 1 }, 0),
            (Location::RouterPort { router_index: 2, router_port: 0 }, 0),
            (Location::ServerPort(1), 1),
        ],
        vec![(Location::RouterPort { router_index: 1, router_port: 1 }, 0), (Location::Unconnected, 0), (Location::ServerPort(2), 1)],
    ];
    let distances = vec![vec![0, 1, 2], vec![1, 0, 1], vec![2, 1, 0]];
    let servers = vec![
        (Location::RouterPort { router_index: 0, router_port: 2 }, 1),
        (Location::RouterPort { router_index: 1, router_port: 2 }, 1),
        (Location::RouterPort { router_index: 2, router_port: 2 }, 1),
    ];
    let up_down = Some(vec![
        vec![Some((0, 0)), Some((0, 1)), Some((0, 2))],
        vec![Some((1, 0)), Some((0, 0)), Some((0, 1))],
        vec![Some((2, 0)), Some((1, 0)), Some((0, 0))],
    ]);
    TopologyTable { neighbours, distances, servers, up_down }
}

#[test]
fn request_to_port_request_splits_indices() {
    let r = Request::new(7, 5, Some(2));
    let p = r.to_port_request(3);
    assert_eq!((p.entry_port, p.entry_vc, p.requested_port, p.requested_vc, p.label), (2, 1, 1, 2, 2));
    let q = Request::new(1, 1, None).to_port_request(2);
    assert_eq!(q.label, -1);
}

#[test]
fn granted_requests_are_given_in_order() {
    let mut g = GrantedRequests::new();
    g.add_granted_request(Request::new(0, 1, None));
    g.add_granted_request(Request::new(1, 0, None));
    assert_eq!(g.len(), 2);
    assert_eq!(g.next(), Some(Request::new(0, 1, None)));
    assert_eq!(g.next(), Some(Request::new(1, 0, None)));
    assert_eq!(g.next(), None);
}

#[test]
fn greedy_allocation_gives_a_matching() {
    let requests = vec![Request::new(0, 0, None), Request::new(0, 1, None), Request::new(1, 0, None), Request::new(1, 1, None)];
    let granted = allocate_in_order(&requests, 2, 2).to_vec();
    assert_eq!(granted, vec![Request::new(0, 0, None), Request::new(1, 1, None)]);
}

#[test]
fn random_allocator_grants_each_client_and_resource_once() {
    let mut allocator = RandomAllocator::new(3, 3, Some(5));
    let mut rng = rng_from_seed(11);
    for c in 0..3 {
        for r in 0..3 {
            let request = Request::new(c, r, None);
            assert!(allocator.is_valid_request(&request));
            allocator.add_request(request);
        }
    }
    let granted = allocator.perform_allocation(&mut rng).to_vec();
    assert_eq!(granted.len(), 3);
    for a in 0..granted.len() {
        for b in 0..granted.len() {
            if a != b {
                assert_ne!(granted[a].client, granted[b].client);
                assert_ne!(granted[a].resource, granted[b].resource);
            }
        }
    }
    assert!(!allocator.is_valid_request(&Request::new(3, 0, None)));
}

#[test]
fn random_priority_allocator_prefers_low_priority() {
    let sorted = sort_by_priority(&vec![Request::new(0, 0, Some(3)), Request::new(1, 0, Some(1)), Request::new(2, 0, Some(2))]);
    assert_eq!(sorted.iter().map(|r| r.priority).collect::<Vec<_>>(), vec![Some(1), Some(2), Some(3)]);
    let mut allocator = RandomPriorityAllocator::new(3, 1, Some(1));
    let mut rng = rng_from_seed(2);
    allocator.add_request(Request::new(0, 0, Some(3)));
    allocator.add_request(Request::new(1, 0, Some(0)));
    allocator.add_request(Request::new(2, 0, Some(2)));
    let granted = allocator.perform_allocation(&mut rng).to_vec();
    assert_eq!(granted, vec![Request::new(1, 0, Some(0))]);
}

#[test]
fn islip_grants_a_matching_and_clears_requests() {
    let mut allocator = IslipAllocator::new(2, 2, Some(2));
    allocator.add_request(Request::new(0, 0, None));
    allocator.add_request(Request::new(1, 0, None));
    allocator.add_request(Request::new(1, 1, None));
    let granted = allocator.perform_allocation().to_vec();
    assert_eq!(granted.len(), 2);
    assert_ne!(granted[0].resource, granted[1].resource);
    assert_ne!(granted[0].client, granted[1].client);
    assert_eq!(allocator.perform_allocation().len(), 0);
}

#[test]
fn event_arrives_after_its_delay() {
    let mut queue: EventQueue<u32> = EventQueue::new(4);
    queue.enqueue(EventGeneration { delay: 2, position: CyclePosition::Begin, event: 7 });
    queue.enqueue(EventGeneration { delay: 0, position: CyclePosition::End, event: 9 });
    assert_eq!(queue.access_begin(0), None);
    assert_eq!(queue.access_end(0), Some(&9));
    queue.advance();
    assert_eq!(queue.access_begin(0), None);
    assert_eq!(queue.access_end(0), None);
    queue.advance();
    assert_eq!(queue.access_begin(0), Some(&7));
    assert_eq!(queue.access_begin(1), None);
}

#[test]
fn event_queue_wraps_around() {
    let mut queue: EventQueue<u32> = EventQueue::new(2);
    queue.advance();
    queue.enqueue_begin(1, 1);
    queue.advance();
    assert_eq!(queue.access_begin(0), Some(&1));
}

#[test]
fn messages_are_split_into_packets() {
    let m = message(10);
    let packets = packetize(&m, 4);
    assert_eq!(packets.iter().map(|p| p.size).collect::<Vec<_>>(), vec![4, 4, 2]);
    assert_eq!(packets.iter().map(|p| p.index).collect::<Vec<_>>(), vec![0, 1, 2]);
    assert!(packets.iter().all(|p| p.routing_info.hops == 0));
    assert!(packetize(&message(0), 4).is_empty());
    let phits = phits_of(&packets[2]);
    assert_eq!(phits.len(), 2);
    assert!(phits[0].is_begin() && !phits[0].is_end());
    assert!(phits[1].is_end());
}

#[test]
fn server_sends_and_consumes() {
    let topology = line_topology();
    let mut statistics = Statistics::new(&topology);
    let status = StatusAtServer { available_size: 5, size_to_send: 2 };
    let mut server = Server::new(0, (Location::RouterPort { router_index: 0, router_port: 2 }, 1), status);
    assert!(server.has_room_for_message());
    server.store_message(message(3));
    let first = server.send_phit(2, &mut statistics, 0).expect("a phit");
    assert!(first.is_begin());
    assert_eq!(first.packet.size, 2);
    assert_eq!(statistics.created_phits, 1);
    assert_eq!(server.router_status.available_size, 4);
    assert_eq!(server.stored_packets.len(), 1);
    assert_eq!(server.stored_phits.len(), 1);

    let m = message(2);
    let p = Rc::new(Packet { size: 2, routing_info: RoutingInfo::new(), message: m.clone(), index: 0 });
    let mut receiver = Server::new(1, (Location::RouterPort { router_index: 1, router_port: 2 }, 1), status);
    let phit0 = Phit { packet: p.clone(), index: 0, virtual_channel: None };
    let phit1 = Phit { packet: p.clone(), index: 1, virtual_channel: None };
    assert!(!receiver.consume(&phit0, 77, &mut statistics, 10));
    assert!(receiver.consume(&phit1, 77, &mut statistics, 10));
    assert_eq!(statistics.consumed_phits, 2);
    assert_eq!(statistics.consumed_messages, 1);
    assert_eq!(statistics.total_message_delay, 7);
    assert_eq!(statistics.consumed_packets, 1);
    assert_eq!(statistics.total_packet_per_hop_count, vec![1]);
    assert_eq!(receiver.statistics.consumed_messages, 1);
    let mut servers = vec![receiver];
    statistics.reset(20, &mut servers);
    assert_eq!(statistics.begin_cycle, 20);
    assert_eq!(statistics.consumed_phits, 0);
    assert_eq!(servers[0].statistics.consumed_phits, 0);
}

#[test]
fn statistics_counters_start_at_zero() {
    let mut s = ServerStatistics::new();
    s.created_phits = 4;
    s.reset();
    assert_eq!(s.created_phits, 0);
    let mut l = LinkStatistics::new();
    l.phit_arrivals = 3;
    l.reset();
    assert_eq!(l.phit_arrivals, 0);
    assert_eq!(LinkClass::new(5).delay, 5);
    let topology = line_topology();
    let mut statistics = Statistics::new(&topology);
    assert_eq!(statistics.link_statistics.len(), 3);
    assert_eq!(statistics.link_statistics[1].len(), 3);
    statistics.record_link_arrival(1, 2);
    assert_eq!(statistics.link_statistics[1][2].phit_arrivals, 1);
}

#[test]
fn report_headers_are_padded_names() {
    assert_eq!(ReportColumnKind::InjectedLoad.name(), "injected_load");
    let column = ReportColumn::from_kind(ReportColumnKind::AcceptedLoad);
    assert_eq!(column.width, 14);
    assert_eq!(column.header(), "accepted_load ");
    let narrow = ReportColumn { kind: ReportColumnKind::AcceptedLoad, width: 3 };
    assert_eq!(narrow.header(), "accepted_load");
    let statistics = Statistics::new(&line_topology());
    assert!(statistics.header_line().starts_with("cycle_begin-cycle_end injected_load accepted_load "));
}

#[test]
fn uniform_pattern_never_picks_the_origin() {
    let mut pattern = Pattern::Uniform(UniformPattern::new());
    let mut rng = rng_from_seed(3);
    pattern.initialize(2, 2, &mut rng);
    for _ in 0..20 {
        assert_eq!(pattern.get_destination(0, &mut rng), 1);
        assert_eq!(pattern.get_destination(1, &mut rng), 0);
    }
}

#[test]
fn random_permutation_is_a_bijection() {
    let mut pattern = Pattern::RandomPermutation(RandomPermutation::new());
    let mut rng = rng_from_seed(8);
    pattern.initialize(10, 10, &mut rng);
    let mut seen = vec![false; 10];
    for i in 0..10 {
        let d = pattern.get_destination(i, &mut rng);
        assert!(!seen[d]);
        seen[d] = true;
    }
}

#[test]
fn random_involution_pairs_elements() {
    let mut pattern = Pattern::RandomInvolution(RandomInvolution::new());
    let mut rng = rng_from_seed(21);
    pattern.initialize(12, 12, &mut rng);
    for i in 0..12 {
        let d = pattern.get_destination(i, &mut rng);
        assert_ne!(d, i);
        assert_eq!(pattern.get_destination(d, &mut rng), i);
    }
}

#[test]
fn file_map_follows_pairs_and_fills_gaps() {
    let map = FileMap::new(vec![(0, 2), (3, 1), (0, 1)]);
    assert_eq!(map.permutation, vec![1, usize::MAX, usize::MAX, 1]);
}

#[test]
fn composed_patterns_apply_in_order() {
    let mut rng = rng_from_seed(0);
    let shift = || Pattern::FileMap(FileMap::new(vec![(0, 1), (1, 2), (2, 3), (3, 0)]));
    let composition = Pattern::Composition(Composition::new(vec![shift(), shift()]));
    assert_eq!(composition.get_destination(3, &mut rng), 1);
    let pow = Pattern::Pow(Pow::new(shift(), 3));
    assert_eq!(pow.get_destination(0, &mut rng), 3);
    let product = Pattern::Product(ProductPattern::new(2, Pattern::FileMap(FileMap::new(vec![(0, 1), (1, 0)])), shift()));
    assert_eq!(product.get_destination(5, &mut rng), 6);
}

#[test]
fn simple_policies_filter_candidates() {
    let cands = || vec![candidate(0, 0, 5), candidate(1, 1, -2), candidate(3, 0, 7), candidate(2, 1, -2)];
    assert_eq!(Identity::new().filter(cands()).len(), 4);
    let mut rng = rng_from_seed(1);
    let one = Random::new().filter(cands(), &mut rng);
    assert_eq!(one.len(), 1);
    let lowest = LowestLabel::new().filter(cands());
    assert_eq!(lowest.iter().map(|c| c.port).collect::<Vec<_>>(), vec![1, 2]);
    let hops = Hops::new().filter(cands(), &info());
    assert_eq!(hops.iter().map(|c| c.port).collect::<Vec<_>>(), vec![1, 3, 2]);
    let wide = WideHops::new(2).filter(cands(), &info());
    assert_eq!(wide.iter().map(|c| c.port).collect::<Vec<_>>(), vec![3]);
    let mut flow = cands();
    flow[0].router_allows = Some(false);
    flow[1].router_allows = Some(true);
    assert_eq!(EnforceFlowControl::new().filter(flow).len(), 3);
    let saturated = LabelSaturate::new(0, true).filter(cands());
    assert_eq!(saturated.iter().map(|c| c.label).collect::<Vec<_>>(), vec![5, 0, 7, 0]);
    let negated = NegateLabel::new().filter(cands());
    assert_eq!(negated.iter().map(|c| c.label).collect::<Vec<_>>(), vec![-5, 2, -7, 2]);
    let transform = LabelTransform::new(2, 1, None, Some(12), Some(0), None).filter(cands());
    assert_eq!(transform.iter().map(|c| (c.port, c.label)).collect::<Vec<_>>(), vec![(0, 11), (3, 12)]);
}

#[test]
fn shortest_policy_keeps_most_credits() {
    let router = RouterView { index: 0, available_space: vec![vec![3, 1], vec![0, 5], vec![5, 2], vec![0, 0]], maximum_credits: vec![vec![8, 8]; 4] };
    let kept = ShortestPolicy::new().filter(vec![candidate(0, 0, 0), candidate(1, 1, 0), candidate(2, 0, 0)], &router);
    assert_eq!(kept.iter().map(|c| c.port).collect::<Vec<_>>(), vec![1, 2]);
}

#[test]
fn policies_that_read_the_topology() {
    let topology = line_topology();
    let router = RouterView { index: 0, available_space: vec![vec![3, 1]; 3], maximum_credits: vec![vec![8, 8]; 3] };
    let labels = VecLabel::new(vec![10, 20, 30]).filter(vec![candidate(1, 0, 2), candidate(1, 1, 0)], &router, &info(), &topology);
    assert_eq!(labels.iter().map(|c| c.label).collect::<Vec<_>>(), vec![30, 10]);
    let shifted = ShiftEntryVC::new(vec![1]).filter(vec![candidate(1, 0, 0), candidate(1, 2, 0)], &router, &info(), &topology);
    assert_eq!(shifted.iter().map(|c| c.virtual_channel).collect::<Vec<_>>(), vec![2]);
}

#[test]
fn shortest_routing_goes_one_hop_closer() {
    let topology = line_topology();
    let towards_2 = Shortest::new().next(&topology, 0, 2, 2);
    assert_eq!(towards_2.iter().map(|c| (c.port, c.virtual_channel)).collect::<Vec<_>>(), vec![(1, 0), (1, 1)]);
    assert_eq!(towards_2[0].estimated_remaining_hops, Some(2));
    let at_target = Shortest::new().next(&topology, 1, 1, 2);
    assert_eq!(at_target.iter().map(|c| (c.port, c.virtual_channel)).collect::<Vec<_>>(), vec![(2, 0), (2, 1)]);
    let mindless = Mindless::new().next(&topology, 1, 0, 1);
    assert_eq!(mindless.iter().map(|c| c.port).collect::<Vec<_>>(), vec![0, 1]);
    let updown = UpDown::new().next(&topology, 1, 2, 1);
    assert_eq!(updown.iter().map(|c| c.port).collect::<Vec<_>>(), vec![1]);
}

#[test]
fn channels_per_hop_keeps_listed_channels() {
    let routing = ChannelsPerHop::new(vec![vec![0], vec![1, 2]]);
    let kept = routing.filter(1, vec![candidate(0, 0, 0), candidate(0, 1, 0), candidate(0, 2, 0)]);
    assert_eq!(kept.iter().map(|c| c.virtual_channel).collect::<Vec<_>>(), vec![1, 2]);
}

#[test]
fn buffers_keep_fifo_order() {
    let p = packet(2);
    let mut buffer = Buffer::new();
    buffer.push(Rc::new(Phit { packet: p.clone(), index: 0, virtual_channel: None }));
    buffer.push(Rc::new(Phit { packet: p.clone(), index: 1, virtual_channel: None }));
    assert_eq!(buffer.len(), 2);
    assert_eq!(buffer.front().unwrap().index, 0);
    assert_eq!(buffer.pop().unwrap().index, 0);
    assert_eq!(buffer.pop().unwrap().index, 1);
    assert!(buffer.pop().is_none());
}

#[test]
fn credits_follow_transmissions_and_acknowledgements() {
    let mut status = CreditCounterVector { neighbour_credits: vec![2, 0], last_transmission: 0, flit_size: 2 };
    let p = packet(3);
    let head = Rc::new(Phit { packet: p.clone(), index: 0, virtual_channel: None });
    assert!(status.can_transmit(&head, 0));
    assert!(!status.can_transmit(&head, 1));
    status.notify_outcoming_phit(0, 9);
    assert_eq!(status.neighbour_credits, vec![1, 0]);
    assert_eq!(status.get_last_transmission(), 9);
    status.acknowledge(AcknowledgeMessage::ack_phit_clear_from_virtual_channel(0));
    assert_eq!(status.neighbour_credits, vec![2, 0]);
}

#[test]
fn token_arbitration_goes_round() {
    assert_eq!(token_select(&vec![0, 2, 3], 1, 4), 2);
    assert_eq!(token_select(&vec![0, 1], 3, 4), 0);
    assert_eq!(advance_token(3, 4), 0);
    let request = |label: i32| PortRequest { packet: packet(1), entry_port: 0, entry_vc: 0, requested_port: 1, requested_vc: 0, label };
    let split = split_by_label(vec![request(2), request(0), request(2)]);
    assert_eq!(split.iter().map(|v| v.len()).collect::<Vec<_>>(), vec![1, 0, 2]);
}

#[test]
fn latex_texts() {
    assert_eq!(latex_protect_text("a_b%c"), "a\\_b\\%c");
    assert_eq!(latex_make_command_name("x_10:y!"), "xuRIRcyx");
}

#[test]
fn decimal_numerals() {
    assert_eq!(decimal_string(0), "0");
    assert_eq!(decimal_string(1203), "1203");
}

#[test]
fn actions_and_jobs() {
    assert_eq!(Action::from_name("pack"), Ok(Action::Pack));
    assert_eq!(Action::from_name("Pack"), Err(()));
    assert_eq!("remote_check".parse::<Action>(), Ok(Action::RemoteCheck));
    assert_eq!(Action::RemoteCheck.display_name(), "RemoteCheck");
    let mut job = Job::new();
    job.add_execution(4, "/bin/caminos", "runs/run4");
    job.add_execution(5, "/bin/caminos", "runs/run5");
    assert_eq!(job.len(), 2);
    assert_eq!(job.execution_code_vec[0], "echo execution 4\n/bin/date\n/bin/caminos runs/run4/local.cfg --results=runs/run4/local.result");
    let lines = job.job_lines();
    assert!(lines.ends_with("runs/run5/local.result\n/bin/date\necho job finished\n"));
    assert_eq!(job.journal_entry(3321, 4), "3321=4[4,5], ");
    let script = job.slurm_script("launch4", "0-24:00:00", Some("1000"), "body");
    assert!(script.starts_with("#!/bin/bash\n#SBATCH --job-name=CAMINOS\n"));
    assert!(script.contains("#SBATCH --time=0-24:00:00\n#SBATCH --mem=1000\n\nbody\n\n"));
}

#[test]
fn sbatch_output_gives_one_job_id() {
    assert_eq!(split_words("  Submitted batch\tjob 382683\n"), vec!["Submitted", "batch", "job", "382683"]);
    assert_eq!(parse_usize("+17"), Some(17));
    assert_eq!(parse_usize("1x"), None);
    assert_eq!(parse_usize("99999999999999999999999"), None);
    assert_eq!(job_id_from_output("Submitted batch job 382683"), Some(382683));
    assert_eq!(job_id_from_output("job 1 and 2"), None);
    assert_eq!(job_id_from_output("nothing"), None);
}

#[test]
fn binary_writer_stores_each_name_once() {
    let mut w = BinaryConfigWriter::new();
    let a = w.locate("ab");
    let b = w.locate("c");
    let again = w.locate("ab");
    assert_eq!(a, 0);
    assert_eq!(b, 6);
    assert_eq!(again, 0);
    assert_eq!(w.take_vector(), vec![2, 0, 0, 0, b'a', b'b', 1, 0, 0, 0, b'c']);
}

#[test]
fn vec_product_combines_every_pair() {
    let a = vec![vec![1, 2], vec![3]];
    let b = vec![7, 8];
    assert_eq!(vec_product(&a, &b), vec![vec![1, 2, 7], vec![1, 2, 8], vec![3, 7], vec![3, 8]]);
}
