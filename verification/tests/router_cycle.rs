use std::rc::Rc;

use caminos_lib::event::{CyclePosition, Event};
use caminos_lib::network::{packetize, phits_of};
use caminos_lib::rng::rng_from_seed;
use caminos_lib::router::basic::{choice_from_candidates, Basic, BufferSizes, OutputArbiter};
use caminos_lib::router::{Buffer, SpaceAtReceptor};
use caminos_lib::topology::{Location, TopologyTable};
use caminos_lib::Message;
use caminos_lib::policies::{LowestSinghWeight, Random, VirtualChannelPolicy, WideHops};
use caminos_lib::experiments::{
    action_draws, experiment_step, job_is_full, slurm_job_pack_size, split_words, Action, ActionTally, ExperimentState,
    ExperimentStep,
};

/// One router whose port 0 leads to server 0 and port 1 to server 1.
fn two_server_router() -> TopologyTable {
    TopologyTable {
        neighbours: vec![vec![(Location::ServerPort(0), 0), (Location::ServerPort(1), 1)]],
        distances: vec![vec![0]],
        servers: vec![
            (Location::RouterPort { router_index: 0, router_port: 0 }, 0),
            (Location::RouterPort { router_index: 0, router_port: 1 }, 1),
        ],
        up_down: None,
    }
}

fn sizes() -> BufferSizes {
    BufferSizes { output_buffer_size: 0, flit_size: 1, maximum_packet_size: 4 }
}

fn new_router(token: bool) -> Basic {
    let mut router = Basic::new(0, &vec![true, true], vec![], 1, 8, sizes(), false, true, false, true);
    if !token {
        router.output_arbiter = OutputArbiter::Random;
    }
    router
}

#[test]
fn new_router_is_empty_with_full_credits() {
    let router = Basic::new(3, &vec![true, false], vec![], 2, 8, sizes(), false, false, false, false);
    assert_eq!(router.router_index, 3);
    assert_eq!(router.transmission_port_status[0].neighbour_credits, vec![usize::MAX, usize::MAX]);
    assert_eq!(router.transmission_port_status[1].neighbour_credits, vec![8, 8]);
    assert!(router.selected_input.iter().all(|row| row.iter().all(|s| s.is_none())));
    assert_eq!(router.time_at_input_head, vec![vec![0, 0], vec![0, 0]]);
    assert!(router.last_process_at_cycle.is_none());
    assert!(!router.has_undecided());
    assert_eq!(router.busy_ports(), vec![false, false]);
}

#[test]
fn router_moves_a_packet_one_phit_per_cycle() {
    let topology = two_server_router();
    let mut rng = rng_from_seed(7);
    let mut router = new_router(true);
    let m = Rc::new(Message { origin: 0, destination: 1, size: 2, creation_cycle: 0 });
    let packets = packetize(&m, 4);
    assert_eq!(packets.len(), 1);
    for phit in phits_of(&packets[0]) {
        let p = caminos_lib::Phit { packet: packets[0].clone(), index: phit.index, virtual_channel: None };
        router.reception_port_space[0].insert(p, 5, &mut rng).unwrap();
    }
    assert!(router.has_undecided());
    let choices = vec![vec![Some((1, 0, 0))], vec![None]];
    let direction_change = vec![vec![false, false], vec![false, false]];
    let link_delays = vec![2, 3];
    let front = router.reception_port_space[0].front_virtual_channel(0).unwrap();
    let busy = router.busy_ports();
    let marked = router.mark_candidates(0, &front, vec![caminos_lib::routing::CandidateEgress::new(1, 0)], &busy, &direction_change);
    assert_eq!(marked.len(), 1);
    assert_eq!(marked[0].router_allows, Some(true));

    let events = router.process(10, &choices, &topology, &direction_change, &link_delays, 4, &mut rng);
    assert_eq!(events.len(), 3);
    match &events[0].event {
        Event::Acknowledge { location, message } => {
            assert_eq!(*location, Location::ServerPort(0));
            assert_eq!(message.virtual_channel, Some(0));
            assert_eq!(events[0].delay, 2);
        },
        _ => panic!("expected an acknowledgement"),
    }
    match &events[1].event {
        Event::PhitToLocation { phit, previous, new } => {
            assert_eq!(phit.index, 0);
            assert_eq!(phit.virtual_channel, Some(0));
            assert_eq!(*previous, Location::RouterPort { router_index: 0, router_port: 0 });
            assert_eq!(*new, Location::ServerPort(1));
            assert_eq!(events[1].delay, 3);
        },
        _ => panic!("expected a phit"),
    }
    match &events[2].event {
        Event::Generic(index) => {
            assert_eq!(*index, 4);
            assert_eq!(events[2].delay, 1);
            assert_eq!(events[2].position, CyclePosition::End);
        },
        _ => panic!("expected the router to be processed again"),
    }
    assert_eq!(router.last_process_at_cycle, Some(10));
    assert_eq!(router.transmission_port_status[1].neighbour_credits, vec![usize::MAX - 1]);
    assert_eq!(router.transmission_port_status[1].last_transmission, 10);
    assert!(router.selected_output[0][0].is_some());

    // The second phit follows the selected output, whatever is chosen now.
    let events = router.process(11, &vec![vec![None], vec![None]], &topology, &direction_change, &link_delays, 4, &mut rng);
    assert_eq!(events.len(), 3);
    match &events[1].event {
        Event::PhitToLocation { phit, .. } => assert_eq!(phit.index, 1),
        _ => panic!("expected a phit"),
    }
    assert!(router.selected_input[1][0].is_none());
    assert!(router.selected_output[0][0].is_none());
    match &router.output_arbiter {
        OutputArbiter::Token { port_token } => assert_eq!(port_token, &vec![0, 0]),
        _ => panic!("expected tokens"),
    }

    // Nothing is left to do.
    let events = router.process(12, &vec![vec![None], vec![None]], &topology, &direction_change, &link_delays, 4, &mut rng);
    assert!(events.is_empty());
}

#[test]
fn router_without_choice_keeps_waiting() {
    let topology = two_server_router();
    let mut rng = rng_from_seed(1);
    let mut router = new_router(false);
    let m = Rc::new(Message { origin: 0, destination: 1, size: 1, creation_cycle: 0 });
    let packets = packetize(&m, 4);
    let p = caminos_lib::Phit { packet: packets[0].clone(), index: 0, virtual_channel: None };
    router.insert(p, 0, 1, &mut rng);
    let direction_change = vec![vec![false, false], vec![false, false]];
    let events = router.process(1, &vec![vec![None], vec![None]], &topology, &direction_change, &vec![1, 1], 0, &mut rng);
    // No phit moves, but the router has an undecided phit and asks to be processed again.
    assert_eq!(events.len(), 1);
    assert_eq!(router.time_at_input_head[0][0], 0);
}

#[test]
fn buffer_hands_out_phits_in_push_order() {
    let m = Rc::new(Message { origin: 0, destination: 1, size: 3, creation_cycle: 0 });
    let packets = packetize(&m, 3);
    let phits = phits_of(&packets[0]);
    let mut buffer = Buffer::new();
    for phit in phits.iter() {
        buffer.push(phit.clone());
    }
    for i in 0..3 {
        assert_eq!(buffer.pop().unwrap().index, i);
    }
    assert!(buffer.pop().is_none());
}

#[test]
fn experiments_are_sorted_by_what_the_action_does() {
    let waiting = ExperimentState { has_file: false, has_content: false, is_packed: false, is_merged: false, on_slurm: false };
    let done = ExperimentState { has_content: true, has_file: true, ..waiting };
    let queued = ExperimentState { on_slurm: true, ..waiting };
    assert_eq!(experiment_step(Action::Local, waiting), ExperimentStep::Simulate);
    assert_eq!(experiment_step(Action::LocalAndOutput, done), ExperimentStep::Completed);
    assert_eq!(experiment_step(Action::Slurm, waiting), ExperimentStep::AddToJob);
    assert_eq!(experiment_step(Action::Slurm, queued), ExperimentStep::Skip);
    assert_eq!(experiment_step(Action::Pull, waiting), ExperimentStep::Pull);
    assert_eq!(experiment_step(Action::Check, waiting), ExperimentStep::Check);
    assert_eq!(experiment_step(Action::Output, waiting), ExperimentStep::Skip);
}

#[test]
fn slurm_jobs_are_packed_to_fit_the_maximum() {
    assert_eq!(slurm_job_pack_size(10, Some(3), None), 4);
    assert_eq!(slurm_job_pack_size(10, None, Some(5)), 5);
    assert_eq!(slurm_job_pack_size(10, None, None), 1);
    assert_eq!(slurm_job_pack_size(2, Some(3), Some(7)), 7);
    assert!(job_is_full(4, 4));
    assert!(!job_is_full(3, 4));
    assert!(action_draws(Action::Output));
    assert!(!action_draws(Action::Slurm));
    let mut tally = ActionTally::new();
    let state = ExperimentState { has_file: true, has_content: false, is_packed: false, is_merged: false, on_slurm: false };
    tally.count(state);
    tally.count(ExperimentState { has_file: false, ..state });
    tally.count(ExperimentState { has_content: true, ..state });
    assert_eq!((tally.completed, tally.inactive, tally.active), (1, 1, 1));
}

#[test]
fn words_split_at_unicode_white_space() {
    assert_eq!(split_words("a\u{3000}b\u{a0}c\u{2009}d\u{85}e"), vec!["a", "b", "c", "d", "e"]);
    assert_eq!(split_words("x\u{200b}y"), vec!["x\u{200b}y"]);
}

#[test]
fn a_single_candidate_becomes_the_choice() {
    let mut c = caminos_lib::routing::CandidateEgress::new(2, 1);
    c.label = -3;
    assert_eq!(choice_from_candidates(&vec![c]), Some((2, 1, -3)));
    assert_eq!(choice_from_candidates(&vec![]), None);
}

#[test]
fn acknowledgements_give_back_credits() {
    let mut router = Basic::new(0, &vec![false, true], vec![], 2, 8, sizes(), false, false, false, false);
    router.transmission_port_status[0].neighbour_credits[1] = 5;
    router.acknowledge(0, caminos_lib::router::AcknowledgeMessage::ack_phit_clear_from_virtual_channel(1));
    assert_eq!(router.transmission_port_status[0].neighbour_credits, vec![8, 6]);
}

#[test]
fn readme_router_is_built_with_its_sizes_and_policies() {
    let policies = vec![
        VirtualChannelPolicy::WideHops(WideHops::new(1)),
        VirtualChannelPolicy::LowestSinghWeight(LowestSinghWeight::new(0, 0, true, true, false, false)),
        VirtualChannelPolicy::Random(Random::new()),
    ];
    let sizes = BufferSizes { output_buffer_size: 32, flit_size: 16, maximum_packet_size: 16 };
    let router = Basic::new(5, &vec![false, false, true], policies, 6, 64, sizes, false, false, true, false);
    assert_eq!(router.router_index, 5);
    assert_eq!(router.buffer_size, 64);
    assert_eq!(router.sizes.flit_size, 16);
    assert_eq!(router.sizes.output_buffer_size, 32);
    assert_eq!(router.virtual_channel_policies.len(), 3);
    assert!(matches!(router.virtual_channel_policies[0], VirtualChannelPolicy::WideHops(_)));
    assert!(matches!(router.virtual_channel_policies[2], VirtualChannelPolicy::Random(_)));
    assert_eq!(router.output_buffers.len(), 3);
    assert!(router.output_buffers.iter().all(|row| row.len() == 6 && row.iter().all(|b| b.len() == 0)));
    assert_eq!(router.transmission_port_status[0].neighbour_credits, vec![64; 6]);
    assert!(router.allow_request_busy_port);
}

#[test]
fn router_with_output_buffers_moves_then_sends() {
    let topology = two_server_router();
    let mut rng = rng_from_seed(3);
    let sizes = BufferSizes { output_buffer_size: 4, flit_size: 1, maximum_packet_size: 4 };
    let mut router = Basic::new(0, &vec![true, true], vec![], 1, 8, sizes, false, false, false, false);
    let m = Rc::new(Message { origin: 0, destination: 1, size: 2, creation_cycle: 0 });
    let packets = packetize(&m, 4);
    for index in 0..2 {
        let p = caminos_lib::Phit { packet: packets[0].clone(), index, virtual_channel: None };
        router.insert(p, 0, 9, &mut rng);
    }
    let choices = vec![vec![Some((1, 0, 0))], vec![None]];
    let direction_change = vec![vec![false, false], vec![false, false]];
    let link_delays = vec![2, 3];
    let events = router.process(1, &choices, &topology, &direction_change, &link_delays, 0, &mut rng);
    // The acknowledgement of the move into the output buffer, the phit sent from it, and the repeat event.
    assert_eq!(events.len(), 3);
    assert!(matches!(events[0].event, Event::Acknowledge { .. }));
    match &events[1].event {
        Event::PhitToLocation { phit, previous, new } => {
            assert_eq!(phit.index, 0);
            assert_eq!(phit.virtual_channel, Some(0));
            assert_eq!(*previous, Location::RouterPort { router_index: 0, router_port: 0 });
            assert_eq!(*new, Location::ServerPort(1));
        },
        _ => panic!("expected a phit"),
    }
    assert_eq!(router.output_buffers[1][0].len(), 0);
    let events = router.process(2, &vec![vec![None], vec![None]], &topology, &direction_change, &link_delays, 0, &mut rng);
    assert_eq!(events.len(), 3);
    match &events[1].event {
        Event::PhitToLocation { phit, .. } => assert_eq!(phit.index, 1),
        _ => panic!("expected a phit"),
    }
    assert!(router.selected_input[1][0].is_none());
}

#[test]
fn simulation_starts_with_a_router_per_router_and_a_server_per_server() {
    let topology = two_server_router();
    let sim = caminos_lib::simulation::Simulation::new(
        topology, vec![1, 1], 4, 2, 8, sizes(), false, false, false, false, vec![vec![]],
    );
    assert_eq!(sim.cycle, 0);
    assert_eq!(sim.routers.len(), 1);
    assert_eq!(sim.routers[0].router_index, 0);
    assert_eq!(sim.routers[0].transmission_port_status[0].neighbour_credits, vec![usize::MAX, usize::MAX]);
    assert_eq!(sim.servers.len(), 2);
    assert_eq!(sim.servers[1].router_status.available_size, 16);
    assert_eq!(sim.servers[1].router_status.size_to_send, 4);
    assert_eq!(sim.statistics.created_phits, 0);
    assert!(sim.event_queue.access_begin(0).is_none());
}

#[test]
fn a_server_sends_its_first_phit_towards_its_router() {
    let topology = two_server_router();
    let mut sim = caminos_lib::simulation::Simulation::new(
        topology, vec![2, 3], 4, 1, 8, sizes(), false, false, false, false, vec![vec![]],
    );
    let m = Rc::new(Message { origin: 0, destination: 1, size: 2, creation_cycle: 0 });
    sim.store_generated(0, Some(m));
    assert_eq!(sim.servers[0].stored_messages.len(), 1);
    let sent = sim.send_from_server(0).unwrap();
    assert_eq!(sent.index, 0);
    assert_eq!(sim.statistics.created_phits, 1);
    assert_eq!(sim.servers[0].router_status.available_size, 7);
    sim.finish_cycle();
    sim.finish_cycle();
    assert_eq!(sim.cycle, 2);
    match sim.event_queue.access_begin(0) {
        Some(Event::PhitToLocation { phit, previous, new }) => {
            assert_eq!(phit.index, 0);
            assert_eq!(*previous, Location::ServerPort(0));
            assert_eq!(*new, Location::RouterPort { router_index: 0, router_port: 0 });
        },
        _ => panic!("the phit should arrive after the link delay"),
    }
}
