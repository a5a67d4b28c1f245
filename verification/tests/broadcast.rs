use maelstrom::broadcast::{
    broadcast, read, replicate, replicate_message, topology, Broadcast, Read, Replicate, State,
    Topology,
};
use maelstrom::message::NodeId;
use maelstrom::node::init::Ids;

fn ids() -> Ids {
    Ids { id: "n1".into(), ids: vec!["n1".into(), "n2".into(), "n3".into()] }
}

#[test]
fn broadcast_values_are_read_back() {
    let mut state = State::new();
    let (_, sends) = broadcast(&mut state, &ids(), Broadcast { message: 7 });
    assert_eq!(sends.len(), 2);
    replicate(&mut state, Replicate { message: 8 });
    broadcast(&mut state, &ids(), Broadcast { message: 9 });
    assert_eq!(read(&state, Read {}).messages, vec![7, 8, 9]);
}

#[test]
fn repeated_values_are_read_once_in_ascending_order() {
    let mut state = State::new();
    replicate(&mut state, Replicate { message: 3 });
    replicate(&mut state, Replicate { message: 1 });
    replicate(&mut state, Replicate { message: 3 });
    assert_eq!(read(&state, Read {}).messages, vec![1, 3]);
}

#[test]
fn a_resent_replicate_leaves_the_state_unchanged() {
    let mut state = State::new();
    broadcast(&mut state, &ids(), Broadcast { message: 42 });
    replicate(&mut state, Replicate { message: 10 });
    let before = read(&state, Read {}).messages;
    replicate(&mut state, Replicate { message: 10 });
    replicate(&mut state, Replicate { message: 42 });
    assert_eq!(read(&state, Read {}).messages, before);
    assert_eq!(before, vec![10, 42]);
}

#[test]
fn reads_come_back_sorted_whatever_the_arrival_order() {
    let mut state = State::new();
    for m in [50u64, 7, 1000, 0, 7, u64::MAX] {
        replicate(&mut state, Replicate { message: m });
    }
    assert_eq!(read(&state, Read {}).messages, vec![0, 7, 50, 1000, u64::MAX]);
}

#[test]
fn a_topology_naming_a_node_twice_is_accepted() {
    let mut state = State::new();
    replicate(&mut state, Replicate { message: 2 });
    topology(
        &mut state,
        Topology {
            topology: vec![
                ("n1".into(), vec!["n2".into()]),
                ("n2".into(), vec!["n1".into()]),
                ("n1".into(), vec!["n3".into()]),
            ],
        },
    );
    assert_eq!(read(&state, Read {}).messages, vec![2]);
}

#[test]
fn replication_reaches_every_other_node_once() {
    let sends = replicate_message(&ids(), 5);
    let dests: Vec<NodeId> = sends.iter().map(|o| o.dest.clone()).collect();
    assert_eq!(dests, vec![NodeId::from("n2"), NodeId::from("n3")]);
    assert!(sends.iter().all(|o| o.src == "n1" && o.body.message == 5));
}

#[test]
fn a_lone_node_replicates_nowhere() {
    let lone = Ids { id: "n1".into(), ids: vec!["n1".into()] };
    assert!(replicate_message(&lone, 5).is_empty());
}

#[test]
fn topology_is_kept_and_reads_are_unchanged() {
    let mut state = State::new();
    replicate(&mut state, Replicate { message: 1 });
    topology(&mut state, Topology { topology: vec![("n1".into(), vec!["n2".into()])] });
    assert_eq!(read(&state, Read {}).messages, vec![1]);
}

#[test]
fn read_ok_carries_the_messages() {
    assert_eq!(Read {}.ok(vec![1, 2]).messages, vec![1, 2]);
}
