use blockchat::accounts::Role;
use blockchat::lookup::{
    candidates, get_connection, get_connections, is_confirmation, lookup_reply_jobs,
    process_lookup, AddressTable, LookupReplyError, LookupStep,
};
use blockchat::messages::{MessageData, NetworkMessage, ProcessMessage};
use blockchat::outbox::{needs_lookup, next_held_connection, outgoing_action, OutgoingAction};

fn register(table: &mut AddressTable, id: u128, addr: &str, role: Role) {
    let reg = NetworkMessage::new(MessageData::LookUpReg(id, String::from(addr), role));
    match process_lookup(table, &reg) {
        LookupStep::Reply(m) => assert!(matches!(m.data, MessageData::Confirm)),
        LookupStep::Finish => unreachable!(),
    }
}

fn ask(table: &mut AddressTable, data: MessageData) -> MessageData {
    match process_lookup(table, &NetworkMessage::new(data)) {
        LookupStep::Reply(m) => m.data,
        LookupStep::Finish => unreachable!(),
    }
}

#[test]
fn test_lookup_registration() {
    let mut table = AddressTable::new();
    register(&mut table, 1, "127.0.0.1:9001", Role::User);
    assert_eq!(table.get(&1), Some(&(String::from("127.0.0.1:9001"), Role::User)));
    let finish = NetworkMessage::new(MessageData::Finish);
    assert!(matches!(process_lookup(&mut table, &finish), LookupStep::Finish));
}

#[test]
fn test_lookup_request_less_than_4() {
    let mut table = AddressTable::new();
    register(&mut table, 1, "127.0.0.1:9001", Role::User);
    register(&mut table, 2, "127.0.0.1:9002", Role::User);
    match ask(&mut table, MessageData::GeneralAddrRequest(2, None)) {
        MessageData::PeerAddresses(v) => {
            assert_eq!(v.len(), 1);
            assert!(!v.contains(&(2, String::from("127.0.0.1:9002"))));
            assert_eq!(v[0], (1, String::from("127.0.0.1:9001")));
        }
        _ => assert!(false),
    };
}

#[test]
fn test_lookup_request_4() {
    let mut table = AddressTable::new();
    for id in 1..=5u128 {
        register(&mut table, id, &format!("127.0.0.1:{}", 9000 + id), Role::User);
    }
    match ask(&mut table, MessageData::GeneralAddrRequest(5, None)) {
        MessageData::PeerAddresses(v) => {
            assert_eq!(v.len(), 4);
            assert!(!v.contains(&(5, String::from("127.0.0.1:9005"))));
        }
        _ => assert!(false),
    };
}

#[test]
fn lookup_request_many_returns_four_distinct() {
    let mut table = AddressTable::new();
    for id in 1..=9u128 {
        register(&mut table, id, &format!("127.0.0.1:{}", 9000 + id), Role::User);
    }
    match get_connections(&table, 3, None) {
        MessageData::PeerAddresses(v) => {
            assert_eq!(v.len(), 4);
            for (i, (id, addr)) in v.iter().enumerate() {
                assert_ne!(*id, 3);
                assert_eq!(addr, &format!("127.0.0.1:{}", 9000 + id));
                assert!(v[i + 1..].iter().all(|(other, _)| other != id));
            }
        }
        _ => assert!(false),
    };
}

#[test]
fn test_lookup_when_empty() {
    let mut table = AddressTable::new();
    register(&mut table, 1, "127.0.0.1:9001", Role::User);
    assert!(matches!(
        ask(&mut table, MessageData::GeneralAddrRequest(1, None)),
        MessageData::NoAddr
    ));
}

#[test]
fn test_lookup_request_1() {
    let mut table = AddressTable::new();
    register(&mut table, 1, "127.0.0.1:9001", Role::User);
    register(&mut table, 2, "127.0.0.1:9002", Role::User);
    assert!(matches!(
        ask(&mut table, MessageData::RequestAddress(1)),
        MessageData::PeerAddress(_)
    ));
    match get_connection(&table, 1) {
        MessageData::PeerAddress((id, addr)) => {
            assert_eq!(id, 1);
            assert_eq!(addr, "127.0.0.1:9001");
        }
        _ => assert!(false),
    }
    assert!(matches!(get_connection(&table, 7), MessageData::NoAddr));
}

#[test]
fn test_lookup_request_4_noone_in_role() {
    let mut table = AddressTable::new();
    for id in 1..=5u128 {
        register(&mut table, id, &format!("127.0.0.1:{}", 9000 + id), Role::User);
    }
    assert!(matches!(
        ask(&mut table, MessageData::GeneralAddrRequest(5, Some(Role::Miner))),
        MessageData::NoAddr
    ));
}

#[test]
fn test_lookup_request_4_less_in_role() {
    let mut table = AddressTable::new();
    register(&mut table, 1, "127.0.0.1:9001", Role::User);
    register(&mut table, 2, "127.0.0.1:9002", Role::User);
    register(&mut table, 3, "127.0.0.1:9003", Role::User);
    register(&mut table, 4, "127.0.0.1:9004", Role::Miner);
    register(&mut table, 5, "127.0.0.1:9005", Role::User);
    match ask(&mut table, MessageData::GeneralAddrRequest(5, Some(Role::Miner))) {
        MessageData::PeerAddresses(v) => {
            assert_eq!(v.len(), 1);
            assert!(!v.contains(&(5, String::from("127.0.0.1:9005"))));
            assert_eq!(v[0], (4, String::from("127.0.0.1:9004")));
        }
        _ => assert!(false),
    };
}

#[test]
fn test_lookup_strike() {
    let mut table = AddressTable::new();
    register(&mut table, 1, "127.0.0.1:9001", Role::User);
    assert!(matches!(ask(&mut table, MessageData::Strike(1)), MessageData::NoAddr));
    assert_eq!(table.len(), 1);
}

#[test]
fn registration_replaces_old_entry() {
    let mut table = AddressTable::new();
    register(&mut table, 1, "127.0.0.1:9001", Role::User);
    register(&mut table, 1, "127.0.0.1:9111", Role::Miner);
    assert_eq!(table.len(), 1);
    let all = candidates(&table, 2, None);
    assert_eq!(all, vec![(1, String::from("127.0.0.1:9111"))]);
    assert!(candidates(&table, 2, Some(Role::User)).is_empty());
}

#[test]
fn lookup_leaves_out_entries_at_the_requesters_address() {
    let mut table = AddressTable::new();
    register(&mut table, 1, "127.0.0.1:9001", Role::User);
    register(&mut table, 2, "127.0.0.1:9001", Role::User);
    register(&mut table, 3, "127.0.0.1:9003", Role::User);
    match get_connections(&table, 1, None) {
        MessageData::PeerAddresses(v) => {
            assert_eq!(v, vec![(3, String::from("127.0.0.1:9003"))]);
        }
        _ => assert!(false),
    };
    // A requester that never registered is only told of other nodes' entries.
    match get_connections(&table, 9, Some(Role::User)) {
        MessageData::PeerAddresses(v) => assert_eq!(v.len(), 3),
        _ => assert!(false),
    };
}

#[test]
fn lookup_reply_gives_one_connection_per_address() {
    let reply = MessageData::PeerAddresses(vec![
        (4, String::from("127.0.0.1:9004")),
        (2, String::from("127.0.0.1:9002")),
    ]);
    let jobs = lookup_reply_jobs(reply).unwrap();
    assert_eq!(jobs.len(), 2);
    assert!(matches!(&jobs[0], ProcessMessage::NewConnection(4, a) if a == "127.0.0.1:9004"));
    assert!(matches!(&jobs[1], ProcessMessage::NewConnection(2, a) if a == "127.0.0.1:9002"));
    assert!(matches!(lookup_reply_jobs(MessageData::NoAddr), Err(LookupReplyError::NoAddresses)));
    assert!(matches!(lookup_reply_jobs(MessageData::Confirm), Err(LookupReplyError::Unexpected)));
    assert!(is_confirmation(&MessageData::Confirm));
    assert!(!is_confirmation(&MessageData::NoAddr));
}

#[test]
fn held_jobs_serve_connections_first() {
    let mut held = vec![
        ProcessMessage::SendMessage(NetworkMessage::new(MessageData::Blank)),
        ProcessMessage::NewConnection(5, String::from("127.0.0.1:9005")),
        ProcessMessage::NewConnection(6, String::from("127.0.0.1:9006")),
    ];
    assert_eq!(next_held_connection(&mut held), Some((5, String::from("127.0.0.1:9005"))));
    assert_eq!(held.len(), 2);
    assert_eq!(next_held_connection(&mut held), Some((6, String::from("127.0.0.1:9006"))));
    assert_eq!(next_held_connection(&mut held), None);
    assert_eq!(held.len(), 1);
    assert!(needs_lookup(0, &Some(String::from("127.0.0.1:8181"))));
    assert!(!needs_lookup(1, &Some(String::from("127.0.0.1:8181"))));
    assert!(!needs_lookup(0, &None));
}

#[test]
fn message_is_held_without_connections() {
    let mut held = Vec::new();
    let job = ProcessMessage::SendMessage(NetworkMessage::new(MessageData::Confirm));
    assert!(matches!(outgoing_action(job, 0, &mut held), OutgoingAction::Held));
    assert_eq!(held.len(), 1);
    let job = ProcessMessage::SendMessage(NetworkMessage::new(MessageData::Confirm));
    assert!(matches!(
        outgoing_action(job, 2, &mut held),
        OutgoingAction::Broadcast(NetworkMessage { data: MessageData::Confirm })
    ));
    let job = ProcessMessage::NewConnection(3, String::from("a"));
    assert!(matches!(outgoing_action(job, 2, &mut held), OutgoingAction::Connect(3, _)));
    assert!(matches!(outgoing_action(ProcessMessage::Blank, 2, &mut held), OutgoingAction::Idle));
    assert_eq!(held.len(), 1);
}
