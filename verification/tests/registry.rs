use std::sync::Arc;

use mafia_game::client::ClientState;
use mafia_game::client_set::ClientSet;
use mafia_game::client_set::MAX_PLAYERS;
use mafia_game::ClientId;
use mafia_game::ClientInfo;
use mafia_game::Event;
use mafia_game::MafiaGameError;
use mafia_game::SessionToken;

fn ids(set: &ClientSet) -> Vec<usize> {
    set.to_vec().into_iter().map(|id| id.0).collect()
}

#[test]
fn clients_get_the_lowest_free_id() {
    let mut registry = ClientState::new();
    assert_eq!(registry.connect_with_token("a", SessionToken(10), 0), Ok((ClientId(0), SessionToken(10))));
    assert_eq!(registry.connect_with_token("b", SessionToken(11), 0), Ok((ClientId(1), SessionToken(11))));
    assert_eq!(registry.connect_with_token("c", SessionToken(12), 0), Ok((ClientId(2), SessionToken(12))));

    // Free the middle id: it is the next to be given out.
    registry.disconnect_client(ClientId(1)).unwrap();
    assert_eq!(registry.purge_disconnected_clients(100, 0), vec![]);
    assert_eq!(ids(&registry.all_client_ids()), vec![0, 2]);
    assert_eq!(registry.connect_with_token("d", SessionToken(13), 0), Ok((ClientId(1), SessionToken(13))));
    assert_eq!(registry.connect_with_token("e", SessionToken(14), 0), Ok((ClientId(3), SessionToken(14))));
}

#[test]
fn a_name_held_by_a_connected_client_is_refused() {
    let mut registry = ClientState::new();
    registry.connect_client("garnet", 0).unwrap();
    assert_eq!(
        registry.connect_client("garnet", 1),
        Err(MafiaGameError::ClientNameRegistered(String::from("garnet")))
    );
    assert_eq!(ids(&registry.all_client_ids()), vec![0]);
}

#[test]
fn the_pool_holds_no_more_than_its_ids() {
    let mut registry = ClientState::new();
    for i in 0..MAX_PLAYERS {
        let (id, _) = registry.connect_client(&format!("client{}", i), 0).unwrap();
        assert_eq!(id, ClientId(i));
    }
    assert_eq!(registry.all_client_ids().count(), MAX_PLAYERS);
    assert_eq!(
        registry.connect_client("one too many", 0),
        Err(MafiaGameError::TooManyClientsRegistered)
    );
    assert_eq!(registry.all_client_ids().count(), MAX_PLAYERS);

    // A name on record is still told that it is taken.
    assert_eq!(
        registry.connect_client("client7", 0),
        Err(MafiaGameError::ClientNameRegistered(String::from("client7")))
    );

    // A client that comes back needs no free id.
    registry.disconnect_client(ClientId(7)).unwrap();
    let (id, _) = registry.connect_client("client7", 0).unwrap();
    assert_eq!(id, ClientId(7));
}

#[test]
fn tokens_of_two_connections_differ() {
    let a = SessionToken::new();
    let b = SessionToken::new();
    assert_ne!(a, b);
    // The bits are those of a random UUID: version 4, variant 1.
    assert_eq!((a.0 >> 76) & 0xf, 4);
    assert_eq!((a.0 >> 62) & 0x3, 2);
}

#[test]
fn a_token_authenticates_its_client_only() {
    let mut registry = ClientState::new();
    let (a, a_token) = registry.connect_client("a", 0).unwrap();
    let (b, b_token) = registry.connect_client("b", 0).unwrap();
    assert_ne!(a_token, b_token);
    assert_eq!(registry.auth_client(a_token, 1), Ok(a));
    assert_eq!(registry.auth_client(b_token, 1), Ok(b));
    let unknown = SessionToken(a_token.0 ^ b_token.0 ^ 1);
    assert_eq!(
        registry.auth_client(unknown, 1),
        Err(MafiaGameError::InvalidSessionToken(unknown))
    );
}

#[test]
fn coming_back_rotates_the_token_and_empties_the_inbox() {
    let mut registry = ClientState::new();
    let (id, old) = registry.connect_with_token("pearl", SessionToken(1), 0).unwrap();
    registry.send_event(ClientSet::from(id), Event::EndGame);
    registry.disconnect_client(id).unwrap();
    assert_eq!(registry.auth_client(old, 1), Err(MafiaGameError::ClientDisconnected(id)));

    // Nothing reaches a disconnected client.
    registry.send_event(ClientSet::from(id), Event::EndGame);

    assert_eq!(registry.connect_with_token("pearl", SessionToken(2), 5), Ok((id, SessionToken(2))));
    assert_eq!(registry.auth_client(old, 6), Err(MafiaGameError::InvalidSessionToken(old)));
    assert_eq!(registry.auth_client(SessionToken(2), 6), Ok(id));
    assert_eq!(registry.take_events(id), Vec::<Arc<Event>>::new());
    assert!(!registry.get_client(id).unwrap().is_disconnected());
}

#[test]
fn disconnecting_twice_is_an_error() {
    let mut registry = ClientState::new();
    let (id, _) = registry.connect_client("a", 0).unwrap();
    assert_eq!(registry.disconnect_client(ClientId(9)), Err(MafiaGameError::InvalidClientId(ClientId(9))));
    assert_eq!(registry.disconnect_client(id), Ok(()));
    assert!(registry.get_client(id).unwrap().is_disconnected());
    assert_eq!(registry.disconnect_client(id), Err(MafiaGameError::ClientDisconnected(id)));
}

#[test]
fn get_client_knows_the_clients_on_record() {
    let mut registry = ClientState::new();
    let (id, _) = registry.connect_client("a", 0).unwrap();
    assert_eq!(
        *registry.get_client(id).unwrap().get_info(),
        ClientInfo { name: String::from("a"), id }
    );
    assert!(matches!(
        registry.get_client(ClientId(1)),
        Err(MafiaGameError::InvalidClientId(ClientId(1)))
    ));
    let infos = registry.all_client_info();
    assert_eq!(infos.len(), 1);
    assert_eq!(infos[&0], ClientInfo { name: String::from("a"), id });
}

#[test]
fn purge_removes_the_silent_and_the_disconnected() {
    let mut registry = ClientState::new();
    let (a, a_token) = registry.connect_client("a", 0).unwrap();
    let (b, b_token) = registry.connect_client("b", 0).unwrap();
    let (c, _) = registry.connect_client("c", 0).unwrap();
    let (d, d_token) = registry.connect_client("d", 0).unwrap();

    // b and d show themselves at 50 and 41, c disconnects.
    assert_eq!(registry.auth_client(b_token, 50), Ok(b));
    assert_eq!(registry.auth_client(d_token, 41), Ok(d));
    registry.disconnect_client(c).unwrap();

    // At 100 with a limit of 59: a was silent for 100, b for 50, d for 59.
    let lost = registry.purge_disconnected_clients(59, 100);
    assert_eq!(lost, vec![a, d]);
    assert_eq!(ids(&registry.all_client_ids()), vec![b.0]);
    assert_eq!(registry.list_clients(), vec![(String::from("b"), b)]);

    // The tokens of the removed clients are unknown now.
    assert_eq!(
        registry.auth_client(a_token, 100),
        Err(MafiaGameError::InvalidSessionToken(a_token))
    );
    assert_eq!(registry.auth_client(b_token, 100), Ok(b));

    // Their names and ids are free again.
    let (again, _) = registry.connect_client("a", 100).unwrap();
    assert_eq!(again, ClientId(0));
}

#[test]
fn a_clock_that_went_back_evicts_nobody() {
    let mut registry = ClientState::new();
    let (a, _) = registry.connect_client("a", 100).unwrap();
    assert_eq!(registry.purge_disconnected_clients(1, 50), vec![]);
    assert_eq!(ids(&registry.all_client_ids()), vec![a.0]);
    // A limit of nothing evicts everyone.
    assert_eq!(registry.purge_disconnected_clients(0, 50), vec![a]);
    assert_eq!(registry.all_client_ids().count(), 0);
}

#[test]
fn events_reach_the_recipients_on_record_in_order() {
    let mut registry = ClientState::new();
    let (a, _) = registry.connect_client("a", 0).unwrap();
    let (b, _) = registry.connect_client("b", 0).unwrap();

    // A recipient that is not on record is passed over.
    registry.send_event(
        ClientSet::from_ids(&[a, ClientId(40)]),
        Event::ClientDisconnected(ClientId(40)),
    );
    registry.send_event(ClientSet::from_ids(&[a, b]), Event::EndGame);
    registry.send_event(ClientSet::new(), Event::ClientDisconnected(ClientId(41)));

    assert_eq!(
        registry.take_events(a),
        vec![
            Arc::new(Event::ClientDisconnected(ClientId(40))),
            Arc::new(Event::EndGame)
        ]
    );
    assert_eq!(registry.take_events(b), vec![Arc::new(Event::EndGame)]);
    assert_eq!(registry.take_events(a), vec![]);
    assert_eq!(registry.take_events(ClientId(40)), vec![]);
}

#[test]
fn recipients_share_one_copy_of_an_event() {
    let mut registry = ClientState::new();
    let (a, _) = registry.connect_client("a", 0).unwrap();
    let (b, _) = registry.connect_client("b", 0).unwrap();
    registry.send_event(ClientSet::from_ids(&[a, b]), Event::EndGame);
    let for_a = registry.take_events(a);
    let for_b = registry.take_events(b);
    assert!(Arc::ptr_eq(&for_a[0], &for_b[0]));
}
