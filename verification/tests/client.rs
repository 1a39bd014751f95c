use std::sync::Arc;

use mafia_game::client::ClientState;
use mafia_game::client_set::ClientSet;
use mafia_game::Entity;
use mafia_game::Event;
use mafia_game::EventChannel;
use mafia_game::MafiaGameError;
use mafia_game::Message;

#[test]
fn test_client_registration() {
    let mut client_state = ClientState::new();

    let (client1_id, client1_session_token) = client_state.connect_client("hello", 0).unwrap();
    let (client2_id, client2_session_token) = client_state.connect_client("world", 0).unwrap();

    assert_eq!(
        client_state.auth_client(client1_session_token, 0).unwrap(),
        client1_id
    );
    assert_eq!(
        client_state.auth_client(client2_session_token, 0).unwrap(),
        client2_id
    );

    assert_eq!(
        client_state
            .get_client(client1_id)
            .unwrap()
            .get_info()
            .name
            .as_str(),
        "hello"
    );
    assert_eq!(
        client_state
            .get_client(client2_id)
            .unwrap()
            .get_info()
            .name
            .as_str(),
        "world"
    );

    {
        let clients = client_state.list_clients();

        assert_eq!(
            clients,
            vec![
                (String::from("hello"), client1_id),
                (String::from("world"), client2_id)
            ]
        );
    }

    assert!(matches!(
        client_state.connect_client("hello", 0),
        Err(MafiaGameError::ClientNameRegistered(_))
    ));

    {
        let clients = client_state.list_clients();

        assert_eq!(
            clients,
            vec![
                (String::from("hello"), client1_id),
                (String::from("world"), client2_id)
            ]
        );
    }

    assert!(client_state.disconnect_client(client1_id).is_ok());
    assert!(matches!(
        client_state.auth_client(client1_session_token, 0),
        Err(MafiaGameError::ClientDisconnected(_))
    ));

    {
        let clients = client_state.list_clients();

        assert_eq!(
            clients,
            vec![
                (String::from("hello"), client1_id),
                (String::from("world"), client2_id)
            ]
        );
    }

    let (tmp_id, tmp_session_token) = client_state.connect_client("hello", 0).unwrap();
    assert_eq!(client1_id, tmp_id);
    assert_ne!(client1_session_token, tmp_session_token);

    {
        let clients = client_state.list_clients();

        assert_eq!(
            clients,
            vec![
                (String::from("hello"), client1_id),
                (String::from("world"), client2_id)
            ]
        );
    }

    client_state.purge_disconnected_clients(10, 0);

    {
        let clients = client_state.list_clients();

        assert_eq!(
            clients,
            vec![
                (String::from("hello"), client1_id),
                (String::from("world"), client2_id)
            ]
        );
    }

    assert!(client_state.disconnect_client(client1_id).is_ok());
    client_state.purge_disconnected_clients(10, 0);

    {
        let clients = client_state.list_clients();

        assert_eq!(clients, vec![(String::from("world"), client2_id)]);
    }

    assert!(client_state.disconnect_client(client1_id).is_err());
    assert!(client_state.disconnect_client(client2_id).is_ok());
    client_state.purge_disconnected_clients(10, 0);

    {
        let clients = client_state.list_clients();

        assert_eq!(clients, Vec::new());
    }
}

#[test]
fn test_messages() {
    let mut client_state = ClientState::new();

    let (client1_id, _) = client_state.connect_client("hello", 0).unwrap();
    let (client2_id, _) = client_state.connect_client("world", 0).unwrap();

    client_state.send_event(
        ClientSet::from_ids(&[client1_id, client2_id]),
        Event::from(Message {
            channel: EventChannel::Public,
            contents: String::from("hello world"),
            from: Entity::Client(client1_id),
        }),
    );

    client_state.send_event(
        ClientSet::from_ids(&[client2_id]),
        Event::from(Message {
            channel: EventChannel::Mafia,
            contents: String::from("just mafia"),
            from: Entity::Client(client2_id),
        }),
    );

    assert_eq!(
        client_state.take_events(client1_id),
        [Message {
            channel: EventChannel::Public,
            contents: String::from("hello world"),
            from: Entity::Client(client1_id)
        }]
        .into_iter()
        .map(|v| Arc::new(Event::MessageReceived(v)))
        .collect::<Vec<_>>()
    );

    assert_eq!(
        client_state.take_events(client2_id),
        [
            Message {
                channel: EventChannel::Public,
                contents: String::from("hello world"),
                from: Entity::Client(client1_id)
            },
            Message {
                channel: EventChannel::Mafia,
                contents: String::from("just mafia"),
                from: Entity::Client(client2_id),
            },
        ]
        .into_iter()
        .map(|v| Arc::new(Event::MessageReceived(v)))
        .collect::<Vec<_>>()
    );

    assert_eq!(client_state.take_events(client1_id), Vec::new());
    assert_eq!(client_state.take_events(client2_id), Vec::new());

    client_state.send_event(
        ClientSet::from_ids(&[client1_id, client2_id]),
        Event::from(Message {
            channel: EventChannel::Public,
            contents: String::from("foobar"),
            from: Entity::Client(client1_id),
        }),
    );

    client_state.send_event(
        ClientSet::from_ids(&[client1_id]),
        Event::from(Message {
            channel: EventChannel::Spectator,
            contents: String::from("just spectator"),
            from: Entity::Client(client1_id),
        }),
    );

    assert_eq!(
        client_state.take_events(client1_id),
        [
            Message {
                channel: EventChannel::Public,
                contents: String::from("foobar"),
                from: Entity::Client(client1_id)
            },
            Message {
                channel: EventChannel::Spectator,
                contents: String::from("just spectator"),
                from: Entity::Client(client1_id),
            },
        ]
        .into_iter()
        .map(|v| Arc::new(Event::MessageReceived(v)))
        .collect::<Vec<_>>()
    );

    assert_eq!(
        client_state.take_events(client2_id),
        [Message {
            channel: EventChannel::Public,
            contents: String::from("foobar"),
            from: Entity::Client(client1_id)
        },]
        .into_iter()
        .map(|v| Arc::new(Event::MessageReceived(v)))
        .collect::<Vec<_>>()
    );
}
