use std::collections::HashMap;

use mafia_game::mirror::MafiaClient;
use mafia_game::mirror::MafiaClientIdent;
use mafia_game::mirror::MAX_MESSAGES_HISTORY;
use mafia_game::Allegiance;
use mafia_game::ClientId;
use mafia_game::ClientInfo;
use mafia_game::Cycle;
use mafia_game::Entity;
use mafia_game::Event;
use mafia_game::EventChannel;
use mafia_game::GameInfo;
use mafia_game::Message;
use mafia_game::PlayerStatus;
use mafia_game::ServerInfo;
use mafia_game::SessionToken;
use mafia_game::SpecialRole;

fn info(name: &str, id: usize) -> ClientInfo {
    ClientInfo { name: String::from(name), id: ClientId(id) }
}

fn game() -> GameInfo {
    GameInfo {
        cycle_start_time_unix_ts_secs: 5,
        cycle_duration_secs: 10,
        current_cycle: Cycle::Night,
        day_num: 1,
        player_to_role: HashMap::from_iter([(2, SpecialRole::Detective)]),
        player_status: HashMap::from_iter([
            (0, PlayerStatus::Alive),
            (1, PlayerStatus::Alive),
            (2, PlayerStatus::Alive),
        ]),
        votes: HashMap::new(),
        winner: None,
    }
}

fn mirror(active_game: Option<GameInfo>) -> MafiaClient {
    MafiaClient::new(
        MafiaClientIdent { id: ClientId(2), session_token: SessionToken(77) },
        ServerInfo {
            connected_clients: HashMap::from_iter([(2, info("pearl", 2))]),
            active_game,
        },
    )
}

fn message(contents: String) -> Message {
    Message { channel: EventChannel::Public, contents, from: Entity::System }
}

#[test]
fn a_new_mirror_knows_what_it_was_told() {
    let mirror = mirror(Some(game()));
    assert_eq!(mirror.get_ident().id, ClientId(2));
    assert_eq!(mirror.get_ident().session_token, SessionToken(77));
    assert_eq!(mirror.get_inner().server_info.active_game, Some(game()));
    assert!(mirror.get_inner().messages.is_empty());
}

#[test]
fn snapshots_replace_what_was_known() {
    let mut mirror = mirror(None);
    let told = ServerInfo {
        connected_clients: HashMap::from_iter([(0, info("garnet", 0))]),
        active_game: Some(game()),
    };
    mirror.apply_event(Event::SetServerInfo(told.clone()));
    assert_eq!(mirror.get_inner().server_info, told);

    let mut next = game();
    next.day_num = 4;
    mirror.apply_event(Event::SetGame(next.clone()));
    assert_eq!(mirror.get_inner().server_info.active_game, Some(next));
    assert_eq!(mirror.get_inner().server_info.connected_clients, told.connected_clients);

    mirror.apply_event(Event::EndGame);
    assert_eq!(mirror.get_inner().server_info.active_game, None);
}

#[test]
fn clients_come_and_go() {
    let mut mirror = mirror(None);
    mirror.apply_event(Event::ClientConnected(info("garnet", 0)));
    mirror.apply_event(Event::ClientConnected(info("amethyst", 1)));
    assert_eq!(
        mirror.get_inner().server_info.connected_clients,
        HashMap::from_iter([
            (0, info("garnet", 0)),
            (1, info("amethyst", 1)),
            (2, info("pearl", 2))
        ])
    );
    mirror.apply_event(Event::ClientDisconnected(ClientId(0)));
    mirror.apply_event(Event::ClientDisconnected(ClientId(9)));
    assert_eq!(
        mirror.get_inner().server_info.connected_clients,
        HashMap::from_iter([(1, info("amethyst", 1)), (2, info("pearl", 2))])
    );
}

#[test]
fn the_history_keeps_the_last_messages() {
    let mut mirror = mirror(None);
    for i in 0..MAX_MESSAGES_HISTORY + 5 {
        mirror.apply_event(Event::MessageReceived(message(format!("m{}", i))));
        assert!(mirror.get_inner().messages.len() <= MAX_MESSAGES_HISTORY);
    }
    let messages = &mirror.get_inner().messages;
    assert_eq!(messages.len(), MAX_MESSAGES_HISTORY);
    assert_eq!(messages[0], message(String::from("m5")));
    assert_eq!(messages[MAX_MESSAGES_HISTORY - 1], message(String::from("m204")));
}

#[test]
fn a_finding_of_mafia_is_noted() {
    let mut mirror = mirror(Some(game()));
    mirror.apply_event(Event::PlayerInvestigated {
        actor: ClientId(2),
        target: ClientId(1),
        allegiance: Allegiance::Villagers,
    });
    assert_eq!(
        mirror.get_inner().server_info.active_game.as_ref().unwrap().player_to_role,
        HashMap::from_iter([(2, SpecialRole::Detective)])
    );
    mirror.apply_event(Event::PlayerInvestigated {
        actor: ClientId(2),
        target: ClientId(0),
        allegiance: Allegiance::Mafia,
    });
    assert_eq!(
        mirror.get_inner().server_info.active_game.as_ref().unwrap().player_to_role,
        HashMap::from_iter([(0, SpecialRole::Mafia), (2, SpecialRole::Detective)])
    );
}

#[test]
fn the_events_of_a_game_are_folded_in() {
    let mut mirror = mirror(Some(game()));
    mirror.apply_event(Event::VoteIssued {
        voter: ClientId(2),
        target: Some(ClientId(0)),
        channel: EventChannel::Spectator,
    });
    mirror.apply_event(Event::VoteIssued {
        voter: ClientId(2),
        target: None,
        channel: EventChannel::Spectator,
    });
    let known = |mirror: &MafiaClient| {
        mirror.get_inner().server_info.active_game.clone().unwrap()
    };
    assert_eq!(known(&mirror).votes, HashMap::from_iter([(2, None)]));

    mirror.apply_event(Event::FailedVote { cycle: Cycle::Night, channel: EventChannel::Mafia });
    assert_eq!(known(&mirror).votes, HashMap::from_iter([(2, None)]));

    mirror.apply_event(Event::PlayerKilled {
        player: ClientId(1),
        cycle: Cycle::Night,
        death_message: String::from("x"),
    });
    // A player that the mirror does not know of is not added.
    mirror.apply_event(Event::PlayerKilled {
        player: ClientId(8),
        cycle: Cycle::Night,
        death_message: String::from("x"),
    });
    assert_eq!(
        known(&mirror).player_status,
        HashMap::from_iter([
            (0, PlayerStatus::Alive),
            (1, PlayerStatus::Dead),
            (2, PlayerStatus::Alive)
        ])
    );

    mirror.apply_event(Event::SetCycle {
        start_time_unix_ts_secs: 90,
        duration_secs: 30,
        cycle: Cycle::Day,
        day_num: 2,
    });
    let after = known(&mirror);
    assert_eq!(after.current_cycle, Cycle::Day);
    assert_eq!(after.day_num, 2);
    assert_eq!(after.cycle_start_time_unix_ts_secs, 90);
    assert_eq!(after.cycle_duration_secs, 30);
    assert_eq!(after.votes, HashMap::new());

    let roles = HashMap::from_iter([(0, SpecialRole::Mafia), (2, SpecialRole::Detective)]);
    mirror.apply_event(Event::GameWon { player_to_role: roles.clone(), side: Allegiance::Mafia });
    assert_eq!(known(&mirror).player_to_role, roles);
    assert_eq!(known(&mirror).winner, Some(Allegiance::Mafia));
}

#[test]
fn without_a_game_its_events_change_nothing() {
    let mut mirror = mirror(None);
    mirror.apply_event(Event::VoteIssued {
        voter: ClientId(2),
        target: None,
        channel: EventChannel::Public,
    });
    mirror.apply_event(Event::SetCycle {
        start_time_unix_ts_secs: 0,
        duration_secs: 0,
        cycle: Cycle::Day,
        day_num: 3,
    });
    mirror.apply_event(Event::PlayerKilled {
        player: ClientId(0),
        cycle: Cycle::Day,
        death_message: String::new(),
    });
    mirror.apply_event(Event::PlayerInvestigated {
        actor: ClientId(2),
        target: ClientId(0),
        allegiance: Allegiance::Mafia,
    });
    mirror.apply_event(Event::GameWon {
        player_to_role: HashMap::new(),
        side: Allegiance::Villagers,
    });
    assert_eq!(mirror.get_inner().server_info.active_game, None);
    assert!(mirror.get_inner().messages.is_empty());
}
