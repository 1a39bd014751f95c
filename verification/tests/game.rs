use std::collections::HashMap;

use mafia_game::client::ClientState;
use mafia_game::consts::day_death_messages;
use mafia_game::consts::night_death_messages;
use mafia_game::game::is_alive;
use mafia_game::game::Game;
use mafia_game::game::GameConfig;
use mafia_game::game::RoleCounts;
use mafia_game::Allegiance;
use mafia_game::Cycle;
use mafia_game::Event;
use mafia_game::EventChannel;
use mafia_game::MafiaGameError;
use mafia_game::SpecialRole;
#[allow(deprecated)]
use rand::rngs::mock::StepRng;
use rand::seq::SliceRandom;

/// Starts a game at time 0 whose players are the connected clients, in the
/// order in which a step generator that starts at 1 and steps by 1 shuffles
/// their ascending ids.
#[allow(deprecated)]
fn start_with_step_rng(
    config: GameConfig,
    clients: &ClientState,
) -> Result<Game, MafiaGameError> {
    let mut order = clients.connected_client_ids().to_vec();
    order.shuffle(&mut StepRng::new(1, 1));
    Game::start_with_order(config, &order, 0)
}

#[test]
fn test_game_validation() {
    let mut client_state = ClientState::new();

    client_state.connect_client("garnet", 0).unwrap();
    client_state.connect_client("amethyst", 0).unwrap();
    client_state.connect_client("pearl", 0).unwrap();

    assert!(matches!(
        start_with_step_rng(
            GameConfig {
                start_cycle: Cycle::Day,
                time_for_day: 0,
                end_day_after_all_votes: true,
                time_for_night: 0,
                end_night_after_all_votes: true,
                num_special_roles: RoleCounts { mafia: 0, doctor: 0, detective: 0 },
                vote_grace_period: 0
            },
            &client_state,
    ),
        Err(MafiaGameError::InvalidGameConfig(_))
    ));

    assert!(matches!(
        start_with_step_rng(
            GameConfig {
                start_cycle: Cycle::Day,
                time_for_day: 0,
                end_day_after_all_votes: true,
                time_for_night: 0,
                end_night_after_all_votes: true,
                num_special_roles: RoleCounts { mafia: 2, doctor: 0, detective: 0 },
                vote_grace_period: 0
            },
            &client_state,
    ),
        Err(MafiaGameError::NotEnoughPlayers(_))
    ));

    assert!(matches!(
        start_with_step_rng(
            GameConfig {
                start_cycle: Cycle::Day,
                time_for_day: 0,
                end_day_after_all_votes: true,
                time_for_night: 0,
                end_night_after_all_votes: true,
                num_special_roles: RoleCounts { mafia: 1, doctor: 0, detective: 3 },
                vote_grace_period: 0
            },
            &client_state,
    ),
        Err(MafiaGameError::NotEnoughPlayers(_))
    ));

    assert!(matches!(
        start_with_step_rng(
            GameConfig {
                start_cycle: Cycle::Day,
                time_for_day: 0,
                end_day_after_all_votes: true,
                time_for_night: 0,
                end_night_after_all_votes: true,
                num_special_roles: RoleCounts { mafia: 1, doctor: 0, detective: 0 },
                vote_grace_period: 0
            },
            &client_state,
    ),
        Ok(_)
    ));

    assert!(matches!(
        start_with_step_rng(
            GameConfig {
                start_cycle: Cycle::Day,
                time_for_day: 0,
                end_day_after_all_votes: true,
                time_for_night: 0,
                end_night_after_all_votes: true,
                num_special_roles: RoleCounts { mafia: 1, doctor: 0, detective: 1 },
                vote_grace_period: 0
            },
            &client_state,
    ),
        Ok(_)
    ));

    assert!(matches!(
        start_with_step_rng(
            GameConfig {
                start_cycle: Cycle::Day,
                time_for_day: 0,
                end_day_after_all_votes: true,
                time_for_night: 0,
                end_night_after_all_votes: true,
                num_special_roles: RoleCounts { mafia: 1, doctor: 1, detective: 1 },
                vote_grace_period: 0
            },
            &client_state,
    ),
        Ok(_)
    ));
}

#[test]
fn test_game_single_cycle_day() {
    let mut client_state = ClientState::new();

    let (client1_id, _) = client_state.connect_client("garnet", 0).unwrap();
    let (client2_id, _) = client_state.connect_client("amethyst", 0).unwrap();
    let (client3_id, _) = client_state.connect_client("pearl", 0).unwrap();

    let mut game = start_with_step_rng(
        GameConfig {
            start_cycle: Cycle::Day,
            time_for_day: 10,
            end_day_after_all_votes: true,
            time_for_night: 10,
            end_night_after_all_votes: true,
            num_special_roles: RoleCounts { mafia: 1, doctor: 0, detective: 0 },
            vote_grace_period: 0,
        },
        &client_state,
    )
    .unwrap();

    assert_eq!(
        *game.get_player_roles(),
        HashMap::from_iter([(client3_id.0, SpecialRole::Mafia)]),
    );

    game.cast_vote(client1_id, Some(client3_id), 0).unwrap();
    game.cast_vote(client2_id, Some(client3_id), 0).unwrap();
    game.cast_vote(client3_id, None, 0).unwrap();

    assert_eq!(
        game.poll_end_cycle(0),
        vec![
            Event::PlayerKilled {
                player: client3_id,
                cycle: Cycle::Day,
                death_message: String::from(day_death_messages()[0])
            },
            Event::GameWon {
                player_to_role: HashMap::from_iter([(client3_id.0, SpecialRole::Mafia)]),
                side: Allegiance::Villagers
            }
        ]
    );

    assert_eq!(game.get_winner(), Some(Allegiance::Villagers));
}

#[test]
fn test_game_single_cycle_night() {
    let mut client_state = ClientState::new();

    let (client1_id, _) = client_state.connect_client("garnet", 0).unwrap();
    let (_client2_id, _) = client_state.connect_client("amethyst", 0).unwrap();
    let (client3_id, _) = client_state.connect_client("pearl", 0).unwrap();

    let mut game = start_with_step_rng(
        GameConfig {
            start_cycle: Cycle::Night,
            time_for_day: 10,
            end_day_after_all_votes: true,
            time_for_night: 10,
            end_night_after_all_votes: true,
            num_special_roles: RoleCounts { mafia: 1, doctor: 0, detective: 0 },
            vote_grace_period: 0,
        },
        &client_state,
    )
    .unwrap();

    assert_eq!(
        *game.get_player_roles(),
        HashMap::from_iter([(client3_id.0, SpecialRole::Mafia)]),
    );

    game.cast_vote(client3_id, Some(client1_id), 0).unwrap();

    assert_eq!(
        game.poll_end_cycle(0),
        vec![
            Event::PlayerKilled {
                player: client1_id,
                cycle: Cycle::Night,
                death_message: String::from(night_death_messages()[0])
            },
            Event::GameWon {
                player_to_role: HashMap::from_iter([(client3_id.0, SpecialRole::Mafia)]),
                side: Allegiance::Mafia
            }
        ]
    );

    assert_eq!(game.get_winner(), Some(Allegiance::Mafia));
}

#[test]
fn test_game_vote_rejections_day() {
    let mut client_state = ClientState::new();

    let (client1_id, _) = client_state.connect_client("garnet", 0).unwrap();
    let (client2_id, _) = client_state.connect_client("amethyst", 0).unwrap();
    let (client3_id, _) = client_state.connect_client("pearl", 0).unwrap();
    let (client4_id, _) = client_state.connect_client("steven", 0).unwrap();
    let (client5_id, _) = client_state.connect_client("connie", 0).unwrap();
    let (client6_id, _) = client_state.connect_client("pink", 0).unwrap();
    let (client7_id, _) = client_state.connect_client("blue", 0).unwrap();

    let mut game = start_with_step_rng(
        GameConfig {
            start_cycle: Cycle::Day,
            time_for_day: 10,
            end_day_after_all_votes: true,
            time_for_night: 10,
            end_night_after_all_votes: true,
            num_special_roles: RoleCounts { mafia: 2, doctor: 1, detective: 1 },
            vote_grace_period: 0,
        },
        &client_state,
    )
    .unwrap();

    // Joined after the game started.
    let (client8_id, _) = client_state.connect_client("yellow", 0).unwrap();

    assert_eq!(
        *game.get_player_roles(),
        HashMap::from_iter([
            (client7_id.0, SpecialRole::Mafia),
            (client1_id.0, SpecialRole::Mafia),
            (client2_id.0, SpecialRole::Doctor),
            (client3_id.0, SpecialRole::Detective)
        ]),
    );

    // -- DAY 1 --
    // Everyone alive can vote during the day.
    for (_, client_id) in client_state.list_clients() {
        if client_id == client8_id {
            assert!(matches!(
                game.cast_vote(client_id, None, 0),
                Err(MafiaGameError::InvalidVote(_))
            ));
        } else {
            // Votes to invalid player fail.
            assert!(matches!(
                game.cast_vote(client_id, Some(client8_id), 0),
                Err(MafiaGameError::InvalidVote(_))
            ));

            game.cast_vote(client_id, None, 0).unwrap();
        }
    }

    assert_eq!(
        game.poll_end_cycle(0),
        vec![
            Event::FailedVote {
                cycle: Cycle::Day,
                channel: EventChannel::Public,
            },
            Event::SetCycle {
                cycle: Cycle::Night,
                day_num: 1,
                start_time_unix_ts_secs: 0,
                duration_secs: 10
            }
        ]
    );

    // -- NIGHT 1 --
    // Only Mafia, Detective, and Doctor can vote during the night.
    for (_, client_id) in client_state.list_clients() {
        if game.get_player_role(client_id).is_none() {
            assert!(matches!(
                game.cast_vote(client_id, None, 0),
                Err(MafiaGameError::InvalidVote(_))
            ));
        } else {
            // Votes to invalid player fail.
            assert!(matches!(
                game.cast_vote(client_id, Some(client8_id), 0),
                Err(MafiaGameError::InvalidVote(_))
            ));
        }
    }

    game.cast_vote(client7_id, Some(client4_id), 0).unwrap();
    game.cast_vote(client1_id, Some(client4_id), 0).unwrap();
    game.cast_vote(client2_id, Some(client5_id), 0).unwrap();
    game.cast_vote(client3_id, Some(client5_id), 0).unwrap();

    assert_eq!(
        game.poll_end_cycle(0),
        vec![
            Event::PlayerKilled {
                player: client4_id,
                cycle: Cycle::Night,
                death_message: String::from(night_death_messages()[0])
            },
            Event::PlayerInvestigated {
                actor: client3_id,
                target: client5_id,
                allegiance: Allegiance::Villagers,
            },
            Event::SetCycle {
                cycle: Cycle::Day,
                day_num: 2,
                start_time_unix_ts_secs: 0,
                duration_secs: 10
            }
        ]
    );

    // -- DAY 2 --
    // Everyone but the dead player can vote.
    for (_, client_id) in client_state.list_clients() {
        if client_id == client4_id || client_id == client8_id {
            assert!(matches!(
                game.cast_vote(client_id, None, 0),
                Err(MafiaGameError::InvalidVote(_))
            ));
        } else {
            // Votes to dead player fail.
            assert!(matches!(
                game.cast_vote(client_id, Some(client4_id), 0),
                Err(MafiaGameError::InvalidVote(_))
            ));

            game.cast_vote(client_id, Some(client7_id), 0).unwrap();
        }
    }

    assert_eq!(
        game.poll_end_cycle(0),
        vec![
            Event::PlayerKilled {
                player: client7_id,
                cycle: Cycle::Day,
                death_message: String::from(day_death_messages()[0])
            },
            Event::SetCycle {
                cycle: Cycle::Night,
                day_num: 2,
                start_time_unix_ts_secs: 0,
                duration_secs: 10
            }
        ]
    );

    // -- NIGHT 2 --
    // Only alive Mafia, Detective, and Doctor can vote during the night.
    for (_, client_id) in client_state.list_clients() {
        if game.get_player_role(client_id).is_none() {
            assert!(matches!(
                game.cast_vote(client_id, None, 0),
                Err(MafiaGameError::InvalidVote(_))
            ));
        } else {
            // Votes to invalid player fail.
            assert!(matches!(
                game.cast_vote(client_id, Some(client4_id), 0),
                Err(MafiaGameError::InvalidVote(_))
            ));
        }
    }

    // Dead mafia can't vote.
    assert!(matches!(
        game.cast_vote(client7_id, Some(client5_id), 0),
        Err(MafiaGameError::InvalidVote(_))
    ));
    game.cast_vote(client1_id, Some(client5_id), 0).unwrap();
    game.cast_vote(client2_id, Some(client6_id), 0).unwrap();
    game.cast_vote(client3_id, Some(client6_id), 0).unwrap();

    assert_eq!(
        game.poll_end_cycle(0),
        vec![
            Event::PlayerKilled {
                player: client5_id,
                cycle: Cycle::Night,
                death_message: String::from(night_death_messages()[0])
            },
            Event::PlayerInvestigated {
                actor: client3_id,
                target: client6_id,
                allegiance: Allegiance::Villagers,
            },
            Event::SetCycle {
                cycle: Cycle::Day,
                day_num: 3,
                start_time_unix_ts_secs: 0,
                duration_secs: 10
            }
        ]
    );

    // -- DAY 3 --
    // Everyone but the dead players can vote.
    for (_, client_id) in client_state.list_clients() {
        if client_id == client4_id
            || client_id == client5_id
            || client_id == client7_id
            || client_id == client8_id
        {
            assert!(matches!(
                game.cast_vote(client_id, None, 0),
                Err(MafiaGameError::InvalidVote(_))
            ));
        } else {
            // Votes to dead player fail.
            assert!(matches!(
                game.cast_vote(client_id, Some(client5_id), 0),
                Err(MafiaGameError::InvalidVote(_))
            ));

            game.cast_vote(client_id, Some(client1_id), 0).unwrap();
        }
    }

    assert_eq!(
        game.poll_end_cycle(0),
        vec![
            Event::PlayerKilled {
                player: client1_id,
                cycle: Cycle::Day,
                death_message: String::from(day_death_messages()[0])
            },
            Event::GameWon {
                player_to_role: HashMap::from_iter([
                    (client7_id.0, SpecialRole::Mafia),
                    (client1_id.0, SpecialRole::Mafia),
                    (client2_id.0, SpecialRole::Doctor),
                    (client3_id.0, SpecialRole::Detective)
                ]),
                side: Allegiance::Villagers
            }
        ]
    );

    // -- VILLAGERS WIN --
    // All votes fail.
    assert_eq!(game.get_winner(), Some(Allegiance::Villagers));

    for (_, client_id) in client_state.list_clients() {
        assert!(matches!(
            game.cast_vote(client_id, None, 0),
            Err(MafiaGameError::InvalidVote(_))
        ));
    }
}

#[test]
fn test_game_e2e_mafia_win() {
    let mut client_state = ClientState::new();

    let (client1_id, _) = client_state.connect_client("garnet", 0).unwrap();
    let (client2_id, _) = client_state.connect_client("amethyst", 0).unwrap();
    let (client3_id, _) = client_state.connect_client("pearl", 0).unwrap();
    let (client4_id, _) = client_state.connect_client("steven", 0).unwrap();
    let (client5_id, _) = client_state.connect_client("connie", 0).unwrap();
    let (client6_id, _) = client_state.connect_client("pink", 0).unwrap();
    let (client7_id, _) = client_state.connect_client("blue", 0).unwrap();

    let mut game = start_with_step_rng(
        GameConfig {
            start_cycle: Cycle::Day,
            time_for_day: 10,
            end_day_after_all_votes: true,
            time_for_night: 10,
            end_night_after_all_votes: true,
            num_special_roles: RoleCounts { mafia: 2, doctor: 1, detective: 1 },
            vote_grace_period: 0,
        },
        &client_state,
    )
    .unwrap();

    // Joined after the game started.
    let (_client8_id, _) = client_state.connect_client("yellow", 0).unwrap();

    assert_eq!(
        *game.get_player_roles(),
        HashMap::from_iter([
            (client7_id.0, SpecialRole::Mafia),
            (client1_id.0, SpecialRole::Mafia),
            (client2_id.0, SpecialRole::Doctor),
            (client3_id.0, SpecialRole::Detective)
        ]),
    );

    // -- DAY 1 --
    for client_id in game.get_players(is_alive).to_vec() {
        game.cast_vote(client_id, None, 0).unwrap();
    }

    assert_eq!(
        game.poll_end_cycle(0),
        vec![
            Event::FailedVote {
                cycle: Cycle::Day,
                channel: EventChannel::Public,
            },
            Event::SetCycle {
                cycle: Cycle::Night,
                day_num: 1,
                start_time_unix_ts_secs: 0,
                duration_secs: 10
            }
        ]
    );

    // -- NIGHT 1 --
    game.cast_vote(client7_id, Some(client4_id), 0).unwrap();
    game.cast_vote(client1_id, Some(client4_id), 0).unwrap();
    game.cast_vote(client2_id, None, 0).unwrap();
    game.cast_vote(client3_id, None, 0).unwrap();

    assert_eq!(
        game.poll_end_cycle(0),
        vec![
            Event::PlayerKilled {
                player: client4_id,
                cycle: Cycle::Night,
                death_message: String::from(night_death_messages()[0])
            },
            Event::SetCycle {
                cycle: Cycle::Day,
                day_num: 2,
                start_time_unix_ts_secs: 0,
                duration_secs: 10
            }
        ]
    );

    // -- DAY 2 --
    for client_id in game.get_players(is_alive).to_vec() {
        game.cast_vote(client_id, Some(client5_id), 0).unwrap();
    }

    assert_eq!(
        game.poll_end_cycle(0),
        vec![
            Event::PlayerKilled {
                player: client5_id,
                cycle: Cycle::Day,
                death_message: String::from(day_death_messages()[0])
            },
            Event::SetCycle {
                cycle: Cycle::Night,
                day_num: 2,
                start_time_unix_ts_secs: 0,
                duration_secs: 10
            }
        ]
    );

    // -- NIGHT 2 --
    game.cast_vote(client7_id, Some(client6_id), 0).unwrap();
    game.cast_vote(client1_id, Some(client6_id), 0).unwrap();
    game.cast_vote(client2_id, None, 0).unwrap();
    game.cast_vote(client3_id, None, 0).unwrap();

    assert_eq!(
        game.poll_end_cycle(0),
        vec![
            Event::PlayerKilled {
                player: client6_id,
                cycle: Cycle::Night,
                death_message: String::from(night_death_messages()[0])
            },
            Event::GameWon {
                player_to_role: HashMap::from_iter([
                    (client7_id.0, SpecialRole::Mafia),
                    (client1_id.0, SpecialRole::Mafia),
                    (client2_id.0, SpecialRole::Doctor),
                    (client3_id.0, SpecialRole::Detective)
                ]),
                side: Allegiance::Mafia
            }
        ]
    );

    // -- MAFIA WIN --
    assert_eq!(game.get_winner(), Some(Allegiance::Mafia));
}

#[test]
fn test_game_e2e_villagers_win() {
    let mut client_state = ClientState::new();

    let (client1_id, _) = client_state.connect_client("garnet", 0).unwrap();
    let (client2_id, _) = client_state.connect_client("amethyst", 0).unwrap();
    let (client3_id, _) = client_state.connect_client("pearl", 0).unwrap();
    let (client4_id, _) = client_state.connect_client("steven", 0).unwrap();
    let (_client5_id, _) = client_state.connect_client("connie", 0).unwrap();
    let (client6_id, _) = client_state.connect_client("pink", 0).unwrap();
    let (client7_id, _) = client_state.connect_client("blue", 0).unwrap();

    let mut game = start_with_step_rng(
        GameConfig {
            start_cycle: Cycle::Day,
            time_for_day: 10,
            end_day_after_all_votes: true,
            time_for_night: 10,
            end_night_after_all_votes: true,
            num_special_roles: RoleCounts { mafia: 2, doctor: 1, detective: 1 },
            vote_grace_period: 0,
        },
        &client_state,
    )
    .unwrap();

    // Joined after the game started.
    let (_client8_id, _) = client_state.connect_client("yellow", 0).unwrap();

    assert_eq!(
        *game.get_player_roles(),
        HashMap::from_iter([
            (client7_id.0, SpecialRole::Mafia),
            (client1_id.0, SpecialRole::Mafia),
            (client2_id.0, SpecialRole::Doctor),
            (client3_id.0, SpecialRole::Detective)
        ]),
    );

    // -- DAY 1 --
    for client_id in game.get_players(is_alive).to_vec() {
        game.cast_vote(client_id, None, 0).unwrap();
    }

    assert_eq!(
        game.poll_end_cycle(0),
        vec![
            Event::FailedVote {
                cycle: Cycle::Day,
                channel: EventChannel::Public,
            },
            Event::SetCycle {
                cycle: Cycle::Night,
                day_num: 1,
                start_time_unix_ts_secs: 0,
                duration_secs: 10
            }
        ]
    );

    // -- NIGHT 1 --
    game.cast_vote(client7_id, Some(client4_id), 0).unwrap();
    game.cast_vote(client1_id, Some(client4_id), 0).unwrap();
    game.cast_vote(client2_id, None, 0).unwrap();
    game.cast_vote(client3_id, None, 0).unwrap();

    assert_eq!(
        game.poll_end_cycle(0),
        vec![
            Event::PlayerKilled {
                player: client4_id,
                cycle: Cycle::Night,
                death_message: String::from(night_death_messages()[0])
            },
            Event::SetCycle {
                cycle: Cycle::Day,
                day_num: 2,
                start_time_unix_ts_secs: 0,
                duration_secs: 10
            }
        ]
    );

    // -- DAY 2 --
    for client_id in game.get_players(is_alive).to_vec() {
        game.cast_vote(client_id, Some(client7_id), 0).unwrap();
    }

    assert_eq!(
        game.poll_end_cycle(0),
        vec![
            Event::PlayerKilled {
                player: client7_id,
                cycle: Cycle::Day,
                death_message: String::from(day_death_messages()[0])
            },
            Event::SetCycle {
                cycle: Cycle::Night,
                day_num: 2,
                start_time_unix_ts_secs: 0,
                duration_secs: 10
            }
        ]
    );

    // -- NIGHT 2 --
    game.cast_vote(client1_id, Some(client6_id), 0).unwrap();
    game.cast_vote(client2_id, None, 0).unwrap();
    game.cast_vote(client3_id, None, 0).unwrap();

    assert_eq!(
        game.poll_end_cycle(0),
        vec![
            Event::PlayerKilled {
                player: client6_id,
                cycle: Cycle::Night,
                death_message: String::from(night_death_messages()[0])
            },
            Event::SetCycle {
                cycle: Cycle::Day,
                day_num: 3,
                start_time_unix_ts_secs: 0,
                duration_secs: 10
            }
        ]
    );

    // -- DAY 3 --
    for client_id in game.get_players(is_alive).to_vec() {
        game.cast_vote(client_id, Some(client1_id), 0).unwrap();
    }

    assert_eq!(
        game.poll_end_cycle(0),
        vec![
            Event::PlayerKilled {
                player: client1_id,
                cycle: Cycle::Day,
                death_message: String::from(day_death_messages()[0])
            },
            Event::GameWon {
                player_to_role: HashMap::from_iter([
                    (client7_id.0, SpecialRole::Mafia),
                    (client1_id.0, SpecialRole::Mafia),
                    (client2_id.0, SpecialRole::Doctor),
                    (client3_id.0, SpecialRole::Detective)
                ]),
                side: Allegiance::Villagers
            }
        ]
    );

    // -- VILLAGERS WIN --
    assert_eq!(game.get_winner(), Some(Allegiance::Villagers));
}

#[test]
fn test_game_e2e_doctor_investigator() {
    let mut client_state = ClientState::new();

    let (client1_id, _) = client_state.connect_client("garnet", 0).unwrap();
    let (client2_id, _) = client_state.connect_client("amethyst", 0).unwrap();
    let (client3_id, _) = client_state.connect_client("pearl", 0).unwrap();
    let (client4_id, _) = client_state.connect_client("steven", 0).unwrap();
    let (_client5_id, _) = client_state.connect_client("connie", 0).unwrap();
    let (_client6_id, _) = client_state.connect_client("pink", 0).unwrap();
    let (client7_id, _) = client_state.connect_client("blue", 0).unwrap();

    let mut game = start_with_step_rng(
        GameConfig {
            start_cycle: Cycle::Day,
            time_for_day: 10,
            end_day_after_all_votes: true,
            time_for_night: 10,
            end_night_after_all_votes: true,
            num_special_roles: RoleCounts { mafia: 2, doctor: 1, detective: 1 },
            vote_grace_period: 0,
        },
        &client_state,
    )
    .unwrap();

    // Joined after the game started.
    let (_client8_id, _) = client_state.connect_client("yellow", 0).unwrap();

    assert_eq!(
        *game.get_player_roles(),
        HashMap::from_iter([
            (client7_id.0, SpecialRole::Mafia),
            (client1_id.0, SpecialRole::Mafia),
            (client2_id.0, SpecialRole::Doctor),
            (client3_id.0, SpecialRole::Detective)
        ]),
    );

    // -- DAY 1 --
    for client_id in game.get_players(is_alive).to_vec() {
        game.cast_vote(client_id, None, 0).unwrap();
    }

    assert_eq!(
        game.poll_end_cycle(0),
        vec![
            Event::FailedVote {
                cycle: Cycle::Day,
                channel: EventChannel::Public,
            },
            Event::SetCycle {
                cycle: Cycle::Night,
                day_num: 1,
                start_time_unix_ts_secs: 0,
                duration_secs: 10
            }
        ]
    );

    // -- NIGHT 1 --
    game.cast_vote(client7_id, Some(client4_id), 0).unwrap();
    game.cast_vote(client1_id, Some(client4_id), 0).unwrap();
    game.cast_vote(client2_id, Some(client4_id), 0).unwrap();
    game.cast_vote(client3_id, Some(client7_id), 0).unwrap();

    assert_eq!(
        game.poll_end_cycle(0),
        vec![
            Event::PlayerInvestigated {
                actor: client3_id,
                target: client7_id,
                allegiance: Allegiance::Mafia,
            },
            Event::SetCycle {
                cycle: Cycle::Day,
                day_num: 2,
                start_time_unix_ts_secs: 0,
                duration_secs: 10
            }
        ]
    );

    // -- DAY 2 --
    assert_eq!(game.get_players(is_alive).count(), 7);

    for client_id in game.get_players(is_alive).to_vec() {
        game.cast_vote(client_id, Some(client7_id), 0).unwrap();
    }

    assert_eq!(
        game.poll_end_cycle(0),
        vec![
            Event::PlayerKilled {
                player: client7_id,
                cycle: Cycle::Day,
                death_message: String::from(day_death_messages()[0])
            },
            Event::SetCycle {
                cycle: Cycle::Night,
                day_num: 2,
                start_time_unix_ts_secs: 0,
                duration_secs: 10
            }
        ]
    );

    // -- NIGHT 2 --
    assert_eq!(game.get_players(is_alive).count(), 6);

    game.cast_vote(client1_id, Some(client3_id), 0).unwrap();
    game.cast_vote(client2_id, Some(client3_id), 0).unwrap();
    game.cast_vote(client3_id, Some(client1_id), 0).unwrap();

    assert_eq!(
        game.poll_end_cycle(0),
        vec![
            Event::PlayerInvestigated {
                actor: client3_id,
                target: client1_id,
                allegiance: Allegiance::Mafia,
            },
            Event::SetCycle {
                cycle: Cycle::Day,
                day_num: 3,
                start_time_unix_ts_secs: 0,
                duration_secs: 10
            }
        ]
    );

    // -- DAY 3 --
    assert_eq!(game.get_players(is_alive).count(), 6);

    for client_id in game.get_players(is_alive).to_vec() {
        game.cast_vote(client_id, Some(client1_id), 0).unwrap();
    }

    assert_eq!(
        game.poll_end_cycle(0),
        vec![
            Event::PlayerKilled {
                player: client1_id,
                cycle: Cycle::Day,
                death_message: String::from(day_death_messages()[0])
            },
            Event::GameWon {
                player_to_role: HashMap::from_iter([
                    (client7_id.0, SpecialRole::Mafia),
                    (client1_id.0, SpecialRole::Mafia),
                    (client2_id.0, SpecialRole::Doctor),
                    (client3_id.0, SpecialRole::Detective)
                ]),
                side: Allegiance::Villagers
            }
        ]
    );

    // -- VILLAGERS WIN --
    assert_eq!(game.get_players(is_alive).count(), 5);
    assert_eq!(game.get_winner(), Some(Allegiance::Villagers));
}
