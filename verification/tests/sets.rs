use mafia_game::client_set::ClientSet;
use mafia_game::client_set::MAX_PLAYERS;
use mafia_game::Allegiance;
use mafia_game::ClientId;
use mafia_game::Cycle;
use mafia_game::Entity;
use mafia_game::Event;
use mafia_game::EventChannel;
use mafia_game::Message;
use mafia_game::SpecialRole;

fn ids(set: &ClientSet) -> Vec<usize> {
    set.to_vec().into_iter().map(|id| id.0).collect()
}

#[test]
fn roles_have_their_side() {
    assert_eq!(SpecialRole::Mafia.allegiance(), Allegiance::Mafia);
    assert_eq!(SpecialRole::Doctor.allegiance(), Allegiance::Villagers);
    assert_eq!(SpecialRole::Detective.allegiance(), Allegiance::Villagers);
}

#[test]
fn day_and_night_alternate() {
    assert_eq!(Cycle::Day.next(), Cycle::Night);
    assert_eq!(Cycle::Night.next(), Cycle::Day);
    assert_eq!(Cycle::Day.next().next(), Cycle::Day);
}

#[test]
fn a_message_becomes_its_event() {
    let message = Message {
        channel: EventChannel::Public,
        contents: String::from("hi"),
        from: Entity::System,
    };
    assert_eq!(Event::from(message.clone()), Event::MessageReceived(message));
}

#[test]
fn new_set_is_empty() {
    let set = ClientSet::new();
    assert_eq!(set.count(), 0);
    assert_eq!(ids(&set), Vec::<usize>::new());
    assert_eq!(ClientSet::default(), set);
}

#[test]
fn insert_and_remove_report_change() {
    let mut set = ClientSet::new();
    assert!(set.insert(ClientId(3)));
    assert!(!set.insert(ClientId(3)));
    assert!(set.insert(ClientId(0)));
    assert!(set.insert(ClientId(63)));
    assert_eq!(set.count(), 3);
    assert_eq!(ids(&set), vec![0, 3, 63]);
    assert!(set.contains(ClientId(63)));
    assert!(!set.contains(ClientId(62)));
    assert!(set.remove(ClientId(3)));
    assert!(!set.remove(ClientId(3)));
    assert_eq!(ids(&set), vec![0, 63]);
}

#[test]
fn ids_outside_the_pool_are_never_members() {
    let mut set = ClientSet::new();
    assert!(!set.insert(ClientId(MAX_PLAYERS)));
    assert!(!set.insert(ClientId(usize::MAX)));
    assert_eq!(set.count(), 0);
    assert!(!set.contains(ClientId(MAX_PLAYERS)));
    assert!(!set.remove(ClientId(MAX_PLAYERS)));
    assert_eq!(ClientSet::from(ClientId(64)).count(), 0);
    assert_eq!(ids(&ClientSet::from_ids(&[ClientId(1), ClientId(64)])), vec![1]);
}

#[test]
fn singleton_holds_its_id() {
    let set = ClientSet::from(ClientId(5));
    assert_eq!(ids(&set), vec![5]);
}

#[test]
fn from_ids_ignores_repeats() {
    let set = ClientSet::from_ids(&[ClientId(2), ClientId(1), ClientId(2)]);
    assert_eq!(ids(&set), vec![1, 2]);
    assert_eq!(set.count(), 2);
}

#[test]
fn set_algebra() {
    let a = ClientSet::from_ids(&[ClientId(1), ClientId(2), ClientId(3)]);
    let b = ClientSet::from_ids(&[ClientId(3), ClientId(4)]);

    let mut union = a;
    union.union_with(&b);
    assert_eq!(ids(&union), vec![1, 2, 3, 4]);

    let mut common = a;
    common.intersect_with(&b);
    assert_eq!(ids(&common), vec![3]);

    let mut rest = a;
    rest.difference_with(&b);
    assert_eq!(ids(&rest), vec![1, 2]);

    assert!(a.same_as(&ClientSet::from_ids(&[ClientId(3), ClientId(2), ClientId(1)])));
    assert!(!a.same_as(&b));
}

#[test]
fn a_full_set_has_the_whole_pool() {
    let mut set = ClientSet::new();
    for id in 0..MAX_PLAYERS {
        assert!(set.insert(ClientId(id)));
    }
    assert_eq!(set.count(), MAX_PLAYERS);
    assert_eq!(ids(&set), (0..MAX_PLAYERS).collect::<Vec<_>>());
}

#[test]
fn a_raised_flag_is_seen_by_every_holder() {
    let flag = mafia_game::ticker::TickerShutdown::new();
    let other = flag.clone();
    assert!(!flag.is_shutdown());
    assert!(!other.is_shutdown());
    other.do_shutdown();
    assert!(flag.is_shutdown());
    assert!(other.is_shutdown());
}
