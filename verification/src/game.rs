//! The game engine: role assignment, voting, and the resolution of each day
//! and night, stated over a mathematical model of the game.

use crate::client::ClientState;
use crate::client::RegistryView;
use crate::client_set::ascending_ids;
use crate::client_set::lemma_bounded_set;
use crate::client_set::ClientSet;
use crate::client_set::MAX_PLAYERS;
use crate::consts::day_death_messages;
use crate::consts::day_death_texts;
use crate::consts::night_death_messages;
use crate::consts::night_death_texts;
use crate::consts::texts_of;
use crate::error::ConfigFault;
use crate::error::MafiaGameError;
use crate::error::PlayerShortage;
use crate::error::VoteRejection;
use crate::types::event_views;
use crate::types::lemma_event_views_push;
use crate::types::side_of;
use crate::types::Allegiance;
use crate::types::ClientId;
use crate::types::Cycle;
use crate::types::Event;
use crate::types::EventChannel;
use crate::types::EventView;
use crate::types::PlayerStatus;
use crate::types::SpecialRole;
use std::collections::HashMap;
use vstd::prelude::*;

verus! {

/// The day on which a game that is still undecided is awarded to the Mafia.
pub const MAX_DAYS: usize = 100;

/// How many players hold each special role.
#[derive(Copy, Clone, PartialEq, Eq, Debug)]
pub struct RoleCounts {
    pub mafia: usize,
    pub doctor: usize,
    pub detective: usize,
}

impl RoleCounts {
    /// The number of players with `role`.
    pub open spec fn count(self, role: SpecialRole) -> usize {
        match role {
            SpecialRole::Mafia => self.mafia,
            SpecialRole::Doctor => self.doctor,
            SpecialRole::Detective => self.detective,
        }
    }

    /// The number of players with a special role.
    pub open spec fn total(self) -> int {
        self.mafia + self.doctor + self.detective
    }

    /// The number of players with `role`.
    pub fn get(&self, role: SpecialRole) -> (n: usize)
        ensures
            n == self.count(role),
    {
        match role {
            SpecialRole::Mafia => self.mafia,
            SpecialRole::Doctor => self.doctor,
            SpecialRole::Detective => self.detective,
        }
    }
}

/// The rules of one game. Times are in seconds.
#[derive(Copy, Clone, PartialEq, Eq, Debug)]
pub struct GameConfig {
    pub start_cycle: Cycle,
    pub time_for_day: u64,
    /// End the day early once every living player has voted.
    pub end_day_after_all_votes: bool,
    pub time_for_night: u64,
    /// End the night early once every living player with a role has voted.
    pub end_night_after_all_votes: bool,
    pub num_special_roles: RoleCounts,
    /// Time after a cycle's start during which votes are rejected.
    pub vote_grace_period: u64,
}

impl GameConfig {
    /// How long a cycle lasts.
    pub open spec fn duration_of(self, cycle: Cycle) -> u64 {
        match cycle {
            Cycle::Day => self.time_for_day,
            Cycle::Night => self.time_for_night,
        }
    }
}

/// What a game is: the model that the contracts of `Game` speak of. Players
/// are named by the number of their client id.
pub struct GameView {
    pub config: GameConfig,
    /// The players of each role, in the order in which they were assigned.
    pub role_to_players: Map<SpecialRole, Seq<usize>>,
    pub player_to_role: Map<usize, SpecialRole>,
    pub player_status: Map<usize, PlayerStatus>,
    pub cycle: Cycle,
    pub day_num: usize,
    /// When the current cycle began, in seconds since the Unix epoch.
    pub cycle_start: u64,
    /// Who voted for whom in this cycle; `None` is an explicit skip.
    pub votes: Map<usize, Option<ClientId>>,
    pub winner: Option<Allegiance>,
}

/// A state together with the events that led to it.
pub struct Step {
    pub game: GameView,
    pub events: Seq<EventView>,
}

/// The text that announces a death in `cycle` unless another is picked.
pub open spec fn default_death_text(cycle: Cycle) -> Seq<char> {
    match cycle {
        Cycle::Day => day_death_texts()[0],
        Cycle::Night => night_death_texts()[0],
    }
}

impl GameView {
    /// The special role of player `p`, if it has one.
    pub open spec fn role_of(self, p: usize) -> Option<SpecialRole> {
        if self.player_to_role.contains_key(p) {
            Some(self.player_to_role[p])
        } else {
            None
        }
    }

    /// Whether player `p` is alive or dead; nothing for a client that does
    /// not play.
    pub open spec fn status_of(self, p: usize) -> Option<PlayerStatus> {
        if self.player_status.contains_key(p) {
            Some(self.player_status[p])
        } else {
            None
        }
    }

    /// The side of `p`: the villagers' unless it holds a Mafia role.
    pub open spec fn side(self, p: usize) -> Allegiance {
        side_of(self.role_of(p))
    }

    /// Whether `p` is a living player.
    pub open spec fn is_alive(self, p: usize) -> bool {
        self.status_of(p) == Some(PlayerStatus::Alive)
    }

    /// The living players.
    pub open spec fn alive(self) -> Set<usize> {
        Set::new(|p: usize| self.is_alive(p))
    }

    /// The living players on the Mafia's side.
    pub open spec fn alive_mafia(self) -> Set<usize> {
        Set::new(|p: usize| self.is_alive(p) && self.side(p) == Allegiance::Mafia)
    }

    /// The living players on the villagers' side.
    pub open spec fn alive_villagers(self) -> Set<usize> {
        Set::new(|p: usize| self.is_alive(p) && self.side(p) == Allegiance::Villagers)
    }

    /// The living players with a special role: those who act at night.
    pub open spec fn alive_with_role(self) -> Set<usize> {
        Set::new(|p: usize| self.is_alive(p) && self.role_of(p) is Some)
    }

    /// Whose votes decide in `cycle`: by day all living players, by night
    /// the living Mafia.
    pub open spec fn electorate(self, cycle: Cycle) -> Set<usize> {
        match cycle {
            Cycle::Day => self.alive(),
            Cycle::Night => self.alive_mafia(),
        }
    }

    /// Whether `voter` has cast a vote against `target` that counts in
    /// `cycle`: by night only the Mafia's votes count.
    pub open spec fn counts_for(self, cycle: Cycle, voter: usize, target: usize) -> bool {
        &&& self.votes.contains_key(voter)
        &&& self.votes[voter] == Some(ClientId(target))
        &&& cycle == Cycle::Night ==> self.side(voter) == Allegiance::Mafia
    }

    /// The voters whose vote against `target` counts in `cycle`.
    pub open spec fn ballots(self, cycle: Cycle, target: usize) -> Set<usize> {
        Set::new(|voter: usize| self.counts_for(cycle, voter, target))
    }

    /// Whether more than half of the electorate voted against `target`.
    pub open spec fn has_majority(self, cycle: Cycle, target: usize) -> bool {
        self.ballots(cycle, target).len() * 2 > self.electorate(cycle).len()
    }

    /// The player that a strict majority voted against, if there is one.
    pub open spec fn majority_target(self, cycle: Cycle) -> Option<usize> {
        if exists|t: usize| self.has_majority(cycle, t) {
            Some(choose|t: usize| self.has_majority(cycle, t))
        } else {
            None
        }
    }

    /// Whether a doctor voted for `target` in this cycle.
    pub open spec fn is_protected(self, target: usize) -> bool {
        exists|d: usize|
            self.role_of(d) == Some(SpecialRole::Doctor) && #[trigger] self.votes.contains_key(d)
                && self.votes[d] == Some(ClientId(target))
    }

    /// The game after `p` has died.
    pub open spec fn kill(self, p: usize) -> GameView {
        GameView { player_status: self.player_status.insert(p, PlayerStatus::Dead), ..self }
    }

    /// The announcement of `p`'s death in the current cycle.
    pub open spec fn death_of(self, p: usize) -> EventView {
        EventView::PlayerKilled {
            player: ClientId(p),
            cycle: self.cycle,
            death_message: default_death_text(self.cycle),
        }
    }

    /// Whether the detective `actor` learns something: it is alive and has
    /// voted for a player that is alive.
    pub open spec fn finds(self, actor: usize) -> bool {
        &&& self.is_alive(actor)
        &&& self.votes.contains_key(actor)
        &&& self.votes[actor] is Some
        &&& self.is_alive(self.votes[actor].unwrap().0)
    }

    /// What the first `n` detectives learned, in the order of their
    /// assignment: each one that is alive and has voted for a living player
    /// learns that player's side.
    pub open spec fn investigations(self, n: int) -> Seq<EventView>
        decreases n,
    {
        if n <= 0 {
            Seq::empty()
        } else {
            let actor = self.role_to_players[SpecialRole::Detective][n - 1];
            let before = self.investigations(n - 1);
            if self.finds(actor) {
                let target = self.votes[actor].unwrap();
                before.push(
                    EventView::PlayerInvestigated {
                        actor: ClientId(actor),
                        target,
                        allegiance: self.side(target.0),
                    },
                )
            } else {
                before
            }
        }
    }

    /// The outcome of the day's vote: the majority's target dies, or the vote
    /// fails in public.
    pub open spec fn resolve_day(self) -> Step {
        match self.majority_target(Cycle::Day) {
            Some(t) => Step { game: self.kill(t), events: seq![self.death_of(t)] },
            None => Step {
                game: self,
                events: seq![
                    EventView::FailedVote { cycle: Cycle::Day, channel: EventChannel::Public },
                ],
            },
        }
    }

    /// The outcome of the Mafia's vote by night: their target dies unless a
    /// doctor protected it; without a majority the vote fails among the Mafia.
    pub open spec fn resolve_night_kill(self) -> Step {
        match self.majority_target(Cycle::Night) {
            Some(t) => if self.is_protected(t) {
                Step { game: self, events: Seq::empty() }
            } else {
                Step { game: self.kill(t), events: seq![self.death_of(t)] }
            },
            None => Step {
                game: self,
                events: seq![
                    EventView::FailedVote { cycle: Cycle::Night, channel: EventChannel::Mafia },
                ],
            },
        }
    }

    /// The deaths and findings of the cycle that ends: first the death or the
    /// failed vote, then, by night, what the detectives learned who outlived
    /// the night about players who outlived it.
    pub open spec fn resolve(self) -> Step {
        match self.cycle {
            Cycle::Day => self.resolve_day(),
            Cycle::Night => {
                let kill = self.resolve_night_kill();
                Step {
                    game: kill.game,
                    events: kill.events + kill.game.investigations(
                        self.role_to_players[SpecialRole::Detective].len() as int,
                    ),
                }
            },
        }
    }

    /// Who has won, if anyone: the villagers once no Mafia lives; the Mafia
    /// once they are at least half of the living, or when the last day is
    /// reached.
    pub open spec fn verdict(self) -> Option<Allegiance> {
        if self.alive_mafia().len() == 0 {
            Some(Allegiance::Villagers)
        } else if self.alive_mafia().len() * 2 >= self.alive().len() {
            Some(Allegiance::Mafia)
        } else if self.day_num >= MAX_DAYS {
            Some(Allegiance::Mafia)
        } else {
            None
        }
    }

    /// The game in its next cycle, which starts at `now`: the votes are
    /// cleared, and a new day raises the day counter.
    pub open spec fn advance(self, now: u64) -> GameView {
        GameView {
            votes: Map::empty(),
            cycle: self.cycle.flip(),
            cycle_start: now,
            day_num: if self.cycle.flip() == Cycle::Day {
                (self.day_num + 1) as usize
            } else {
                self.day_num
            },
            ..self
        }
    }

    /// What follows the deaths: the game is won, or the next cycle starts at
    /// `now`.
    pub open spec fn conclude(self, now: u64) -> Step {
        match self.verdict() {
            Some(side) => Step {
                game: GameView { winner: Some(side), ..self },
                events: seq![EventView::GameWon { player_to_role: self.player_to_role, side }],
            },
            None => {
                let next = self.advance(now);
                Step {
                    game: next,
                    events: seq![
                        EventView::SetCycle {
                            start_time_unix_ts_secs: now,
                            duration_secs: next.config.duration_of(next.cycle),
                            cycle: next.cycle,
                            day_num: next.day_num,
                        },
                    ],
                }
            },
        }
    }

    /// The end of the current cycle at time `now`. A game that is won stays
    /// as it is and yields no event.
    pub open spec fn end_cycle(self, now: u64) -> Step {
        if self.winner is Some {
            Step { game: self, events: Seq::empty() }
        } else {
            let resolved = self.resolve();
            let concluded = resolved.game.conclude(now);
            Step { game: concluded.game, events: resolved.events + concluded.events }
        }
    }

    /// The seconds from the cycle's start to `now`; none if the clock went
    /// back.
    pub open spec fn elapsed(self, now: u64) -> int {
        if now >= self.cycle_start {
            now - self.cycle_start
        } else {
            0
        }
    }

    /// Whether everyone who may vote in this cycle has voted, where the
    /// configuration lets that end the cycle.
    pub open spec fn all_votes_in(self) -> bool {
        match self.cycle {
            Cycle::Day => self.config.end_day_after_all_votes && self.votes.dom().len()
                == self.alive().len(),
            Cycle::Night => self.config.end_night_after_all_votes && self.votes.dom().len()
                == self.alive_with_role().len(),
        }
    }

    /// Whether the cycle ends at `now`: its time is up, or all votes are in.
    pub open spec fn is_due(self, now: u64) -> bool {
        self.elapsed(now) > self.config.duration_of(self.cycle) || self.all_votes_in()
    }

    /// Polling at `now`: the cycle ends if it is due.
    pub open spec fn poll(self, now: u64) -> Step {
        if self.winner is None && self.is_due(now) {
            self.end_cycle(now)
        } else {
            Step { game: self, events: Seq::empty() }
        }
    }

    /// Why `voter` may not vote for `target` at `now`, if so.
    pub open spec fn vote_rejection(
        self,
        voter: ClientId,
        target: Option<ClientId>,
        now: u64,
    ) -> Option<VoteRejection> {
        if self.winner is Some {
            Some(VoteRejection::GameComplete)
        } else if !self.is_alive(voter.0) {
            Some(VoteRejection::VoterNotAlive(voter))
        } else if target is Some && !self.is_alive(target.unwrap().0) {
            Some(VoteRejection::TargetNotAlive(target.unwrap()))
        } else if self.elapsed(now) < self.config.vote_grace_period {
            Some(VoteRejection::GracePeriod(self.config.vote_grace_period))
        } else if self.cycle == Cycle::Night && self.role_of(voter.0) is None {
            Some(VoteRejection::RoleCannotVote(voter, Cycle::Night))
        } else {
            None
        }
    }

    /// The game after `voter` has voted for `target`: the vote replaces any
    /// earlier vote of `voter` in this cycle.
    pub open spec fn with_vote(self, voter: ClientId, target: Option<ClientId>) -> GameView {
        GameView { votes: self.votes.insert(voter.0, target), ..self }
    }

    /// What holds of the roles, the players and the counters of every game.
    pub open spec fn shape(self) -> bool {
        &&& forall|p: usize| self.player_status.contains_key(p) ==> p < MAX_PLAYERS
        &&& forall|p: usize|
            self.player_to_role.contains_key(p) ==> self.player_status.contains_key(p)
        &&& forall|r: SpecialRole| self.role_to_players.contains_key(r)
        &&& forall|r: SpecialRole| (#[trigger] self.role_to_players[r]).no_duplicates()
        &&& forall|r: SpecialRole, p: usize|
            (#[trigger] self.role_to_players[r].contains(p)) <==> self.role_of(p) == Some(r)
        &&& forall|r: SpecialRole|
            (#[trigger] self.role_to_players[r]).len() == self.config.num_special_roles.count(r)
        &&& 1 <= self.day_num <= MAX_DAYS
        &&& forall|v: usize| self.votes.contains_key(v) ==> self.player_status.contains_key(v)
        &&& forall|v: usize|
            self.votes.contains_key(v) && self.votes[v] is Some
                ==> self.player_status.contains_key(self.votes[v].unwrap().0)
    }

    /// While the game is undecided, every vote is one of a living player for
    /// a living player or for nobody, and by night of a player with a role.
    pub open spec fn votes_valid(self) -> bool {
        self.winner is None ==> forall|v: usize| #[trigger]
            self.votes.contains_key(v) ==> {
                &&& self.is_alive(v)
                &&& self.cycle == Cycle::Night ==> self.role_of(v) is Some
                &&& self.votes[v] is Some ==> self.is_alive(self.votes[v].unwrap().0)
            }
    }

    /// The invariant of a game.
    pub open spec fn wf(self) -> bool {
        self.shape() && self.votes_valid()
    }
}


/// The sets of players that the rules count are finite and lie in the id pool.
pub proof fn lemma_player_sets(g: GameView)
    requires
        g.shape(),
    ensures
        g.alive().finite() && g.alive().len() <= MAX_PLAYERS,
        g.alive_mafia().finite() && g.alive_mafia().len() <= g.alive().len(),
        g.alive_villagers().finite() && g.alive_villagers().len() <= g.alive().len(),
        g.alive_with_role().finite() && g.alive_with_role().len() <= g.alive().len(),
        g.votes.dom().finite() && g.votes.dom().len() <= MAX_PLAYERS,
        forall|c: Cycle, t: usize|
            (#[trigger] g.ballots(c, t)).finite() && g.ballots(c, t).len() <= MAX_PLAYERS,
        forall|c: Cycle| (#[trigger] g.electorate(c)).finite(),
{
    lemma_bounded_set(g.alive(), MAX_PLAYERS as int);
    lemma_bounded_set(g.votes.dom(), MAX_PLAYERS as int);
    assert(g.alive_mafia().subset_of(g.alive()));
    assert(g.alive_villagers().subset_of(g.alive()));
    assert(g.alive_with_role().subset_of(g.alive()));
    vstd::set_lib::lemma_len_subset(g.alive_mafia(), g.alive());
    vstd::set_lib::lemma_len_subset(g.alive_villagers(), g.alive());
    vstd::set_lib::lemma_len_subset(g.alive_with_role(), g.alive());
    assert forall|c: Cycle, t: usize|
        (#[trigger] g.ballots(c, t)).finite() && g.ballots(c, t).len() <= MAX_PLAYERS by {
        lemma_bounded_set(g.ballots(c, t), MAX_PLAYERS as int);
    }
}

/// In an undecided game at most one player can have a strict majority
/// against them: every voter is in the electorate and votes once.
pub proof fn lemma_majority_unique(g: GameView, t1: usize, t2: usize)
    requires
        g.wf(),
        g.winner is None,
        g.has_majority(g.cycle, t1),
        g.has_majority(g.cycle, t2),
    ensures
        t1 == t2,
{
    lemma_player_sets(g);
    let c = g.cycle;
    let b1 = g.ballots(c, t1);
    let b2 = g.ballots(c, t2);
    let e = g.electorate(c);
    if t1 != t2 {
        assert(b1.disjoint(b2));
        assert(b1.union(b2).subset_of(e));
        vstd::set_lib::lemma_set_disjoint_lens(b1, b2);
        vstd::set_lib::lemma_len_subset(b1.union(b2), e);
    }
}

/// In an undecided game only a living player can have a majority against
/// them.
pub proof fn lemma_majority_is_alive(g: GameView, t: usize)
    requires
        g.wf(),
        g.winner is None,
        g.has_majority(g.cycle, t),
    ensures
        g.is_alive(t),
        t < MAX_PLAYERS,
{
    lemma_player_sets(g);
    let b = g.ballots(g.cycle, t);
    if !g.is_alive(t) {
        assert(b =~= Set::<usize>::empty());
    }
}

/// Whether a player is alive.
pub fn is_alive(st: PlayerStatus, _role: Option<SpecialRole>, _allegiance: Allegiance) -> (yes:
    bool)
    ensures
        yes == (st == PlayerStatus::Alive),
{
    st == PlayerStatus::Alive
}

/// Whether a player is alive and on the Mafia's side.
pub fn is_alive_and_mafia(
    st: PlayerStatus,
    _role: Option<SpecialRole>,
    allegiance: Allegiance,
) -> (yes: bool)
    ensures
        yes == (st == PlayerStatus::Alive && allegiance == Allegiance::Mafia),
{
    st == PlayerStatus::Alive && allegiance == Allegiance::Mafia
}

/// Whether a player is alive and on the villagers' side.
pub fn is_alive_and_villager(
    st: PlayerStatus,
    _role: Option<SpecialRole>,
    allegiance: Allegiance,
) -> (yes: bool)
    ensures
        yes == (st == PlayerStatus::Alive && allegiance == Allegiance::Villagers),
{
    st == PlayerStatus::Alive && allegiance == Allegiance::Villagers
}

/// Whether a player is alive and holds a special role.
pub fn is_alive_with_role(
    st: PlayerStatus,
    role: Option<SpecialRole>,
    _allegiance: Allegiance,
) -> (yes: bool)
    ensures
        yes == (st == PlayerStatus::Alive && role is Some),
{
    st == PlayerStatus::Alive && role.is_some()
}

/// State of a game.
pub struct Game {
    config: GameConfig,
    mafia: Vec<usize>,
    doctors: Vec<usize>,
    detectives: Vec<usize>,
    player_to_role: HashMap<usize, SpecialRole>,
    player_status: HashMap<usize, PlayerStatus>,
    cycle: Cycle,
    day_num: usize,
    cycle_start: u64,
    votes: HashMap<usize, Option<ClientId>>,
    winner: Option<Allegiance>,
}

/// The players of each role as a table.
pub open spec fn role_table(mafia: Seq<usize>, doctors: Seq<usize>, detectives: Seq<usize>) -> Map<
    SpecialRole,
    Seq<usize>,
> {
    Map::new(
        |r: SpecialRole| true,
        |r: SpecialRole|
            match r {
                SpecialRole::Mafia => mafia,
                SpecialRole::Doctor => doctors,
                SpecialRole::Detective => detectives,
            },
    )
}

impl View for Game {
    type V = GameView;

    closed spec fn view(&self) -> GameView {
        GameView {
            config: self.config,
            role_to_players: role_table(self.mafia@, self.doctors@, self.detectives@),
            player_to_role: self.player_to_role@,
            player_status: self.player_status@,
            cycle: self.cycle,
            day_num: self.day_num,
            cycle_start: self.cycle_start,
            votes: self.votes@,
            winner: self.winner,
        }
    }
}

impl Game {
    /// The invariant of a game.
    pub open spec fn wf(&self) -> bool {
        self@.wf()
    }

    pub fn get_player_roles(&self) -> (roles: &HashMap<usize, SpecialRole>)
        ensures
            roles@ == self@.player_to_role,
    {
        &self.player_to_role
    }

    pub fn get_player_statuses(&self) -> (statuses: &HashMap<usize, PlayerStatus>)
        ensures
            statuses@ == self@.player_status,
    {
        &self.player_status
    }

    pub fn get_votes(&self) -> (votes: &HashMap<usize, Option<ClientId>>)
        ensures
            votes@ == self@.votes,
    {
        &self.votes
    }

    pub fn get_player_status(&self, client_id: ClientId) -> (status: Option<PlayerStatus>)
        ensures
            status == self@.status_of(client_id.0),
    {
        match self.player_status.get(&client_id.0) {
            Some(st) => Some(*st),
            None => None,
        }
    }

    pub fn get_player_role(&self, client_id: ClientId) -> (role: Option<SpecialRole>)
        ensures
            role == self@.role_of(client_id.0),
    {
        match self.player_to_role.get(&client_id.0) {
            Some(r) => Some(*r),
            None => None,
        }
    }

    /// The side of a client: the villagers' unless it holds a Mafia role.
    pub fn get_player_allegiance(&self, client_id: ClientId) -> (side: Allegiance)
        ensures
            side == self@.side(client_id.0),
    {
        match self.get_player_role(client_id) {
            Some(role) => role.allegiance(),
            None => Allegiance::Villagers,
        }
    }

    pub fn get_cycle(&self) -> (cycle: Cycle)
        ensures
            cycle == self@.cycle,
    {
        self.cycle
    }

    /// The length of the current cycle, in seconds.
    pub fn get_cycle_duration(&self) -> (secs: u64)
        ensures
            secs == self@.config.duration_of(self@.cycle),
    {
        match self.cycle {
            Cycle::Day => self.config.time_for_day,
            Cycle::Night => self.config.time_for_night,
        }
    }

    pub fn get_day_num(&self) -> (day_num: usize)
        ensures
            day_num == self@.day_num,
    {
        self.day_num
    }

    pub fn get_winner(&self) -> (winner: Option<Allegiance>)
        ensures
            winner == self@.winner,
    {
        self.winner
    }

    /// The players that `filter` accepts, given each one's status, role and
    /// side.
    pub fn get_players<F: Fn(PlayerStatus, Option<SpecialRole>, Allegiance) -> bool>(
        &self,
        filter: F,
    ) -> (players: ClientSet)
        requires
            self@.shape(),
            forall|st: PlayerStatus, role: Option<SpecialRole>, side: Allegiance|
                call_requires(filter, (st, role, side)),
        ensures
            forall|p: usize|
                players@.contains(p) ==> self@.player_status.contains_key(p) && call_ensures(
                    filter,
                    (self@.player_status[p], self@.role_of(p), self@.side(p)),
                    true,
                ),
            forall|p: usize|
                self@.player_status.contains_key(p) && !players@.contains(p) ==> call_ensures(
                    filter,
                    (self@.player_status[p], self@.role_of(p), self@.side(p)),
                    false,
                ),
    {
        let mut players = ClientSet::new();
        let mut p: usize = 0;
        while p < MAX_PLAYERS
            invariant
                p <= MAX_PLAYERS,
                self@.shape(),
                forall|st: PlayerStatus, role: Option<SpecialRole>, side: Allegiance|
                    call_requires(filter, (st, role, side)),
                forall|q: usize|
                    players@.contains(q) ==> q < p && self@.player_status.contains_key(q)
                        && call_ensures(
                        filter,
                        (self@.player_status[q], self@.role_of(q), self@.side(q)),
                        true,
                    ),
                forall|q: usize|
                    q < p && self@.player_status.contains_key(q) && !players@.contains(q)
                        ==> call_ensures(
                        filter,
                        (self@.player_status[q], self@.role_of(q), self@.side(q)),
                        false,
                    ),
            decreases MAX_PLAYERS - p,
        {
            match self.get_player_status(ClientId(p)) {
                Some(st) => {
                    let role = self.get_player_role(ClientId(p));
                    let side = self.get_player_allegiance(ClientId(p));
                    if filter(st, role, side) {
                        players.insert(ClientId(p));
                    }
                },
                None => {},
            }
            p += 1;
        }
        players
    }

    /// The living players.
    pub fn alive_players(&self) -> (players: ClientSet)
        requires
            self@.shape(),
        ensures
            players@ == self@.alive(),
    {
        let players = self.get_players(is_alive);
        assert(players@ =~= self@.alive());
        players
    }

    /// The living players on the Mafia's side.
    pub fn alive_mafia(&self) -> (players: ClientSet)
        requires
            self@.shape(),
        ensures
            players@ == self@.alive_mafia(),
    {
        let players = self.get_players(is_alive_and_mafia);
        assert(players@ =~= self@.alive_mafia());
        players
    }

    /// The living players on the villagers' side.
    pub fn alive_villagers(&self) -> (players: ClientSet)
        requires
            self@.shape(),
        ensures
            players@ == self@.alive_villagers(),
    {
        let players = self.get_players(is_alive_and_villager);
        assert(players@ =~= self@.alive_villagers());
        players
    }

    /// The living players with a special role.
    pub fn alive_with_role(&self) -> (players: ClientSet)
        requires
            self@.shape(),
        ensures
            players@ == self@.alive_with_role(),
    {
        let players = self.get_players(is_alive_with_role);
        assert(players@ =~= self@.alive_with_role());
        players
    }

    /// The voters whose vote against `target` counts in the current cycle.
    fn ballots_for(&self, target: usize) -> (voters: ClientSet)
        requires
            self@.shape(),
        ensures
            voters@ == self@.ballots(self@.cycle, target),
    {
        let mut voters = ClientSet::new();
        let mut v: usize = 0;
        while v < MAX_PLAYERS
            invariant
                v <= MAX_PLAYERS,
                self@.shape(),
                forall|q: usize|
                    voters@.contains(q) <==> q < v && self@.counts_for(self@.cycle, q, target),
            decreases MAX_PLAYERS - v,
        {
            let counts = match self.votes.get(&v) {
                Some(Some(t)) => t.0 == target && match self.cycle {
                    Cycle::Day => true,
                    Cycle::Night => self.get_player_allegiance(ClientId(v)) == Allegiance::Mafia,
                },
                _ => false,
            };
            if counts {
                voters.insert(ClientId(v));
            }
            v += 1;
        }
        assert(voters@ =~= self@.ballots(self@.cycle, target));
        voters
    }

    /// The player against whom a strict majority of the electorate voted.
    fn find_majority(&self) -> (found: Option<usize>)
        requires
            self.wf(),
            self@.winner is None,
        ensures
            found == self@.majority_target(self@.cycle),
            found is Some ==> self@.is_alive(found.unwrap()),
    {
        let electorate = match self.cycle {
            Cycle::Day => self.alive_players(),
            Cycle::Night => self.alive_mafia(),
        };
        let quorum = electorate.count();
        let mut t: usize = 0;
        while t < MAX_PLAYERS
            invariant
                t <= MAX_PLAYERS,
                self.wf(),
                self@.winner is None,
                quorum == self@.electorate(self@.cycle).len(),
                forall|q: usize| q < t ==> !self@.has_majority(self@.cycle, q),
            decreases MAX_PLAYERS - t,
        {
            let votes = self.ballots_for(t).count();
            if votes * 2 > quorum {
                proof {
                    let g = self@;
                    assert(g.has_majority(g.cycle, t));
                    lemma_majority_is_alive(g, t);
                    lemma_majority_unique(g, t, choose|x: usize| g.has_majority(g.cycle, x));
                }
                return Some(t);
            }
            t += 1;
        }
        proof {
            let g = self@;
            assert forall|q: usize| !g.has_majority(g.cycle, q) by {
                if g.has_majority(g.cycle, q) {
                    lemma_majority_is_alive(g, q);
                }
            }
        }
        None
    }

    /// Whether a doctor voted for `target` in this cycle.
    fn is_protected(&self, target: usize) -> (protected: bool)
        requires
            self@.shape(),
        ensures
            protected == self@.is_protected(target),
    {
        let mut i: usize = 0;
        while i < self.doctors.len()
            invariant
                i <= self.doctors.len(),
                self@.shape(),
                forall|k: int|
                    0 <= k < i ==> !(self@.votes.contains_key(#[trigger] self.doctors@[k])
                        && self@.votes[self.doctors@[k]] == Some(ClientId(target))),
            decreases self.doctors.len() - i,
        {
            let doctor = self.doctors[i];
            let voted = match self.votes.get(&doctor) {
                Some(Some(t)) => t.0 == target,
                _ => false,
            };
            if voted {
                proof {
                    let g = self@;
                    assert(g.role_to_players[SpecialRole::Doctor].contains(doctor));
                    assert(g.role_of(doctor) == Some(SpecialRole::Doctor));
                    assert(g.votes.contains_key(doctor));
                }
                return true;
            }
            i += 1;
        }
        proof {
            let g = self@;
            assert forall|d: usize|
                !(g.role_of(d) == Some(SpecialRole::Doctor) && #[trigger] g.votes.contains_key(d)
                    && g.votes[d] == Some(ClientId(target))) by {
                if g.role_of(d) == Some(SpecialRole::Doctor) {
                    assert(g.role_to_players[SpecialRole::Doctor].contains(d));
                    let k = choose|k: int|
                        0 <= k < self.doctors@.len() && self.doctors@[k] == d;
                    assert(self.doctors@[k] == d);
                }
            }
        }
        false
    }

    /// Marks `player` dead and announces the death with the cycle's default
    /// text.
    fn kill(&mut self, player: usize, events: &mut Vec<Event>)
        requires
            old(self)@.shape(),
            old(self)@.player_status.contains_key(player),
        ensures
            final(self)@ == old(self)@.kill(player),
            final(self)@.shape(),
            event_views(final(events)@) == event_views(old(events)@).push(
                old(self)@.death_of(player),
            ),
    {
        let pool = match self.cycle {
            Cycle::Day => day_death_messages(),
            Cycle::Night => night_death_messages(),
        };
        assert(texts_of(pool@)[0] == default_death_text(self.cycle));
        assert(texts_of(pool@)[0] == pool@[0]@);
        let event = Event::PlayerKilled {
            player: ClientId(player),
            cycle: self.cycle,
            death_message: pool[0].to_owned(),
        };
        proof {
            lemma_event_views_push(events@, event);
        }
        events.push(event);
        self.player_status.insert(player, PlayerStatus::Dead);
    }

    /// Adds what the detectives learned this night.
    fn investigate(&self, events: &mut Vec<Event>)
        requires
            self@.shape(),
        ensures
            event_views(final(events)@) == event_views(old(events)@) + self@.investigations(
                self@.role_to_players[SpecialRole::Detective].len() as int,
            ),
    {
        let mut i: usize = 0;
        assert(event_views(events@) =~= event_views(old(events)@) + self@.investigations(0));
        while i < self.detectives.len()
            invariant
                i <= self.detectives.len(),
                self@.shape(),
                self@.role_to_players[SpecialRole::Detective] == self.detectives@,
                event_views(events@) == event_views(old(events)@) + self@.investigations(
                    i as int,
                ),
            decreases self.detectives.len() - i,
        {
            let actor = self.detectives[i];
            let voted = match self.votes.get(&actor) {
                Some(Some(target)) => Some(*target),
                _ => None,
            };
            // Only the living learn, and only of the living.
            let found = match voted {
                Some(target) => {
                    if self.get_player_status(ClientId(actor)) == Some(PlayerStatus::Alive)
                        && self.get_player_status(target) == Some(PlayerStatus::Alive) {
                        Some(target)
                    } else {
                        None
                    }
                },
                None => None,
            };
            match found {
                Some(target) => {
                    let event = Event::PlayerInvestigated {
                        actor: ClientId(actor),
                        target,
                        allegiance: self.get_player_allegiance(target),
                    };
                    proof {
                        lemma_event_views_push(events@, event);
                        assert(event_views(events@.push(event)) =~= event_views(old(events)@)
                            + self@.investigations(i + 1));
                    }
                    events.push(event);
                },
                None => {},
            }
            i += 1;
        }
    }

    /// Settles the votes of the cycle that ends.
    fn resolve(&mut self) -> (events: Vec<Event>)
        requires
            old(self).wf(),
            old(self)@.winner is None,
        ensures
            final(self)@ == old(self)@.resolve().game,
            event_views(events@) == old(self)@.resolve().events,
            final(self)@.shape(),
    {
        let mut events: Vec<Event> = Vec::new();
        assert(event_views(events@) =~= Seq::<EventView>::empty());
        let target = self.find_majority();
        match self.cycle {
            Cycle::Day => {
                match target {
                    Some(t) => {
                        self.kill(t, &mut events);
                        assert(event_views(events@) =~= seq![old(self)@.death_of(t)]);
                    },
                    None => {
                        let event = Event::FailedVote {
                            cycle: Cycle::Day,
                            channel: EventChannel::Public,
                        };
                        proof {
                            lemma_event_views_push(events@, event);
                        }
                        events.push(event);
                        assert(event_views(events@) =~= seq![event@]);
                    },
                }
            },
            Cycle::Night => {
                match target {
                    Some(t) => {
                        if !self.is_protected(t) {
                            self.kill(t, &mut events);
                            assert(event_views(events@) =~= seq![old(self)@.death_of(t)]);
                        }
                    },
                    None => {
                        let event = Event::FailedVote {
                            cycle: Cycle::Night,
                            channel: EventChannel::Mafia,
                        };
                        proof {
                            lemma_event_views_push(events@, event);
                        }
                        events.push(event);
                        assert(event_views(events@) =~= seq![event@]);
                    },
                }
                self.investigate(&mut events);
            },
        }
        events
    }

    /// Declares the winner or starts the next cycle at `now`.
    fn conclude(&mut self, events: &mut Vec<Event>, now: u64)
        requires
            old(self)@.shape(),
            old(self)@.winner is None,
        ensures
            final(self)@ == old(self)@.conclude(now).game,
            event_views(final(events)@) == event_views(old(events)@) + old(self)@.conclude(
                now,
            ).events,
            final(self).wf(),
    {
        let num_mafia_alive = self.alive_mafia().count();
        let num_players_alive = self.alive_players().count();
        let verdict = if num_mafia_alive == 0 {
            Some(Allegiance::Villagers)
        } else if num_mafia_alive * 2 >= num_players_alive {
            Some(Allegiance::Mafia)
        } else if self.day_num >= MAX_DAYS {
            Some(Allegiance::Mafia)
        } else {
            None
        };
        assert(verdict == self@.verdict());
        match verdict {
            Some(side) => {
                let event = Event::GameWon { player_to_role: self.player_to_role.clone(), side };
                proof {
                    lemma_event_views_push(events@, event);
                    assert(event_views(events@.push(event)) =~= event_views(events@) + seq![
                        event@,
                    ]);
                }
                events.push(event);
                self.winner = Some(side);
            },
            None => {
                self.votes = HashMap::new();
                self.cycle = self.cycle.next();
                self.cycle_start = now;
                self.day_num = match self.cycle {
                    Cycle::Day => self.day_num + 1,
                    Cycle::Night => self.day_num,
                };
                let event = Event::SetCycle {
                    start_time_unix_ts_secs: now,
                    duration_secs: self.get_cycle_duration(),
                    cycle: self.cycle,
                    day_num: self.day_num,
                };
                proof {
                    lemma_event_views_push(events@, event);
                    assert(event_views(events@.push(event)) =~= event_views(events@) + seq![
                        event@,
                    ]);
                    assert(self@.votes =~= Map::<usize, Option<ClientId>>::empty());
                    assert(self@ == old(self)@.advance(now));
                }
                events.push(event);
            },
        }
    }

    /// Ends the current cycle at `now`: settles the votes, then declares the
    /// winner or starts the next cycle. A game that is won is left as it is.
    fn end_cycle(&mut self, now: u64) -> (events: Vec<Event>)
        requires
            old(self).wf(),
        ensures
            final(self).wf(),
            final(self)@ == old(self)@.end_cycle(now).game,
            event_views(events@) == old(self)@.end_cycle(now).events,
    {
        if self.winner.is_some() {
            let events: Vec<Event> = Vec::new();
            assert(event_views(events@) =~= Seq::<EventView>::empty());
            return events;
        }
        let mut events = self.resolve();
        self.conclude(&mut events, now);
        events
    }

    /// Records the vote of `voter` for `target`, or for nobody, at `now`. The
    /// vote replaces an earlier vote of `voter` in this cycle. It does not
    /// end the cycle.
    pub fn cast_vote(&mut self, voter: ClientId, target: Option<ClientId>, now: u64) -> (result:
        Result<(), MafiaGameError>)
        requires
            old(self).wf(),
        ensures
            final(self).wf(),
            match old(self)@.vote_rejection(voter, target, now) {
                Some(reason) => result == Err::<(), MafiaGameError>(
                    MafiaGameError::InvalidVote(reason),
                ) && final(self)@ == old(self)@,
                None => result is Ok && final(self)@ == old(self)@.with_vote(voter, target),
            },
    {
        if self.winner.is_some() {
            return Err(MafiaGameError::InvalidVote(VoteRejection::GameComplete));
        }
        if self.get_player_status(voter) != Some(PlayerStatus::Alive) {
            return Err(MafiaGameError::InvalidVote(VoteRejection::VoterNotAlive(voter)));
        }
        match target {
            Some(t) => {
                if self.get_player_status(t) != Some(PlayerStatus::Alive) {
                    return Err(MafiaGameError::InvalidVote(VoteRejection::TargetNotAlive(t)));
                }
            },
            None => {},
        }
        let elapsed = if now >= self.cycle_start {
            now - self.cycle_start
        } else {
            0
        };
        if elapsed < self.config.vote_grace_period {
            return Err(
                MafiaGameError::InvalidVote(
                    VoteRejection::GracePeriod(self.config.vote_grace_period),
                ),
            );
        }
        match self.cycle {
            Cycle::Day => {},
            Cycle::Night => {
                if self.get_player_role(voter).is_none() {
                    return Err(
                        MafiaGameError::InvalidVote(
                            VoteRejection::RoleCannotVote(voter, Cycle::Night),
                        ),
                    );
                }
            },
        }
        self.votes.insert(voter.0, target);
        Ok(())
    }

    /// Ends the cycle at `now` if it is due: if its time is up, or if all who
    /// may vote have voted and the configuration lets that end it. Returns
    /// the events of the cycle's end, in order; none if the cycle goes on or
    /// the game is won.
    pub fn poll_end_cycle(&mut self, now: u64) -> (events: Vec<Event>)
        requires
            old(self).wf(),
        ensures
            final(self).wf(),
            final(self)@ == old(self)@.poll(now).game,
            event_views(events@) == old(self)@.poll(now).events,
    {
        if self.winner.is_some() {
            let events: Vec<Event> = Vec::new();
            assert(event_views(events@) =~= Seq::<EventView>::empty());
            return events;
        }
        let elapsed = if now >= self.cycle_start {
            now - self.cycle_start
        } else {
            0
        };
        if elapsed > self.get_cycle_duration() {
            return self.end_cycle(now);
        }
        let all_votes_in = match self.cycle {
            Cycle::Day => self.config.end_day_after_all_votes && self.votes.len()
                == self.alive_players().count(),
            Cycle::Night => self.config.end_night_after_all_votes && self.votes.len()
                == self.alive_with_role().count(),
        };
        if all_votes_in {
            return self.end_cycle(now);
        }
        let events: Vec<Event> = Vec::new();
        assert(event_views(events@) =~= Seq::<EventView>::empty());
        events
    }
}

/// The numbers of a list of client ids, in order.
pub open spec fn id_numbers(ids: Seq<ClientId>) -> Seq<usize> {
    ids.map_values(|id: ClientId| id.0)
}

/// Why a game with `config` cannot start with `players` players, if so: it
/// needs a Mafia player, villagers who strictly outnumber the Mafia, and no
/// more special roles than players.
pub open spec fn start_fault(config: GameConfig, players: nat) -> Option<MafiaGameError> {
    let roles = config.num_special_roles;
    if roles.mafia == 0 {
        Some(MafiaGameError::InvalidGameConfig(ConfigFault::NoMafia))
    } else if roles.mafia * 2 >= players {
        Some(
            MafiaGameError::NotEnoughPlayers(
                PlayerShortage::MafiaNotOutnumbered {
                    mafia: roles.mafia,
                    players: players as usize,
                },
            ),
        )
    } else if roles.total() > players {
        Some(
            MafiaGameError::NotEnoughPlayers(
                PlayerShortage::MoreRolesThanPlayers { roles, players: players as usize },
            ),
        )
    } else {
        None
    }
}

/// The players that get `role` when the roles are dealt to `order`: the
/// roles are taken in the order Mafia, Doctor, Detective, and each takes the
/// next players of `order`, as many as are asked for.
pub open spec fn dealt_players(roles: RoleCounts, order: Seq<usize>, role: SpecialRole) -> Seq<
    usize,
> {
    match role {
        SpecialRole::Mafia => order.subrange(0, roles.mafia as int),
        SpecialRole::Doctor => order.subrange(roles.mafia as int, roles.mafia + roles.doctor),
        SpecialRole::Detective => order.subrange(roles.mafia + roles.doctor, roles.total()),
    }
}

/// The role that `player` gets when the roles are dealt to `order`.
pub open spec fn dealt_role(roles: RoleCounts, order: Seq<usize>, player: usize) -> Option<
    SpecialRole,
> {
    if dealt_players(roles, order, SpecialRole::Mafia).contains(player) {
        Some(SpecialRole::Mafia)
    } else if dealt_players(roles, order, SpecialRole::Doctor).contains(player) {
        Some(SpecialRole::Doctor)
    } else if dealt_players(roles, order, SpecialRole::Detective).contains(player) {
        Some(SpecialRole::Detective)
    } else {
        None
    }
}

/// The game that starts at `now` with the players `order`, to whom the roles
/// are dealt in that order: everyone is alive, nobody has voted, and it is
/// the first day.
pub open spec fn started(config: GameConfig, order: Seq<usize>, now: u64) -> GameView {
    let roles = config.num_special_roles;
    GameView {
        config,
        role_to_players: role_table(
            dealt_players(roles, order, SpecialRole::Mafia),
            dealt_players(roles, order, SpecialRole::Doctor),
            dealt_players(roles, order, SpecialRole::Detective),
        ),
        player_to_role: Map::new(
            |p: usize| dealt_role(roles, order, p) is Some,
            |p: usize| dealt_role(roles, order, p).unwrap(),
        ),
        player_status: Map::new(|p: usize| order.contains(p), |p: usize| PlayerStatus::Alive),
        cycle: config.start_cycle,
        day_num: 1,
        cycle_start: now,
        votes: Map::empty(),
        winner: None,
    }
}

/// A game that starts with distinct players of the id pool, and with a
/// configuration that these players can play, satisfies the invariant.
pub proof fn lemma_started_wf(config: GameConfig, order: Seq<usize>, now: u64)
    requires
        order.no_duplicates(),
        forall|i: int| 0 <= i < order.len() ==> order[i] < MAX_PLAYERS,
        order.len() <= usize::MAX,
        start_fault(config, order.len()) is None,
    ensures
        started(config, order, now).wf(),
{
    let g = started(config, order, now);
    let roles = config.num_special_roles;
    assert forall|r: SpecialRole| (#[trigger] g.role_to_players[r]).no_duplicates() by {
        assert(g.role_to_players[r] == dealt_players(roles, order, r));
    }
    assert forall|r: SpecialRole, p: usize|
        (#[trigger] g.role_to_players[r].contains(p)) <==> g.role_of(p) == Some(r) by {
        assert(g.role_to_players[r] == dealt_players(roles, order, r));
        lemma_dealt_disjoint(roles, order, p);
    }
    assert forall|p: usize| g.player_to_role.contains_key(p) implies g.player_status.contains_key(
        p,
    ) by {
        let r = dealt_role(roles, order, p).unwrap();
        let players = dealt_players(roles, order, r);
        let k = choose|k: int| 0 <= k < players.len() && players[k] == p;
        assert(players[k] == p);
    }
}

/// With distinct players, nobody is dealt two roles.
proof fn lemma_dealt_disjoint(roles: RoleCounts, order: Seq<usize>, p: usize)
    requires
        order.no_duplicates(),
        roles.total() <= order.len(),
    ensures
        forall|r: SpecialRole|
            (#[trigger] dealt_players(roles, order, r).contains(p)) ==> dealt_role(roles, order, p)
                == Some(r),
{
    assert forall|r: SpecialRole| (#[trigger] dealt_players(roles, order, r).contains(p)) implies
        dealt_role(roles, order, p) == Some(r) by {
        let here = dealt_players(roles, order, r);
        let k = choose|k: int| 0 <= k < here.len() && here[k] == p;
        assert forall|q: SpecialRole| q != r implies !(#[trigger] dealt_players(
            roles,
            order,
            q,
        ).contains(p)) by {
            let there = dealt_players(roles, order, q);
            if there.contains(p) {
                let j = choose|j: int| 0 <= j < there.len() && there[j] == p;
                assert(here[k] == there[j]);
            }
        }
        assert(!dealt_players(roles, order, SpecialRole::Mafia).contains(p) || r
            == SpecialRole::Mafia);
        assert(!dealt_players(roles, order, SpecialRole::Doctor).contains(p) || r
            == SpecialRole::Doctor);
        assert(!dealt_players(roles, order, SpecialRole::Detective).contains(p) || r
            == SpecialRole::Detective);
    }
}

/// The table `table` after each of `keys` has been given the value `value`.
pub open spec fn assign_all<V>(table: Map<usize, V>, keys: Seq<usize>, value: V) -> Map<usize, V>
    decreases keys.len(),
{
    if keys.len() == 0 {
        table
    } else {
        assign_all(table, keys.drop_last(), value).insert(keys.last(), value)
    }
}

/// `assign_all` gives the value to the keys and leaves the rest as it was.
pub proof fn lemma_assign_all<V>(table: Map<usize, V>, keys: Seq<usize>, value: V)
    ensures
        forall|p: usize| #[trigger]
            assign_all(table, keys, value).contains_key(p) <==> table.contains_key(p)
                || keys.contains(p),
        forall|p: usize|
            assign_all(table, keys, value).contains_key(p) ==> (#[trigger] assign_all(
                table,
                keys,
                value,
            )[p]) == if keys.contains(p) {
                value
            } else {
                table[p]
            },
    decreases keys.len(),
{
    let all = assign_all(table, keys, value);
    if keys.len() > 0 {
        let rest = keys.drop_last();
        let last = keys.last();
        lemma_assign_all(table, rest, value);
        let inner = assign_all(table, rest, value);
        assert(all == inner.insert(last, value));
        assert forall|p: usize| keys.contains(p) == (rest.contains(p) || p == last) by {
            if rest.contains(p) {
                let k = choose|k: int| 0 <= k < rest.len() && rest[k] == p;
                assert(keys[k] == p);
            }
            if keys.contains(p) && p != last {
                let k = choose|k: int| 0 <= k < keys.len() && keys[k] == p;
                assert(rest[k] == p);
            }
            if p == last {
                assert(keys[keys.len() - 1] == p);
            }
        }
        assert forall|p: usize| #[trigger]
            all.contains_key(p) <==> table.contains_key(p) || keys.contains(p) by {
            assert(inner.contains_key(p) <==> table.contains_key(p) || rest.contains(p));
        }
        assert forall|p: usize| all.contains_key(p) implies (#[trigger] all[p]) == if keys.contains(
            p,
        ) {
            value
        } else {
            table[p]
        } by {
            if p != last {
                assert(inner.contains_key(p));
                assert(inner[p] == if rest.contains(p) {
                    value
                } else {
                    table[p]
                });
            }
        }
    } else {
        assert forall|p: usize| !keys.contains(p) by {
        }
    }
}

/// Gives `role` to `count` players of `order`, from position `from` on.
fn deal_role(
    order: &Vec<ClientId>,
    from: usize,
    count: usize,
    role: SpecialRole,
    player_to_role: &mut HashMap<usize, SpecialRole>,
) -> (players: Vec<usize>)
    requires
        from + count <= order.len(),
    ensures
        players@ == id_numbers(order@).subrange(from as int, from + count),
        final(player_to_role)@ == assign_all(old(player_to_role)@, players@, role),
{
    let mut players: Vec<usize> = Vec::new();
    let mut i: usize = 0;
    assert(players@ =~= id_numbers(order@).subrange(from as int, from as int));
    while i < count
        invariant
            i <= count,
            from + count <= order.len(),
            players@ == id_numbers(order@).subrange(from as int, from + i),
            player_to_role@ == assign_all(old(player_to_role)@, players@, role),
        decreases count - i,
    {
        let player = order[from + i].0;
        let ghost before = players@;
        players.push(player);
        player_to_role.insert(player, role);
        proof {
            assert(players@ =~= id_numbers(order@).subrange(from as int, from + i + 1));
            assert(players@.drop_last() =~= before);
        }
        i += 1;
    }
    players
}

/// Whether `order` lists the players `players`, each once.
pub open spec fn is_ordering_of(order: Seq<usize>, players: Set<usize>) -> bool {
    &&& order.no_duplicates()
    &&& forall|p: usize| order.contains(p) <==> players.contains(p)
}

/// The order in which `rand::seq::SliceRandom::shuffle` leaves `ids` when it
/// draws from a `rand::rngs::StdRng` that `SeedableRng::seed_from_u64` has
/// seeded with `seed`, as the version of rand that this crate is built with
/// computes it.
pub uninterp spec fn shuffled_ids(ids: Seq<usize>, seed: u64) -> Seq<usize>;

/// Shuffles the ids in place with `rand::seq::SliceRandom::shuffle`, which
/// swaps elements of the slice at positions drawn from its generator. The
/// generator is a `rand::rngs::StdRng` seeded with `seed`, so the arrangement
/// that comes out depends on the ids and the seed alone. It holds the same
/// ids, each as often as before.
#[verifier::external_body]
fn shuffle_ids(ids: &mut Vec<ClientId>, seed: u64)
    ensures
        id_numbers(final(ids)@) == shuffled_ids(id_numbers(old(ids)@), seed),
        final(ids)@.to_multiset() == old(ids)@.to_multiset(),
{
    let mut generator: rand::rngs::StdRng = rand::SeedableRng::seed_from_u64(seed);
    rand::seq::SliceRandom::shuffle(ids.as_mut_slice(), &mut generator)
}

/// The players `players` in the order in which a game seeded with `seed`
/// deals the roles to them: their ids in ascending order, shuffled.
pub open spec fn shuffled_players(players: Set<usize>, seed: u64) -> Seq<usize> {
    shuffled_ids(id_numbers(ascending_ids(players, MAX_PLAYERS as int)), seed)
}

/// A list that holds the ids of a set of clients of the id pool, each once,
/// is an ordering of them by their numbers.
pub proof fn lemma_ordering(order: Seq<ClientId>, players: Set<usize>)
    requires
        forall|p: usize| players.contains(p) ==> p < MAX_PLAYERS,
        order.no_duplicates(),
        forall|id: ClientId| order.contains(id) <==> players.contains(id.0),
    ensures
        is_ordering_of(id_numbers(order), players),
        forall|i: int| 0 <= i < order.len() ==> (#[trigger] order[i]).0 < MAX_PLAYERS,
        order.len() == players.len(),
{
    let numbers = id_numbers(order);
    assert forall|i: int| 0 <= i < order.len() implies (#[trigger] order[i]).0 < MAX_PLAYERS by {
        assert(order.contains(order[i]));
    }
    assert(numbers.no_duplicates()) by {
        assert forall|a: int, b: int|
            0 <= a < numbers.len() && 0 <= b < numbers.len() && a != b implies numbers[a]
            != numbers[b] by {
            assert(order[a] != order[b]);
        }
    }
    assert forall|p: usize| numbers.contains(p) <==> players.contains(p) by {
        if numbers.contains(p) {
            let k = choose|k: int| 0 <= k < numbers.len() && numbers[k] == p;
            assert(order.contains(order[k]));
        }
        if players.contains(p) {
            assert(order.contains(ClientId(p)));
            let k = choose|k: int| 0 <= k < order.len() && order[k] == ClientId(p);
            assert(numbers[k] == p);
        }
    }
    numbers.unique_seq_to_set();
    assert(numbers.to_set() =~= players);
}

/// An ordering of a set is as long as the set is large.
pub proof fn lemma_ordering_len(order: Seq<usize>, players: Set<usize>)
    requires
        is_ordering_of(order, players),
    ensures
        players.finite(),
        order.len() == players.len(),
{
    order.unique_seq_to_set();
    assert(order.to_set() =~= players);
}

/// A rearrangement of distinct ids holds the same ids, each once.
proof fn lemma_rearranged(before: Seq<ClientId>, after: Seq<ClientId>)
    requires
        before.no_duplicates(),
        after.to_multiset() == before.to_multiset(),
    ensures
        after.no_duplicates(),
        after.len() == before.len(),
        forall|id: ClientId| after.contains(id) <==> before.contains(id),
{
    before.to_multiset_ensures();
    after.to_multiset_ensures();
    before.lemma_multiset_has_no_duplicates();
    after.lemma_multiset_has_no_duplicates_conv();
    assert forall|id: ClientId| after.contains(id) <==> before.contains(id) by {
        assert(after.contains(id) <==> after.to_multiset().count(id) > 0);
        assert(before.contains(id) <==> before.to_multiset().count(id) > 0);
    }
}

impl Game {
    /// Starts a game at `now` with the connected clients as its players; a
    /// client that is on record but disconnected does not play. Their ids are
    /// taken in ascending order and shuffled with a generator seeded with
    /// `seed`; the roles are dealt to them in the shuffled order.
    pub fn start(config: GameConfig, clients: &ClientState, seed: u64, now: u64) -> (result: Result<
        Game,
        MafiaGameError,
    >)
        requires
            clients.wf(),
        ensures
            match start_fault(config, clients@.connected().len()) {
                Some(fault) => result == Err::<Game, MafiaGameError>(fault),
                None => {
                    &&& result is Ok
                    &&& result.unwrap().wf()
                    &&& result.unwrap()@ == started(
                        config,
                        shuffled_players(clients@.connected(), seed),
                        now,
                    )
                    &&& is_ordering_of(
                        shuffled_players(clients@.connected(), seed),
                        clients@.connected(),
                    )
                },
            },
    {
        let mut order = clients.connected_client_ids().to_vec();
        let ghost sorted = order@;
        shuffle_ids(&mut order, seed);
        proof {
            lemma_rearranged(sorted, order@);
            lemma_ordering(order@, clients@.connected());
        }
        Game::start_with_order(config, &order, now)
    }

    /// Starts a game at `now` with the players `order`, dealing the roles in
    /// that order, or says why the configuration cannot be played by them.
    pub fn start_with_order(config: GameConfig, order: &Vec<ClientId>, now: u64) -> (result:
        Result<Game, MafiaGameError>)
        requires
            order@.no_duplicates(),
            forall|i: int| 0 <= i < order@.len() ==> order@[i].0 < MAX_PLAYERS,
        ensures
            match start_fault(config, order@.len()) {
                Some(fault) => result == Err::<Game, MafiaGameError>(fault),
                None => result is Ok && result.unwrap()@ == started(
                    config,
                    id_numbers(order@),
                    now,
                ) && result.unwrap().wf(),
            },
    {
        let roles = config.num_special_roles;
        let players = order.len();
        if roles.mafia == 0 {
            return Err(MafiaGameError::InvalidGameConfig(ConfigFault::NoMafia));
        }
        if roles.mafia >= players || roles.mafia >= players - roles.mafia {
            return Err(
                MafiaGameError::NotEnoughPlayers(
                    PlayerShortage::MafiaNotOutnumbered { mafia: roles.mafia, players },
                ),
            );
        }
        if roles.doctor > players - roles.mafia || roles.detective > players - roles.mafia
            - roles.doctor {
            return Err(
                MafiaGameError::NotEnoughPlayers(
                    PlayerShortage::MoreRolesThanPlayers { roles, players },
                ),
            );
        }
        let ghost ids = id_numbers(order@);
        let mut player_to_role: HashMap<usize, SpecialRole> = HashMap::new();
        let mafia = deal_role(order, 0, roles.mafia, SpecialRole::Mafia, &mut player_to_role);
        let doctors = deal_role(
            order,
            roles.mafia,
            roles.doctor,
            SpecialRole::Doctor,
            &mut player_to_role,
        );
        let detectives = deal_role(
            order,
            roles.mafia + roles.doctor,
            roles.detective,
            SpecialRole::Detective,
            &mut player_to_role,
        );
        let mut player_status: HashMap<usize, PlayerStatus> = HashMap::new();
        let mut i: usize = 0;
        while i < players
            invariant
                i <= players,
                players == order.len(),
                ids == id_numbers(order@),
                player_status@ == assign_all(
                    Map::<usize, PlayerStatus>::empty(),
                    ids.subrange(0, i as int),
                    PlayerStatus::Alive,
                ),
            decreases players - i,
        {
            player_status.insert(order[i].0, PlayerStatus::Alive);
            proof {
                assert(ids.subrange(0, i + 1).drop_last() =~= ids.subrange(0, i as int));
            }
            i += 1;
        }
        let game = Game {
            config,
            mafia,
            doctors,
            detectives,
            player_to_role,
            player_status,
            cycle: config.start_cycle,
            day_num: 1,
            cycle_start: now,
            votes: HashMap::new(),
            winner: None,
        };
        proof {
            let g = started(config, ids, now);
            assert(ids.no_duplicates()) by {
                assert forall|a: int, b: int| 0 <= a < ids.len() && 0 <= b < ids.len() && a
                    != b implies ids[a] != ids[b] by {
                    assert(order@[a] != order@[b]);
                }
            }
            lemma_started_wf(config, ids, now);
            assert(ids.subrange(0, players as int) =~= ids);
            lemma_assign_all(Map::<usize, PlayerStatus>::empty(), ids, PlayerStatus::Alive);
            assert(game@.player_status =~= g.player_status);
            assert(game@.votes =~= g.votes);
            assert(game@.role_to_players =~= g.role_to_players);
            let none = Map::<usize, SpecialRole>::empty();
            let first = assign_all(none, mafia@, SpecialRole::Mafia);
            let second = assign_all(first, doctors@, SpecialRole::Doctor);
            lemma_assign_all(none, mafia@, SpecialRole::Mafia);
            lemma_assign_all(first, doctors@, SpecialRole::Doctor);
            lemma_assign_all(second, detectives@, SpecialRole::Detective);
            assert forall|p: usize|
                game@.player_to_role.contains_key(p) == g.player_to_role.contains_key(p) && (
                g.player_to_role.contains_key(p) ==> game@.player_to_role[p]
                    == g.player_to_role[p]) by {
                lemma_dealt_disjoint(roles, ids, p);
            }
            assert(game@.player_to_role =~= g.player_to_role);
        }
        Ok(game)
    }
}

/// Whether an event is one that the end of a cycle yields: a death, a failed
/// vote, a detective's finding, a new cycle or the game's end.
pub open spec fn is_cycle_event(event: EventView) -> bool {
    event is PlayerKilled || event is FailedVote || event is PlayerInvestigated || event
        is SetCycle || event is GameWon
}

/// Polling yields only events of a cycle's end.
pub proof fn lemma_poll_events(g: GameView, now: u64)
    ensures
        forall|i: int|
            0 <= i < g.poll(now).events.len() ==> is_cycle_event(#[trigger] g.poll(now).events[i]),
{
    let n = g.role_to_players[SpecialRole::Detective].len() as int;
    lemma_investigation_events(g.resolve_night_kill().game, n);
}

proof fn lemma_investigation_events(g: GameView, n: int)
    ensures
        forall|i: int|
            0 <= i < g.investigations(n).len() ==> (#[trigger] g.investigations(n)[i])
                is PlayerInvestigated,
    decreases n,
{
    if n > 0 {
        lemma_investigation_events(g, n - 1);
    }
}

/// The two role tables are inverses of each other, and as many players hold
/// a role as the configuration asks for, which is never more than there are
/// players.
pub proof fn lemma_role_conservation(g: GameView)
    requires
        g.wf(),
    ensures
        forall|r: SpecialRole, p: usize|
            (#[trigger] g.role_to_players[r].contains(p)) <==> (g.player_to_role.contains_key(p)
                && g.player_to_role[p] == r),
        g.player_to_role.dom().finite(),
        g.player_status.dom().finite(),
        g.player_to_role.dom().len() == g.config.num_special_roles.total(),
        g.config.num_special_roles.total() <= g.player_status.dom().len(),
        g.player_status.dom().len() <= MAX_PLAYERS,
{
    let mafia = g.role_to_players[SpecialRole::Mafia];
    let doctors = g.role_to_players[SpecialRole::Doctor];
    let detectives = g.role_to_players[SpecialRole::Detective];
    assert forall|r: SpecialRole, p: usize|
        (#[trigger] g.role_to_players[r].contains(p)) <==> (g.player_to_role.contains_key(p)
            && g.player_to_role[p] == r) by {
        assert(g.role_to_players[r].contains(p) <==> g.role_of(p) == Some(r));
    }
    mafia.unique_seq_to_set();
    doctors.unique_seq_to_set();
    detectives.unique_seq_to_set();
    let a = mafia.to_set();
    let b = doctors.to_set();
    let c = detectives.to_set();
    assert(a.disjoint(b)) by {
        assert forall|p: usize| !(a.contains(p) && b.contains(p)) by {
            if a.contains(p) && b.contains(p) {
                assert(g.role_to_players[SpecialRole::Mafia].contains(p));
                assert(g.role_to_players[SpecialRole::Doctor].contains(p));
            }
        }
    }
    assert(a.union(b).disjoint(c)) by {
        assert forall|p: usize| !(a.union(b).contains(p) && c.contains(p)) by {
            if c.contains(p) {
                assert(g.role_to_players[SpecialRole::Detective].contains(p));
                if a.contains(p) {
                    assert(g.role_to_players[SpecialRole::Mafia].contains(p));
                }
                if b.contains(p) {
                    assert(g.role_to_players[SpecialRole::Doctor].contains(p));
                }
            }
        }
    }
    vstd::set_lib::lemma_set_disjoint_lens(a, b);
    vstd::set_lib::lemma_set_disjoint_lens(a.union(b), c);
    assert(g.player_to_role.dom() =~= a.union(b).union(c)) by {
        assert forall|p: usize|
            g.player_to_role.dom().contains(p) <==> a.union(b).union(c).contains(p) by {
            if g.player_to_role.contains_key(p) {
                let r = g.player_to_role[p];
                assert(g.role_of(p) == Some(r));
                assert(g.role_to_players[r].contains(p));
            }
            if a.contains(p) {
                assert(g.role_to_players[SpecialRole::Mafia].contains(p));
            }
            if b.contains(p) {
                assert(g.role_to_players[SpecialRole::Doctor].contains(p));
            }
            if c.contains(p) {
                assert(g.role_to_players[SpecialRole::Detective].contains(p));
            }
        }
    }
    lemma_bounded_set(g.player_status.dom(), MAX_PLAYERS as int);
    assert(g.player_to_role.dom().subset_of(g.player_status.dom()));
    vstd::set_lib::lemma_len_subset(g.player_to_role.dom(), g.player_status.dom());
}

/// The roles that are dealt depend on the configuration and on the order of
/// the players alone: the same order gives the same roles whenever the game
/// starts.
pub proof fn lemma_dealing_is_fixed(config: GameConfig, order: Seq<usize>, now: u64, later: u64)
    ensures
        started(config, order, now).player_to_role == started(config, order, later).player_to_role,
        started(config, order, now).role_to_players == started(
            config,
            order,
            later,
        ).role_to_players,
        started(config, order, now).player_status == started(config, order, later).player_status,
{
}

/// The same clients and the same seed give the same roles, whenever the
/// game starts.
pub proof fn lemma_seed_fixes_roles(
    config: GameConfig,
    players: Set<usize>,
    seed: u64,
    now: u64,
    later: u64,
)
    ensures
        started(config, shuffled_players(players, seed), now).player_to_role == started(
            config,
            shuffled_players(players, seed),
            later,
        ).player_to_role,
        started(config, shuffled_players(players, seed), now).role_to_players == started(
            config,
            shuffled_players(players, seed),
            later,
        ).role_to_players,
{
    lemma_dealing_is_fixed(config, shuffled_players(players, seed), now, later);
}

/// What the detectives learn is learned by the living about the living: in
/// each finding among those of the first `n` detectives, the detective and the
/// player it voted for are alive, and the side that is told is that player's.
/// At the end of a night this speaks of the game after the night's death.
pub proof fn lemma_findings_are_of_the_living(g: GameView, n: int)
    requires
        g.shape(),
        n <= g.role_to_players[SpecialRole::Detective].len(),
    ensures
        forall|i: int|
            0 <= i < g.investigations(n).len() ==> match #[trigger] g.investigations(n)[i] {
                EventView::PlayerInvestigated { actor, target, allegiance } => {
                    &&& g.role_of(actor.0) == Some(SpecialRole::Detective)
                    &&& g.is_alive(actor.0)
                    &&& g.is_alive(target.0)
                    &&& g.votes[actor.0] == Some(target)
                    &&& allegiance == g.side(target.0)
                },
                _ => false,
            },
    decreases n,
{
    if n > 0 {
        lemma_findings_are_of_the_living(g, n - 1);
        let detective = g.role_to_players[SpecialRole::Detective][n - 1];
        assert(g.role_to_players[SpecialRole::Detective].contains(detective));
    }
}

/// A player that dies in the night learns nothing at its end and nothing is
/// learned of it: no finding names it as the detective or as the target.
pub proof fn lemma_the_dead_find_nothing(g: GameView, victim: usize, i: int)
    requires
        g.wf(),
        g.winner is None,
        g.cycle == Cycle::Night,
        g.majority_target(Cycle::Night) == Some(victim),
        !g.is_protected(victim),
        0 <= i < g.resolve().events.len(),
    ensures
        match g.resolve().events[i] {
            EventView::PlayerInvestigated { actor, target, allegiance } => actor.0 != victim
                && target.0 != victim,
            _ => true,
        },
{
    let after = g.kill(victim);
    let n = g.role_to_players[SpecialRole::Detective].len() as int;
    lemma_majority_is_alive(g, victim);
    lemma_findings_are_of_the_living(after, n);
    if i >= 1 {
        assert(g.resolve().events[i] == after.investigations(n)[i - 1]);
    }
}

/// Each cycle is timed from its own start. When a cycle ends at `now` and
/// the game goes on, the next cycle starts at `now`: at a time `later` its
/// time is up only once more than its own duration has gone by since `now`,
/// and a vote is turned down while less than the grace period has gone by
/// since `now`.
pub proof fn lemma_cycles_are_timed_from_their_start(
    g: GameView,
    now: u64,
    later: u64,
    voter: ClientId,
    target: Option<ClientId>,
)
    requires
        g.winner is None,
        g.end_cycle(now).game.winner is None,
        later >= now,
    ensures
        g.end_cycle(now).game.cycle_start == now,
        g.end_cycle(now).game.elapsed(later) == later - now,
        g.end_cycle(now).game.is_due(later) <==> (later - now > g.config.duration_of(
            g.cycle.flip(),
        ) || g.end_cycle(now).game.all_votes_in()),
        later - now < g.config.vote_grace_period ==> g.end_cycle(now).game.vote_rejection(
            voter,
            target,
            later,
        ) is Some,
{
}

/// The day counter never goes back. It goes up by one exactly when a cycle
/// ends into a day; a vote leaves it as it is. A game that is won yields no
/// further events and does not change.
pub proof fn lemma_days_go_forward(
    g: GameView,
    now: u64,
    voter: ClientId,
    target: Option<ClientId>,
)
    requires
        g.wf(),
    ensures
        g.poll(now).game.day_num >= g.day_num,
        g.end_cycle(now).game.day_num >= g.day_num,
        g.end_cycle(now).game.day_num == g.day_num + 1 <==> (g.end_cycle(now).game.cycle
            != g.cycle && g.end_cycle(now).game.cycle == Cycle::Day),
        g.end_cycle(now).game.day_num == g.day_num || g.end_cycle(now).game.day_num == g.day_num
            + 1,
        g.with_vote(voter, target).day_num == g.day_num,
        g.winner is Some ==> g.poll(now) == (Step { game: g, events: Seq::empty() }),
        g.winner is Some ==> g.end_cycle(now) == (Step { game: g, events: Seq::empty() }),
        g.winner is None && g.end_cycle(now).game.winner is Some ==> g.end_cycle(
            now,
        ).events.last() is GameWon,
{
}

/// Nobody joins or leaves a game: a vote and the end of a cycle leave the
/// players as they are, alive or dead.
pub proof fn lemma_players_stay(g: GameView, now: u64, voter: ClientId, target: Option<ClientId>)
    requires
        g.wf(),
    ensures
        g.with_vote(voter, target).player_status == g.player_status,
        g.end_cycle(now).game.player_status.dom() == g.player_status.dom(),
        g.poll(now).game.player_status.dom() == g.player_status.dom(),
{
    if g.winner is None {
        let c = g.cycle;
        if exists|t: usize| g.has_majority(c, t) {
            let t = choose|t: usize| g.has_majority(c, t);
            lemma_majority_is_alive(g, t);
            assert(g.kill(t).player_status.dom() =~= g.player_status.dom());
        }
        assert(g.resolve().game.player_status.dom() == g.player_status.dom());
    }
}

/// A game that is won stays as it is: no vote is accepted, and no cycle
/// ends. A cycle that ends without a winner leaves no vote behind, and the
/// next cycle starts when it ends.
pub proof fn lemma_won_is_final(g: GameView, now: u64, voter: ClientId, target: Option<ClientId>)
    ensures
        g.winner is Some ==> g.vote_rejection(voter, target, now) == Some(
            VoteRejection::GameComplete,
        ),
        g.winner is Some ==> g.poll(now).game == g && g.end_cycle(now).game == g,
        g.end_cycle(now).game.winner is None ==> g.end_cycle(now).game.votes == Map::<
            usize,
            Option<ClientId>,
        >::empty(),
        g.end_cycle(now).game.player_to_role == g.player_to_role,
        g.end_cycle(now).game.role_to_players == g.role_to_players,
        g.end_cycle(now).game.config == g.config,
        g.end_cycle(now).game.cycle_start == if g.end_cycle(now).game.winner is Some {
            g.cycle_start
        } else {
            now
        },
{
}

/// The players of a game are the clients it was started with; they are
/// alive when it starts, and the roles go to players only.
pub proof fn lemma_players_are_the_clients(
    config: GameConfig,
    order: Seq<usize>,
    players: Set<usize>,
    now: u64,
)
    requires
        is_ordering_of(order, players),
        config.num_special_roles.total() <= order.len(),
    ensures
        started(config, order, now).player_status.dom() == players,
        started(config, order, now).alive() == players,
        forall|p: usize|
            started(config, order, now).player_to_role.contains_key(p) ==> players.contains(p),
{
    let g = started(config, order, now);
    assert(g.player_status.dom() =~= players);
    assert(g.alive() =~= players);
    assert forall|p: usize| g.player_to_role.contains_key(p) implies players.contains(p) by {
        let r = dealt_role(config.num_special_roles, order, p).unwrap();
        let dealt = dealt_players(config.num_special_roles, order, r);
        let k = choose|k: int| 0 <= k < dealt.len() && dealt[k] == p;
        assert(dealt[k] == p);
        assert(order.contains(p));
    }
}

/// Of the votes that a player casts in a cycle the last one counts: voting
/// twice leaves the game as the second vote alone would, and the first vote
/// does not change whether the second is accepted.
pub proof fn lemma_last_vote_counts(
    g: GameView,
    voter: ClientId,
    first: Option<ClientId>,
    second: Option<ClientId>,
    now: u64,
)
    ensures
        g.with_vote(voter, first).with_vote(voter, second) == g.with_vote(voter, second),
        g.with_vote(voter, first).vote_rejection(voter, second, now) == g.vote_rejection(
            voter,
            second,
            now,
        ),
{
    assert(g.votes.insert(voter.0, first).insert(voter.0, second) =~= g.votes.insert(
        voter.0,
        second,
    ));
}

} // verus!
