//! The commands of the networked physics world and the bookkeeping of which players are
//! shown: who may issue a command, and which players to spawn and despawn to follow the
//! world's state.

use vstd::prelude::*;
use crate::client::ClientConnectionEvent;
use crate::keyed_map::KeyedMap;
use crate::player::{
    apply_commands, input_commands_spec, lemma_input_commands_reconstruct, Player, PlayerId, PlayerInputCommand,
    PlayerInputState,
};

verus! {

/// A command to the physics world. `S` carries the spawn parameters (colour, size and
/// position) that only the simulation reads.
#[derive(Debug)]
pub enum PhysicsCommand<S> {
    PlayerInput { player_id: PlayerId, command: PlayerInputCommand },
    SpawnPlayer { player_id: PlayerId, spawn: S },
    DespawnPlayer(PlayerId),
}

impl<S> PhysicsCommand<S> {
    /// The player a command is about.
    pub open spec fn spec_player_id(&self) -> PlayerId {
        match *self {
            PhysicsCommand::PlayerInput { player_id, .. } => player_id,
            PhysicsCommand::SpawnPlayer { player_id, .. } => player_id,
            PhysicsCommand::DespawnPlayer(player_id) => player_id,
        }
    }

    /// The player a command is about.
    pub fn player_id(&self) -> (id: PlayerId)
        ensures
            id == self.spec_player_id(),
    {
        match self {
            PhysicsCommand::PlayerInput { player_id, .. } => *player_id,
            PhysicsCommand::SpawnPlayer { player_id, .. } => *player_id,
            PhysicsCommand::DespawnPlayer(player_id) => *player_id,
        }
    }
}

/// The input command that a client issues for its own player.
pub fn player_input_command<S>(client_id: usize, command: PlayerInputCommand) -> (issued: PhysicsCommand<S>)
    ensures
        issued == (PhysicsCommand::<S>::PlayerInput { player_id: PlayerId(client_id), command }),
{
    PhysicsCommand::PlayerInput { player_id: PlayerId(client_id), command }
}

/// The ids in `a` that are not in `b`, in the order of `a`.
pub open spec fn ids_not_in(a: Seq<PlayerId>, b: Seq<PlayerId>) -> Seq<PlayerId> {
    a.filter(|id: PlayerId| !b.contains(id))
}

fn contains_id(ids: &Vec<PlayerId>, id: PlayerId) -> (found: bool)
    ensures
        found == ids@.contains(id),
{
    let mut j: usize = 0;
    while j < ids.len()
        invariant
            j <= ids.len(),
            forall|m: int| 0 <= m < j ==> ids@[m] != id,
        decreases ids.len() - j,
    {
        if ids[j].0 == id.0 {
            assert(ids@[j as int] == id);
            return true;
        }
        j = j + 1;
    }
    false
}

fn difference(a: &Vec<PlayerId>, b: &Vec<PlayerId>) -> (d: Vec<PlayerId>)
    ensures
        d@ == ids_not_in(a@, b@),
{
    let mut d: Vec<PlayerId> = Vec::new();
    let mut i: usize = 0;
    while i < a.len()
        invariant
            i <= a.len(),
            d@ == ids_not_in(a@.take(i as int), b@),
        decreases a.len() - i,
    {
        let ghost prefix = a@.take(i as int);
        proof {
            assert(a@.take(i as int + 1).drop_last() =~= prefix);
            assert(a@.take(i as int + 1).last() == a@[i as int]);
            reveal_with_fuel(Seq::filter, 1);
        }
        if !contains_id(b, a[i]) {
            d.push(a[i]);
        }
        i = i + 1;
    }
    proof {
        assert(a@.take(a.len() as int) =~= a@);
    }
    d
}

/// Which shown players to spawn and which to despawn so that the shown players become the
/// players of the new state: spawn the new ones that are not shown, despawn the shown ones
/// that are gone, each in the order of its list.
pub fn spawn_and_despawn(new_ids: &Vec<PlayerId>, shown_ids: &Vec<PlayerId>) -> (plan: (Vec<PlayerId>, Vec<PlayerId>))
    ensures
        plan.0@ == ids_not_in(new_ids@, shown_ids@),
        plan.1@ == ids_not_in(shown_ids@, new_ids@),
{
    (difference(new_ids, shown_ids), difference(shown_ids, new_ids))
}

/// Law: after despawning and spawning as planned, the shown players are exactly the
/// players of the new state.
pub proof fn lemma_spawn_despawn_sync(new_ids: Seq<PlayerId>, shown_ids: Seq<PlayerId>)
    ensures
        shown_ids.to_set().difference(ids_not_in(shown_ids, new_ids).to_set()).union(
            ids_not_in(new_ids, shown_ids).to_set(),
        ) == new_ids.to_set(),
{
    let despawn = ids_not_in(shown_ids, new_ids);
    let spawn = ids_not_in(new_ids, shown_ids);
    assert forall|id: PlayerId| despawn.contains(id) <==> shown_ids.contains(id) && !new_ids.contains(id) by {
        if despawn.contains(id) {
            shown_ids.lemma_filter_contains_rev(|x: PlayerId| !new_ids.contains(x), id);
        }
        if shown_ids.contains(id) && !new_ids.contains(id) {
            let i = choose|i: int| 0 <= i < shown_ids.len() && shown_ids[i] == id;
            shown_ids.lemma_filter_contains(|x: PlayerId| !new_ids.contains(x), i);
        }
    }
    assert forall|id: PlayerId| spawn.contains(id) <==> new_ids.contains(id) && !shown_ids.contains(id) by {
        if spawn.contains(id) {
            new_ids.lemma_filter_contains_rev(|x: PlayerId| !shown_ids.contains(x), id);
        }
        if new_ids.contains(id) && !shown_ids.contains(id) {
            let i = choose|i: int| 0 <= i < new_ids.len() && new_ids[i] == id;
            new_ids.lemma_filter_contains(|x: PlayerId| !shown_ids.contains(x), i);
        }
    }
    assert(shown_ids.to_set().difference(despawn.to_set()).union(spawn.to_set()) =~= new_ids.to_set());
}

/// The players of the world after a command. An input command changes the keys of an
/// existing player (and is ignored for an unknown one), a spawn puts a new player with no key
/// held and the body `body` under the id (replacing any player there), and a despawn removes
/// the player.
pub open spec fn players_after_command<S, B>(
    players: Map<PlayerId, Player<B>>,
    command: PhysicsCommand<S>,
    body: B,
) -> Map<PlayerId, Player<B>> {
    match command {
        PhysicsCommand::PlayerInput { player_id, command } => if players.contains_key(player_id) {
            players.insert(player_id, Player {
                input: players[player_id].input.with_command(command),
                body: players[player_id].body,
            })
        } else {
            players
        },
        PhysicsCommand::SpawnPlayer { player_id, .. } => players.insert(
            player_id,
            Player { input: PlayerInputState::released(), body },
        ),
        PhysicsCommand::DespawnPlayer(player_id) => players.remove(player_id),
    }
}

/// The ids of a snapshot's players, in its order.
pub open spec fn snapshot_ids<T>(snapshot: Seq<(PlayerId, PlayerInputState, T)>) -> Seq<PlayerId> {
    snapshot.map_values(|e: (PlayerId, PlayerInputState, T)| e.0)
}

/// The body of a player, if the players have it.
pub open spec fn previous_body<B>(players: Map<PlayerId, Player<B>>, id: PlayerId) -> Option<B> {
    if players.contains_key(id) {
        Some(players[id].body)
    } else {
        None
    }
}

/// The players of the physics world, by id.
pub struct PhysicsWorld<B> {
    players: KeyedMap<PlayerId, Player<B>>,
}

impl<B> View for PhysicsWorld<B> {
    type V = Map<PlayerId, Player<B>>;

    closed spec fn view(&self) -> Map<PlayerId, Player<B>> {
        self.players@
    }
}

impl<B> PhysicsWorld<B> {
    pub closed spec fn wf(&self) -> bool {
        self.players.wf()
    }

    /// A world without players.
    pub fn new() -> (world: Self)
        ensures
            world.wf(),
            world@ == Map::<PlayerId, Player<B>>::empty(),
    {
        PhysicsWorld { players: KeyedMap::new() }
    }

    /// A client may only issue commands about its own player.
    pub fn command_is_valid<S>(command: &PhysicsCommand<S>, client_id: usize) -> (valid: bool)
        ensures
            valid == (command.spec_player_id() == PlayerId(client_id)),
    {
        let player_id = command.player_id();
        player_id.0 == client_id
    }

    /// The players, by id.
    pub fn players(&self) -> (players: &KeyedMap<PlayerId, Player<B>>)
        requires
            self.wf(),
        ensures
            players.wf(),
            players@ == self@,
    {
        &self.players
    }

    /// Applies a command to the players of the world. A spawn makes the new player's body with
    /// `make_body` from the spawn parameters. The body of a player that a spawn replaces or a
    /// despawn removes is given back, so that the caller can take it out of the simulation.
    pub fn apply_command<S, F: FnOnce(S) -> B>(
        &mut self,
        command: PhysicsCommand<S>,
        make_body: F,
    ) -> (retired: Option<B>)
        requires
            old(self).wf(),
            command matches PhysicsCommand::SpawnPlayer { spawn, .. } ==> make_body.requires((spawn,)),
        ensures
            final(self).wf(),
            match command {
                PhysicsCommand::SpawnPlayer { player_id, spawn } => {
                    &&& final(self)@.contains_key(player_id)
                    &&& make_body.ensures((spawn,), final(self)@[player_id].body)
                    &&& final(self)@ == players_after_command(old(self)@, command, final(self)@[player_id].body)
                },
                _ => forall|b: B| final(self)@ == #[trigger] players_after_command(old(self)@, command, b),
            },
            match command {
                PhysicsCommand::PlayerInput { .. } => retired is None,
                _ => match retired {
                    Some(b) => old(self)@.contains_key(command.spec_player_id())
                        && b == old(self)@[command.spec_player_id()].body,
                    None => !old(self)@.contains_key(command.spec_player_id()),
                },
            },
    {
        match command {
            PhysicsCommand::PlayerInput { player_id, command: input_command } => {
                let found = self.players.remove(&player_id);
                match found {
                    Some(player) => {
                        let mut player = player;
                        player.apply_command(&input_command);
                        let _previous = self.players.insert(player_id, player);
                        proof {
                            assert(self@ =~= old(self)@.insert(player_id, Player {
                                input: old(self)@[player_id].input.with_command(input_command),
                                body: old(self)@[player_id].body,
                            }));
                        }
                    },
                    None => {
                        proof {
                            assert(self@ =~= old(self)@);
                        }
                    },
                }
                None
            },
            PhysicsCommand::SpawnPlayer { player_id, spawn } => {
                let body = make_body(spawn);
                let previous = self.players.insert(player_id, Player::new(body));
                match previous {
                    Some(player) => Some(player.body),
                    None => None,
                }
            },
            PhysicsCommand::DespawnPlayer(player_id) => {
                let removed = self.players.remove(&player_id);
                match removed {
                    Some(player) => Some(player.body),
                    None => None,
                }
            },
        }
    }

    /// Makes the players follow a snapshot of the world, given as each player's id, the keys it
    /// holds and the rest of its state (forces, collision state, body positions and
    /// velocities, and what a new body is made from). The players missing from the snapshot
    /// are taken out and given back, so that their bodies can leave the simulation. Every
    /// player of the snapshot then holds the snapshot's keys, and its body is what `sync_body`
    /// makes of its current body (`None` for a player the world did not have) and the
    /// snapshot's state. A snapshot lists each player once.
    pub fn apply_snapshot<T, F: Fn(Option<B>, &T) -> B>(
        &mut self,
        snapshot: &Vec<(PlayerId, PlayerInputState, T)>,
        sync_body: F,
    ) -> (retired: Vec<(PlayerId, Player<B>)>)
        requires
            old(self).wf(),
            forall|a: int, b: int| 0 <= a < b < snapshot.len() ==> #[trigger] snapshot[a].0 != #[trigger] snapshot[b].0,
            forall|previous: Option<B>, state: &T| #[trigger] sync_body.requires((previous, state)),
        ensures
            final(self).wf(),
            final(self)@.dom() == snapshot_ids(snapshot@).to_set(),
            forall|j: int| 0 <= j < snapshot.len() ==> {
                &&& final(self)@[(#[trigger] snapshot[j]).0].input == snapshot[j].1
                &&& sync_body.ensures(
                    (previous_body(old(self)@, snapshot[j].0), &snapshot[j].2),
                    final(self)@[snapshot[j].0].body,
                )
            },
            forall|j: int| 0 <= j < retired.len() ==> #[trigger] old(self)@.contains_key(retired[j].0)
                && old(self)@[retired[j].0] == retired[j].1
                && !snapshot_ids(snapshot@).contains(retired[j].0),
            retired@.map_values(|e: (PlayerId, Player<B>)| e.0).to_set()
                == old(self)@.dom().difference(snapshot_ids(snapshot@).to_set()),
    {
        let ghost sids = snapshot_ids(snapshot@);
        let mut ids: Vec<PlayerId> = Vec::new();
        let mut k: usize = 0;
        while k < snapshot.len()
            invariant
                k <= snapshot.len(),
                sids == snapshot_ids(snapshot@),
                ids@ == sids.take(k as int),
            decreases snapshot.len() - k,
        {
            ids.push(snapshot[k].0);
            proof {
                assert(sids.take(k as int + 1) =~= sids.take(k as int).push(snapshot@[k as int].0));
            }
            k = k + 1;
        }
        proof {
            assert(sids.take(snapshot.len() as int) =~= sids);
            assert(ids@.map_values(|k: PlayerId| k@) =~= ids@);
        }
        let retired = self.players.retain_keys(&ids);
        proof {
            assert forall|j: int| 0 <= j < retired.len() implies #[trigger] old(self)@.contains_key(retired[j].0)
                && old(self)@[retired[j].0] == retired[j].1 && !sids.contains(retired[j].0) by {
                assert(old(self)@.contains_key(retired[j].0@));
                assert(!ids@.map_values(|k: PlayerId| k@).contains(retired[j].0@));
            }
            assert(retired@.map_values(|e: (PlayerId, Player<B>)| e.0@) =~= retired@.map_values(|e: (PlayerId, Player<B>)| e.0));
        }
        let ghost kept = self@;
        let mut i: usize = 0;
        while i < snapshot.len()
            invariant
                self.wf(),
                i <= snapshot.len(),
                sids == snapshot_ids(snapshot@),
                forall|a: int, b: int| 0 <= a < b < snapshot.len() ==> #[trigger] snapshot[a].0 != #[trigger] snapshot[b].0,
                forall|previous: Option<B>, state: &T| #[trigger] sync_body.requires((previous, state)),
                kept == old(self)@.restrict(sids.to_set()),
                self@.dom() == kept.dom().union(sids.take(i as int).to_set()),
                forall|id: PlayerId| #[trigger] self@.contains_key(id) && !sids.take(i as int).contains(id)
                    ==> self@[id] == kept[id],
                forall|j: int| 0 <= j < i ==> {
                    &&& self@.contains_key((#[trigger] snapshot[j]).0)
                    &&& self@[snapshot[j].0].input == snapshot[j].1
                    &&& sync_body.ensures(
                        (previous_body(old(self)@, snapshot[j].0), &snapshot[j].2),
                        self@[snapshot[j].0].body,
                    )
                },
            decreases snapshot.len() - i,
        {
            let id = snapshot[i].0;
            let input = snapshot[i].1;
            let ghost before = self@;
            proof {
                assert(sids[i as int] == id);
                assert(sids.take(i as int + 1) =~= sids.take(i as int).push(id));
                sids.take(i as int).lemma_push_to_set_commute(id);
                assert(!sids.take(i as int).contains(id)) by {
                    if sids.take(i as int).contains(id) {
                        let m = choose|m: int| 0 <= m < i && sids.take(i as int)[m] == id;
                        assert(snapshot[m].0 == snapshot[i as int].0);
                    }
                }
                assert(sids.contains(id)) by {
                    assert(sids[i as int] == id);
                }
            }
            let previous = self.players.remove(&id);
            let previous = match previous {
                Some(player) => Some(player.body),
                None => None,
            };
            proof {
                assert(previous == previous_body(old(self)@, id));
            }
            let body = sync_body(previous, &snapshot[i].2);
            let _replaced = self.players.insert(id, Player { input, body });
            proof {
                assert(self@.dom() =~= kept.dom().union(sids.take(i as int + 1).to_set()));
                assert forall|id2: PlayerId| #[trigger] self@.contains_key(id2) && !sids.take(i as int + 1).contains(id2)
                    implies self@[id2] == kept[id2] by {
                    assert(sids.take(i as int + 1)[i as int] == id);
                    assert(id2 != id);
                    if sids.take(i as int).contains(id2) {
                        let m = choose|m: int| 0 <= m < i && sids.take(i as int)[m] == id2;
                        assert(sids.take(i as int + 1)[m] == id2);
                    }
                }
                assert forall|j: int| 0 <= j < i + 1 implies {
                    &&& self@.contains_key((#[trigger] snapshot[j]).0)
                    &&& self@[snapshot[j].0].input == snapshot[j].1
                    &&& sync_body.ensures(
                        (previous_body(old(self)@, snapshot[j].0), &snapshot[j].2),
                        self@[snapshot[j].0].body,
                    )
                } by {
                    if j < i {
                        assert(snapshot[j].0 != snapshot[i as int].0);
                    }
                }
            }
            i = i + 1;
        }
        proof {
            assert(sids.take(snapshot.len() as int) =~= sids);
            assert(self@.dom() =~= sids.to_set());
        }
        retired
    }
}

/// The command a client issues when it learns of a connection event: once its connection is
/// ready and it has connected as `client_id`, it spawns its own player with the given spawn
/// parameters; any other event issues nothing.
pub fn spawn_command<S>(event: ClientConnectionEvent, client_ready: bool, spawn: S) -> (issued: Option<PhysicsCommand<S>>)
    ensures
        match event {
            ClientConnectionEvent::Connected(client_id) => if client_ready {
                issued == Some(PhysicsCommand::SpawnPlayer { player_id: PlayerId(client_id), spawn })
            } else {
                issued is None
            },
            ClientConnectionEvent::Disconnected(_) => issued is None,
        },
{
    match event {
        ClientConnectionEvent::Connected(client_id) => {
            if client_ready {
                Some(PhysicsCommand::SpawnPlayer { player_id: PlayerId(client_id), spawn })
            } else {
                None
            }
        },
        ClientConnectionEvent::Disconnected(_) => None,
    }
}

/// The command the server issues when it learns of a connection event: a disconnected
/// client's player is despawned; a connection issues nothing.
pub fn despawn_command<S>(event: ClientConnectionEvent) -> (issued: Option<PhysicsCommand<S>>)
    ensures
        match event {
            ClientConnectionEvent::Disconnected(client_id) => issued == Some(PhysicsCommand::<S>::DespawnPlayer(PlayerId(client_id))),
            ClientConnectionEvent::Connected(_) => issued is None,
        },
{
    match event {
        ClientConnectionEvent::Disconnected(client_id) => Some(PhysicsCommand::DespawnPlayer(PlayerId(client_id))),
        ClientConnectionEvent::Connected(_) => None,
    }
}

/// The players after the input commands `commands` about one player arrive in order.
pub open spec fn players_after_inputs<B>(
    players: Map<PlayerId, Player<B>>,
    player_id: PlayerId,
    commands: Seq<PlayerInputCommand>,
) -> Map<PlayerId, Player<B>>
    decreases commands.len(),
{
    if commands.len() == 0 {
        players
    } else {
        let before = players_after_inputs(players, player_id, commands.drop_last());
        players_after_command::<(), B>(
            before,
            PhysicsCommand::PlayerInput { player_id, command: commands.last() },
            before[player_id].body,
        )
    }
}

proof fn lemma_players_after_inputs<B>(
    players: Map<PlayerId, Player<B>>,
    player_id: PlayerId,
    commands: Seq<PlayerInputCommand>,
)
    requires
        players.contains_key(player_id),
    ensures
        players_after_inputs(players, player_id, commands) == players.insert(
            player_id,
            Player { input: apply_commands(players[player_id].input, commands), body: players[player_id].body },
        ),
    decreases commands.len(),
{
    if commands.len() == 0 {
        assert(players.insert(player_id, Player { input: players[player_id].input, body: players[player_id].body })
            =~= players);
    } else {
        lemma_players_after_inputs(players, player_id, commands.drop_last());
        let before = players_after_inputs(players, player_id, commands.drop_last());
        assert(players_after_inputs(players, player_id, commands) =~= players.insert(
            player_id,
            Player { input: apply_commands(players[player_id].input, commands), body: players[player_id].body },
        ));
    }
}

/// Law: the world's copy of a player's keys follows its client. When the input commands that
/// the client issues for its new key state (see `input_commands`) reach a world in which the
/// player holds the keys the client reported before, in order, the player holds the client's
/// current keys; its body and every other player are unchanged.
pub proof fn lemma_world_follows_client_input<B>(
    players: Map<PlayerId, Player<B>>,
    player_id: PlayerId,
    previous: PlayerInputState,
    current: PlayerInputState,
    resync: bool,
)
    requires
        players.contains_key(player_id),
        players[player_id].input == previous,
    ensures
        ({
            let after = players_after_inputs(players, player_id, input_commands_spec(previous, current, resync));
            &&& after.dom() == players.dom()
            &&& after[player_id].input == current
            &&& after[player_id].body == players[player_id].body
            &&& forall|other: PlayerId| #[trigger] players.contains_key(other) && other != player_id ==> after[other] == players[other]
        }),
{
    let commands = input_commands_spec(previous, current, resync);
    lemma_players_after_inputs(players, player_id, commands);
    lemma_input_commands_reconstruct(previous, current, resync);
    let after = players_after_inputs(players, player_id, commands);
    assert(after.dom() =~= players.dom());
}

/// Law: despawning a player that was just spawned leaves the other players as they were
/// before the spawn, and the player gone.
pub proof fn lemma_spawn_then_despawn<S, B>(players: Map<PlayerId, Player<B>>, player_id: PlayerId, spawn: S, body: B, other_body: B)
    ensures
        players_after_command(
            players_after_command(players, PhysicsCommand::SpawnPlayer { player_id, spawn }, body),
            PhysicsCommand::<S>::DespawnPlayer(player_id),
            other_body,
        ) == players.remove(player_id),
{
    assert(players.insert(player_id, Player { input: PlayerInputState::released(), body }).remove(player_id)
        =~= players.remove(player_id));
}

/// How an interpolated display state is put together: one entry per player of the new state,
/// in its order, telling whether the old state has the player too (its state is then
/// interpolated between the two) or not (the new state is then taken as it is).
pub fn interpolation_plan(old_ids: &Vec<PlayerId>, new_ids: &Vec<PlayerId>) -> (plan: Vec<(PlayerId, bool)>)
    ensures
        plan.len() == new_ids.len(),
        forall|i: int| 0 <= i < new_ids.len() ==> #[trigger] plan[i] == (new_ids[i], old_ids@.contains(new_ids[i])),
{
    let mut plan: Vec<(PlayerId, bool)> = Vec::new();
    let mut i: usize = 0;
    while i < new_ids.len()
        invariant
            i <= new_ids.len(),
            plan.len() == i,
            forall|j: int| 0 <= j < i ==> #[trigger] plan[j] == (new_ids[j], old_ids@.contains(new_ids[j])),
        decreases new_ids.len() - i,
    {
        let id = new_ids[i];
        let interpolate = contains_id(old_ids, id);
        plan.push((id, interpolate));
        i = i + 1;
    }
    plan
}

} // verus!
