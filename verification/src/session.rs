//! The registry of a running server: its worlds and its sessions, and what a
//! packet from a client does to them.

use vstd::prelude::*;
use vstd::string::*;
use crate::chat::{command_of, parse_chat, ChatCommand, ChatCommandView};
use crate::entity::{Entity, EntityPlayer, EntityType, INVENTORY_SLOTS};
use crate::fresh::least_free;
use crate::geometry::Vec2;
use crate::outside::new_id;
use crate::packet::{
    error_to, game_not_found, invalid_command, packet_to, username_taken, views, Dispatch,
    DispatchView, Packet, PacketView,
};
use crate::terrain::{is_lattice, TerrainGenerator, TileSample};
use crate::world::{
    chunk_entered, chunk_in_view, lists_chunks, AttackOutcome, Game, GameView, RegisterError,
};

verus! {

/// One live connection. It is bound to a world when its player registers,
/// once and for good.
#[derive(Debug)]
pub struct Client {
    pub id: u128,
    /// The id of the world that the session is bound to.
    pub game: Option<u128>,
    /// The name that the player registered under.
    pub username: Option<String>,
}

/// A session as mathematical values.
pub struct ClientView {
    pub id: u128,
    pub game: Option<u128>,
    pub username: Option<Seq<char>>,
}

impl View for Client {
    type V = ClientView;

    open spec fn view(&self) -> ClientView {
        ClientView {
            id: self.id,
            game: self.game,
            username: match self.username {
                Some(name) => Some(name@),
                None => None,
            },
        }
    }
}

impl Clone for Client {
    fn clone(&self) -> (copy: Self)
        ensures
            copy@ == self@,
    {
        Client {
            id: self.id,
            game: self.game,
            username: match &self.username {
                Some(name) => Some(name.clone()),
                None => None,
            },
        }
    }
}

/// Why a game could not be created.
#[derive(Clone, Copy, Debug, PartialEq, Eq, Structural)]
pub enum CreateGameError {
    /// A game of this name exists.
    NameTaken,
    /// A game with this id exists.
    IdTaken,
    /// The samples are not a lattice of a world.
    BadTerrain,
}

/// The directory of a server: its worlds, each under an id and a name of
/// its own, and its sessions, each under the id of its connection.
pub struct ServerState {
    games: Vec<Game>,
    clients: Vec<Client>,
}

/// The directory of a server as mathematical values.
pub struct ServerStateView {
    pub games: Seq<GameView>,
    pub clients: Seq<ClientView>,
}

impl ServerStateView {
    /// Whether there is a world with this id.
    pub open spec fn has_game(self, id: u128) -> bool {
        exists|i: int| 0 <= i < self.games.len() && (#[trigger] self.games[i]).id == id
    }

    /// The row of the world with this id.
    pub open spec fn game_row(self, id: u128) -> int
        recommends
            self.has_game(id),
    {
        choose|i: int| 0 <= i < self.games.len() && (#[trigger] self.games[i]).id == id
    }

    /// Whether there is a world of this name.
    pub open spec fn has_game_named(self, name: Seq<char>) -> bool {
        exists|i: int| 0 <= i < self.games.len() && (#[trigger] self.games[i]).name == name
    }

    /// The row of the world of this name.
    pub open spec fn game_named(self, name: Seq<char>) -> int
        recommends
            self.has_game_named(name),
    {
        choose|i: int| 0 <= i < self.games.len() && (#[trigger] self.games[i]).name == name
    }

    /// Whether there is a session with this id.
    pub open spec fn has_client(self, id: u128) -> bool {
        exists|i: int| 0 <= i < self.clients.len() && (#[trigger] self.clients[i]).id == id
    }

    /// The row of the session with this id.
    pub open spec fn client_row(self, id: u128) -> int
        recommends
            self.has_client(id),
    {
        choose|i: int| 0 <= i < self.clients.len() && (#[trigger] self.clients[i]).id == id
    }

    /// What holds of every directory: each world is valid, no two worlds
    /// share an id or a name, no two sessions share an id, and a session
    /// that is bound is bound to a world of the directory.
    pub open spec fn valid(self) -> bool {
        &&& forall|i: int| 0 <= i < self.games.len() ==> (#[trigger] self.games[i]).valid()
        &&& forall|i: int, j: int|
            0 <= i < j < self.games.len() ==> (#[trigger] self.games[i]).id
                != (#[trigger] self.games[j]).id
        &&& forall|i: int, j: int|
            0 <= i < j < self.games.len() ==> (#[trigger] self.games[i]).name
                != (#[trigger] self.games[j]).name
        &&& forall|i: int, j: int|
            0 <= i < j < self.clients.len() ==> (#[trigger] self.clients[i]).id
                != (#[trigger] self.clients[j]).id
        &&& forall|i: int|
            0 <= i < self.clients.len() && (#[trigger] self.clients[i]).game.is_some()
                ==> self.has_game(self.clients[i].game.unwrap())
    }

    /// Whether the session in row `i` is among the recipients of a
    /// broadcast: one to a world reaches the sessions bound to it, one to
    /// all reaches every session; and the session `except` is left out.
    pub open spec fn receives(self, i: int, world: Option<u128>, except: Option<u128>) -> bool {
        &&& 0 <= i < self.clients.len()
        &&& world.is_some() ==> self.clients[i].game == world
        &&& except != Some(self.clients[i].id)
    }

    /// The recipients of a broadcast among the sessions in the rows below
    /// `n`, in the order of the rows.
    pub open spec fn recipients_below(self, world: Option<u128>, except: Option<u128>, n: int) -> Seq<
        u128,
    >
        decreases n,
    {
        if n <= 0 {
            Seq::empty()
        } else if self.receives(n - 1, world, except) {
            self.recipients_below(world, except, n - 1).push(self.clients[n - 1].id)
        } else {
            self.recipients_below(world, except, n - 1)
        }
    }

    /// The recipients of a broadcast.
    pub open spec fn recipients(self, world: Option<u128>, except: Option<u128>) -> Seq<u128> {
        self.recipients_below(world, except, self.clients.len() as int)
    }

    /// Whether `after` is this directory with one more world, created under
    /// the id `id` and the name `name` from `seed` and `samples`. The new
    /// world stands behind the others.
    pub open spec fn founded(
        self,
        after: ServerStateView,
        id: u128,
        name: Seq<char>,
        seed: u32,
        samples: Seq<TileSample>,
    ) -> bool {
        &&& after.clients == self.clients
        &&& after.games.len() == self.games.len() + 1
        &&& after.games.drop_last() == self.games
        &&& after.games.last().is_new_world(id, name, seed, samples)
    }

    /// This directory with `world` in the row `row` of its worlds.
    pub open spec fn with_game(self, row: int, world: GameView) -> ServerStateView {
        ServerStateView { games: self.games.update(row, world), ..self }
    }

    /// This directory with `client` in the row `row` of its sessions.
    pub open spec fn with_client(self, row: int, client: ClientView) -> ServerStateView {
        ServerStateView { clients: self.clients.update(row, client), ..self }
    }

    /// The row of the world that the session `client` is bound to.
    pub open spec fn bound_to(self, client: u128) -> Option<int> {
        if self.has_client(client) && self.clients[self.client_row(client)].game.is_some() {
            Some(self.game_row(self.clients[self.client_row(client)].game.unwrap()))
        } else {
            None
        }
    }
}

/// The instructions to send `client` each of `chunks`, in this order.
pub open spec fn chunk_sends(terrain: TerrainGenerator, client: u128, chunks: Seq<(i32, i32)>) -> Seq<
    DispatchView,
> {
    Seq::new(
        chunks.len(),
        |k: int|
            packet_to(
                seq![client],
                PacketView::TerrainChunk { chunk: terrain.chunk_at(chunks[k].0, chunks[k].1) },
            ),
    )
}

/// The instructions to tell `client` about each of `loads`, in this order.
pub open spec fn load_sends(client: u128, loads: Seq<Entity>) -> Seq<DispatchView> {
    Seq::new(
        loads.len(),
        |k: int| packet_to(seq![client], PacketView::EntityLoad { entity: loads[k] }),
    )
}

/// The instructions to have `client` forget each of `unloads`, in this
/// order.
pub open spec fn unload_sends(client: u128, unloads: Seq<u128>) -> Seq<DispatchView> {
    Seq::new(
        unloads.len(),
        |k: int| packet_to(seq![client], PacketView::EntityUnload { id: unloads[k] }),
    )
}

/// What is sent after the entity of `client` moved to `to` in `world`: to
/// the client the chunks that came into view, the entities it now sees and
/// the ids of those it is to forget; then the move itself to `audience`.
pub open spec fn move_sends(
    world: GameView,
    client: u128,
    to: Vec2,
    chunks: Seq<(i32, i32)>,
    audience: Seq<u128>,
) -> Seq<DispatchView> {
    let from = world.entities[world.row_of(client)].position;
    let rows = world.entities.len() as int;
    chunk_sends(world.terrain, client, chunks) + load_sends(
        client,
        world.loads_below(client, from, to, rows),
    ) + unload_sends(client, world.unloads_below(client, to, rows)) + seq![
        packet_to(audience, PacketView::EntityMove { id: client, new_position: to }),
    ]
}

/// What is sent after `client` joined `world`, in which its entity `entity`
/// has been placed: to the client the chunks in view; to the players that
/// now see it the new entity; to the client the entities it now sees; and
/// to the client the word that it is registered.
pub open spec fn join_sends(world: GameView, client: u128, entity: Entity, chunks: Seq<(i32, i32)>) -> Seq<
    DispatchView,
> {
    let row = world.row_of(client);
    let rows = world.entities.len() as int;
    chunk_sends(world.terrain, client, chunks) + seq![
        packet_to(world.audience_below(row, rows), PacketView::EntityLoad { entity }),
    ] + load_sends(client, world.join_loads_below(client, entity.position, rows)) + seq![
        packet_to(seq![client], PacketView::PlayerRegistered { id: client }),
    ]
}

/// What is sent after the hit `hit`: the damage to those who saw the
/// target; its death, if it died, to the same; and where a player died, the
/// word of it to `everyone`.
pub open spec fn attack_sends(hit: AttackOutcome, everyone: Seq<u128>) -> Seq<DispatchView> {
    seq![
        packet_to(
            hit.viewers@,
            PacketView::EntityDamage { id: hit.target, new_health: hit.new_health },
        ),
    ] + (if hit.new_health <= 0 {
        seq![packet_to(hit.viewers@, PacketView::EntityDeath { id: hit.target })]
    } else {
        Seq::empty()
    }) + (match hit.kill_message {
        Some(message) => seq![
            packet_to(everyone, PacketView::SystemMessage { message: message@ }),
        ],
        None => Seq::empty(),
    })
}

impl ServerStateView {
    /// Whether `after` and `sent` are what comes of the registration of the
    /// session `client` as `username` in the game `game_name`. A session
    /// that is unknown or bound already changes nothing and is told
    /// nothing. An unknown game and a reserved name are answered with their
    /// error codes, and change nothing. Otherwise the session is bound to
    /// the world, a new player stands at a spawn point of it, and has joined
    /// it.
    pub open spec fn registered(
        self,
        after: ServerStateView,
        client: u128,
        game_name: Seq<char>,
        username: Seq<char>,
        skin: u32,
        sent: Seq<DispatchView>,
    ) -> bool {
        if !self.has_client(client) || self.clients[self.client_row(client)].game.is_some() {
            after == self && sent.len() == 0
        } else if !self.has_game_named(game_name) {
            after == self && sent == seq![error_to(client, game_not_found())]
        } else {
            let g = self.game_named(game_name);
            let world = self.games[g];
            if world.name_taken(username) {
                after == self && sent == seq![error_to(client, username_taken())]
            } else if world.has_entity(client) {
                after == self && sent.len() == 0
            } else {
                exists|entity: Entity, chunks: Seq<(i32, i32)>|
                    {
                        &&& world.is_spawn_point(entity.position)
                        &&& entity.is_new_player(client, entity.position, username, skin)
                        &&& after == self.with_game(
                            g,
                            world.with_player(entity, username).after_join(client),
                        ).with_client(
                            self.client_row(client),
                            ClientView {
                                id: client,
                                game: Some(world.id),
                                username: Some(username),
                            },
                        )
                        &&& lists_chunks(
                            chunks,
                            |cx: int, cy: int| chunk_in_view(cx, cy, entity.position),
                        )
                        &&& sent == #[trigger] join_sends(
                            world.with_player(entity, username),
                            client,
                            entity,
                            chunks,
                        )
                    }
            }
        }
    }

    /// Who is told of a move of `client`: every session; the mover itself
    /// only where `echo` is set.
    pub open spec fn move_audience(self, client: u128, echo: bool) -> Seq<u128> {
        if echo {
            self.recipients(None, None)
        } else {
            self.recipients(None, Some(client))
        }
    }

    /// Whether `after` and `sent` are what comes of a move of the session
    /// `client` to `to`. The move is told to every session; to the mover
    /// itself only where `echo` is set. A session that is not bound, or has
    /// no entity in its world, changes nothing and is told nothing.
    pub open spec fn moved(
        self,
        after: ServerStateView,
        client: u128,
        to: Vec2,
        echo: bool,
        sent: Seq<DispatchView>,
    ) -> bool {
        if self.bound_to(client).is_some() && self.games[self.bound_to(
            client,
        ).unwrap()].has_entity(client) {
            let g = self.bound_to(client).unwrap();
            let world = self.games[g];
            let from = world.entities[world.row_of(client)].position;
            &&& after == self.with_game(g, world.after_move(client, to))
            &&& exists|chunks: Seq<(i32, i32)>|
                lists_chunks(chunks, |cx: int, cy: int| chunk_entered(cx, cy, from, to)) && sent
                    == #[trigger] move_sends(
                    world,
                    client,
                    to,
                    chunks,
                    self.move_audience(client, echo),
                )
        } else {
            after == self && sent.len() == 0
        }
    }

    /// Whether `after` and `sent` are what comes of the chat line `line` of
    /// the session `client`. Speech goes to every session of the speaker's
    /// world, under the speaker's name. The command to be taken to a player
    /// moves the speaker to where that player stands, and the move is told
    /// to the speaker too. A command that cannot be carried out is answered
    /// to the speaker alone. A session that is not bound changes nothing and
    /// is told nothing.
    pub open spec fn chatted(
        self,
        after: ServerStateView,
        client: u128,
        line: Seq<char>,
        sent: Seq<DispatchView>,
    ) -> bool {
        if self.bound_to(client).is_some() && self.clients[self.client_row(
            client,
        )].username.is_some() {
            let world = self.games[self.bound_to(client).unwrap()];
            let name = self.clients[self.client_row(client)].username.unwrap();
            let refusal = seq![
                packet_to(seq![client], PacketView::SystemMessage { message: invalid_command() }),
            ];
            match command_of(line) {
                ChatCommandView::Say => after == self && sent == seq![
                    packet_to(
                        self.recipients(Some(world.id), None),
                        PacketView::ChatMessage { id: client, message: line, username: name },
                    ),
                ],
                ChatCommandView::Teleport(target) => if world.has_player_named(target)
                    && world.has_entity(client) {
                    self.moved(after, client, world.player_position(target), true, sent)
                } else {
                    after == self && sent == refusal
                },
                ChatCommandView::Invalid => after == self && sent == refusal,
            }
        } else {
            after == self && sent.len() == 0
        }
    }

    /// Whether `after` and `sent` are what comes of an attack of the session
    /// `client` at `cursor`. Where the client is a player of its world and
    /// an entity is in reach, the target is hit. Otherwise nothing changes
    /// and nothing is sent.
    pub open spec fn attacked(
        self,
        after: ServerStateView,
        client: u128,
        cursor: Vec2,
        sent: Seq<DispatchView>,
    ) -> bool {
        if self.bound_to(client).is_some() && self.games[self.bound_to(
            client,
        ).unwrap()].can_attack(client) && exists|t: int|
            self.games[self.bound_to(client).unwrap()].is_target(client, t, cursor) {
            let g = self.bound_to(client).unwrap();
            let world = self.games[g];
            exists|t: int, hit: AttackOutcome|
                {
                    &&& world.is_target(client, t, cursor)
                    &&& #[trigger] world.is_hit(world.row_of(client), t, hit)
                    &&& after == self.with_game(g, world.after_hit(t, hit.new_health))
                    &&& sent == attack_sends(hit, self.recipients(Some(world.id), None))
                }
        } else {
            after == self && sent.len() == 0
        }
    }

    /// Whether `after` is what comes of the session `client` taking the slot
    /// `slot` in hand. A number that names no slot changes nothing, nor
    /// does a session that is no player of its world.
    pub open spec fn selected(self, after: ServerStateView, client: u128, slot: u32) -> bool {
        if self.bound_to(client).is_some() && self.games[self.bound_to(
            client,
        ).unwrap()].can_attack(client) && slot < INVENTORY_SLOTS {
            let g = self.bound_to(client).unwrap();
            let world = self.games[g];
            after == self.with_game(g, world.after_select(world.row_of(client), slot))
        } else {
            after == self
        }
    }

    /// Whether `after` and `sent` are what comes of `packet`, received from
    /// the session `client`. A move under another id than the sender's, and
    /// a packet of a kind that only the server sends, change nothing and are
    /// answered with nothing.
    pub open spec fn handled(
        self,
        after: ServerStateView,
        client: u128,
        packet: PacketView,
        sent: Seq<DispatchView>,
    ) -> bool {
        match packet {
            PacketView::PlayerRegister { game_name, username, skin } => self.registered(
                after,
                client,
                game_name,
                username,
                skin,
                sent,
            ),
            PacketView::EntityMove { id, new_position } => if id == client {
                self.moved(after, client, new_position, false, sent)
            } else {
                after == self && sent.len() == 0
            },
            PacketView::ChatMessageSend { message } => self.chatted(after, client, message, sent),
            PacketView::PlayerAttack { cursor_world_pos } => self.attacked(
                after,
                client,
                cursor_world_pos,
                sent,
            ),
            PacketView::InventorySelect { selected } => self.selected(after, client, selected)
                && sent.len() == 0,
            _ => after == self && sent.len() == 0,
        }
    }
}

/// A session is bound for good: whatever packet is carried out, by whatever
/// session, the sessions stay as many, each under its id, and one that is
/// bound to a world stays bound to it.
pub proof fn lemma_binding_is_kept(
    state: ServerStateView,
    after: ServerStateView,
    client: u128,
    packet: PacketView,
    sent: Seq<DispatchView>,
)
    requires
        state.valid(),
        state.handled(after, client, packet, sent),
    ensures
        after.clients.len() == state.clients.len(),
        forall|i: int|
            0 <= i < state.clients.len() ==> (#[trigger] after.clients[i]).id
                == state.clients[i].id,
        forall|i: int|
            0 <= i < state.clients.len() && state.clients[i].game.is_some() ==> (
            #[trigger] after.clients[i]).game == state.clients[i].game,
{
    match packet {
        PacketView::PlayerRegister { game_name, username, skin } => {
            assert(state.registered(after, client, game_name, username, skin, sent));
        },
        PacketView::EntityMove { id, new_position } => {
            if id == client {
                assert(state.moved(after, client, new_position, false, sent));
            }
        },
        PacketView::ChatMessageSend { message } => {
            assert(state.chatted(after, client, message, sent));
        },
        PacketView::PlayerAttack { cursor_world_pos } => {
            assert(state.attacked(after, client, cursor_world_pos, sent));
        },
        PacketView::InventorySelect { selected } => {
            assert(state.selected(after, client, selected));
        },
        _ => {},
    }
}

/// A directory stays valid where one of its worlds is replaced by a valid
/// one of the same id and name.
pub proof fn lemma_with_game_valid(state: ServerStateView, row: int, world: GameView)
    requires
        state.valid(),
        0 <= row < state.games.len(),
        world.valid(),
        world.id == state.games[row].id,
        world.name == state.games[row].name,
    ensures
        state.with_game(row, world).valid(),
{
    let after = state.with_game(row, world);
    assert forall|i: int| 0 <= i < after.games.len() implies (#[trigger] after.games[i]).id
        == state.games[i].id && after.games[i].name == state.games[i].name
        && after.games[i].valid() by {}
    assert forall|i: int|
        0 <= i < after.clients.len() && (#[trigger] after.clients[i]).game.is_some()
        implies after.has_game(after.clients[i].game.unwrap()) by {
        let id = state.clients[i].game.unwrap();
        assert(state.has_game(id));
        let k = state.game_row(id);
        assert(after.games[k].id == id);
    }
}

impl View for ServerState {
    type V = ServerStateView;

    closed spec fn view(&self) -> ServerStateView {
        ServerStateView {
            games: Seq::new(self.games@.len(), |i: int| self.games@[i]@),
            clients: Seq::new(self.clients@.len(), |i: int| self.clients@[i]@),
        }
    }
}

impl ServerState {
    /// What the representation keeps beyond `ServerStateView::valid`: that
    /// of each world.
    pub closed spec fn inv(&self) -> bool {
        forall|i: int| 0 <= i < self.games@.len() ==> (#[trigger] self.games@[i]).inv()
    }

    /// Well-formedness of a directory.
    pub open spec fn wf(&self) -> bool {
        self.inv() && self@.valid()
    }

    /// A directory without worlds and sessions.
    pub fn new() -> (state: Self)
        ensures
            state.wf(),
            state@.games.len() == 0,
            state@.clients.len() == 0,
    {
        ServerState { games: Vec::new(), clients: Vec::new() }
    }

    /// The worlds, in the order in which they were created.
    pub fn games(&self) -> (games: &Vec<Game>)
        ensures
            games@.len() == self@.games.len(),
            forall|i: int| 0 <= i < games@.len() ==> (#[trigger] games@[i])@ == self@.games[i],
            self.wf() ==> forall|i: int| 0 <= i < games@.len() ==> (#[trigger] games@[i]).wf(),
    {
        proof {
            if self.wf() {
                assert forall|i: int| 0 <= i < self.games@.len() implies (
                #[trigger] self.games@[i]).wf() by {
                    assert(self@.games[i].valid());
                }
            }
        }
        &self.games
    }

    /// The sessions, in the order in which they connected.
    pub fn clients(&self) -> (clients: &Vec<Client>)
        ensures
            clients@.len() == self@.clients.len(),
            forall|i: int| 0 <= i < clients@.len() ==> (#[trigger] clients@[i])@ == self@.clients[i],
    {
        &self.clients
    }

    /// The row of the world with this id.
    pub fn find_game(&self, id: u128) -> (row: Option<usize>)
        requires
            self.wf(),
        ensures
            row.is_some() == self@.has_game(id),
            row matches Some(i) ==> i == self@.game_row(id) && i < self@.games.len(),
    {
        let mut i: usize = 0;
        while i < self.games.len()
            invariant
                0 <= i <= self.games.len(),
                self.wf(),
                forall|k: int| 0 <= k < i ==> (#[trigger] self@.games[k]).id != id,
            decreases self.games.len() - i,
        {
            if self.games[i].id() == id {
                proof {
                    assert(self@.games[i as int].id == id);
                    assert(self@.has_game(id));
                    let chosen = self@.game_row(id);
                    if chosen < i {
                        assert(self@.games[chosen].id != self@.games[i as int].id);
                    } else if chosen > i {
                        assert(self@.games[i as int].id != self@.games[chosen].id);
                    }
                }
                return Some(i);
            }
            i = i + 1;
        }
        None
    }

    /// The row of the world of this name.
    pub fn find_game_by_name(&self, name: &str) -> (row: Option<usize>)
        requires
            self.wf(),
        ensures
            row.is_some() == self@.has_game_named(name@),
            row matches Some(i) ==> i == self@.game_named(name@) && i < self@.games.len(),
    {
        let wanted = String::from_str(name);
        let mut i: usize = 0;
        while i < self.games.len()
            invariant
                0 <= i <= self.games.len(),
                wanted@ == name@,
                self.wf(),
                forall|k: int| 0 <= k < i ==> (#[trigger] self@.games[k]).name != name@,
            decreases self.games.len() - i,
        {
            if *self.games[i].name() == wanted {
                proof {
                    assert(self@.games[i as int].name == name@);
                    assert(self@.has_game_named(name@));
                    let chosen = self@.game_named(name@);
                    if chosen < i {
                        assert(self@.games[chosen].name != self@.games[i as int].name);
                    } else if chosen > i {
                        assert(self@.games[i as int].name != self@.games[chosen].name);
                    }
                }
                return Some(i);
            }
            i = i + 1;
        }
        None
    }

    /// The row of the session with this id.
    pub fn find_client(&self, id: u128) -> (row: Option<usize>)
        requires
            self.wf(),
        ensures
            row.is_some() == self@.has_client(id),
            row matches Some(i) ==> i == self@.client_row(id) && i < self@.clients.len(),
    {
        let mut i: usize = 0;
        while i < self.clients.len()
            invariant
                0 <= i <= self.clients.len(),
                self.wf(),
                forall|k: int| 0 <= k < i ==> (#[trigger] self@.clients[k]).id != id,
            decreases self.clients.len() - i,
        {
            if self.clients[i].id == id {
                proof {
                    assert(self@.clients[i as int].id == id);
                    assert(self@.has_client(id));
                    let chosen = self@.client_row(id);
                    if chosen < i {
                        assert(self@.clients[chosen].id != self@.clients[i as int].id);
                    } else if chosen > i {
                        assert(self@.clients[i as int].id != self@.clients[chosen].id);
                    }
                }
                return Some(i);
            }
            i = i + 1;
        }
        None
    }

    /// Creates a game under the id `id` and the name `name`, with the
    /// terrain of `seed` over the lattice `samples` and the static resources
    /// of that terrain. A name or an id that is in use is refused, and so
    /// are samples that are no lattice of a world; then nothing changes.
    pub fn create_game_with_id(
        &mut self,
        id: u128,
        name: &str,
        seed: u32,
        samples: Vec<TileSample>,
    ) -> (created: Result<u128, CreateGameError>)
        requires
            old(self).wf(),
        ensures
            final(self).wf(),
            match created {
                Ok(made) => {
                    &&& made == id
                    &&& !old(self)@.has_game_named(name@)
                    &&& is_lattice(samples@)
                    &&& !old(self)@.has_game(id)
                    &&& old(self)@.founded(final(self)@, id, name@, seed, samples@)
                },
                Err(CreateGameError::NameTaken) => {
                    &&& old(self)@.has_game_named(name@)
                    &&& final(self)@ == old(self)@
                },
                Err(CreateGameError::BadTerrain) => {
                    &&& !old(self)@.has_game_named(name@)
                    &&& !is_lattice(samples@)
                    &&& final(self)@ == old(self)@
                },
                Err(CreateGameError::IdTaken) => {
                    &&& !old(self)@.has_game_named(name@)
                    &&& is_lattice(samples@)
                    &&& old(self)@.has_game(id)
                    &&& final(self)@ == old(self)@
                },
            },
    {
        if self.find_game_by_name(name).is_some() {
            return Err(CreateGameError::NameTaken);
        }
        let ghost lattice = samples@;
        let terrain = match TerrainGenerator::new(seed, samples) {
            Some(terrain) => terrain,
            None => {
                return Err(CreateGameError::BadTerrain);
            },
        };
        if self.find_game(id).is_some() {
            return Err(CreateGameError::IdTaken);
        }
        let mut game = Game::new(id, String::from_str(name), terrain);
        let ghost empty = game@;
        game.generate_resources();
        proof {
            assert(game@.is_new_world(id, name@, seed, lattice));
        }
        self.games.push(game);
        proof {
            let before = old(self)@;
            let after = self@;
            assert(after.clients =~= before.clients);
            assert(after.games.drop_last() =~= before.games);
            assert(after.games.last() == game@);
            assert forall|i: int| 0 <= i < before.games.len() implies #[trigger] after.games[i]
                == before.games[i] by {}
            assert forall|i: int, j: int| 0 <= i < j < after.games.len() implies (
            #[trigger] after.games[i]).id != (#[trigger] after.games[j]).id by {
                assert(after.games[i] == before.games[i]);
                if j < before.games.len() {
                    assert(after.games[j] == before.games[j]);
                }
            }
            assert forall|i: int, j: int| 0 <= i < j < after.games.len() implies (
            #[trigger] after.games[i]).name != (#[trigger] after.games[j]).name by {
                assert(after.games[i] == before.games[i]);
                if j < before.games.len() {
                    assert(after.games[j] == before.games[j]);
                }
            }
            assert forall|i: int|
                0 <= i < after.clients.len() && (#[trigger] after.clients[i]).game.is_some()
                implies after.has_game(after.clients[i].game.unwrap()) by {
                let wanted = before.clients[i].game.unwrap();
                assert(before.has_game(wanted));
                let k = before.game_row(wanted);
                assert(after.games[k].id == wanted);
            }
            assert forall|i: int| 0 <= i < self.games@.len() implies (
            #[trigger] self.games@[i]).inv() by {
                if i < old(self).games@.len() {
                    assert(old(self).games@[i].inv());
                }
            }
        }
        Ok(id)
    }

    /// The ids of the worlds, in their order.
    fn game_ids(&self) -> (ids: Vec<u128>)
        ensures
            ids@.len() == self@.games.len(),
            forall|i: int| 0 <= i < ids@.len() ==> ids@[i] == (#[trigger] self@.games[i]).id,
    {
        let mut ids: Vec<u128> = Vec::new();
        let mut i: usize = 0;
        while i < self.games.len()
            invariant
                0 <= i <= self.games.len(),
                ids@.len() == i,
                forall|k: int| 0 <= k < i ==> ids@[k] == (#[trigger] self@.games[k]).id,
            decreases self.games.len() - i,
        {
            ids.push(self.games[i].id());
            i = i + 1;
        }
        ids
    }

    /// An id for a new game: `drawn`, unless a game bears it, and then the
    /// least id that none bears.
    pub fn free_id_from(&self, drawn: u128) -> (id: u128)
        requires
            self.wf(),
        ensures
            !self@.has_game(id),
            id == drawn || (self@.has_game(drawn) && forall|k: u128|
                k < id ==> #[trigger] self@.has_game(k)),
    {
        if self.find_game(drawn).is_none() {
            return drawn;
        }
        let ids = self.game_ids();
        let id = least_free(&ids);
        proof {
            let state = self@;
            assert forall|k: u128| state.has_game(k) == ids@.contains(k) by {
                if state.has_game(k) {
                    let i = choose|i: int|
                        0 <= i < state.games.len() && (#[trigger] state.games[i]).id == k;
                    assert(ids@[i] == k);
                }
                if ids@.contains(k) {
                    let i = choose|i: int| 0 <= i < ids@.len() && ids@[i] == k;
                    assert(state.games[i].id == k);
                }
            }
        }
        id
    }

    /// Creates a game under the name `name` and an id of its own, with the
    /// terrain of `seed` over the lattice `samples` and the static resources
    /// of that terrain. The id is drawn at random; should it be in use, the
    /// least free id is taken. A name that is in use is refused, and so are
    /// samples that are no lattice of a world; then nothing changes.
    pub fn create_game(&mut self, name: &str, seed: u32, samples: Vec<TileSample>) -> (created: Result<
        u128,
        CreateGameError,
    >)
        requires
            old(self).wf(),
        ensures
            final(self).wf(),
            match created {
                Ok(id) => {
                    &&& !old(self)@.has_game_named(name@)
                    &&& is_lattice(samples@)
                    &&& !old(self)@.has_game(id)
                    &&& old(self)@.founded(final(self)@, id, name@, seed, samples@)
                },
                Err(error) => {
                    &&& final(self)@ == old(self)@
                    &&& error == if old(self)@.has_game_named(name@) {
                        CreateGameError::NameTaken
                    } else {
                        CreateGameError::BadTerrain
                    }
                    &&& old(self)@.has_game_named(name@) || !is_lattice(samples@)
                },
            },
    {
        let id: u128 = self.free_id_from(new_id());
        self.create_game_with_id(id, name, seed, samples)
    }

    /// Opens a session for the connection `id`. A second session under an id
    /// is refused.
    pub fn connect(&mut self, id: u128) -> (opened: bool)
        requires
            old(self).wf(),
        ensures
            final(self).wf(),
            opened == !old(self)@.has_client(id),
            final(self)@ == if opened {
                ServerStateView {
                    clients: old(self)@.clients.push(
                        ClientView { id, game: None, username: None },
                    ),
                    ..old(self)@
                }
            } else {
                old(self)@
            },
    {
        if self.find_client(id).is_some() {
            return false;
        }
        self.clients.push(Client { id, game: None, username: None });
        proof {
            let before = old(self)@;
            let after = self@;
            assert(after.games =~= before.games);
            assert(after.clients =~= before.clients.push(
                ClientView { id, game: None, username: None },
            ));
            assert forall|i: int|
                0 <= i < after.clients.len() && (#[trigger] after.clients[i]).game.is_some()
                implies after.has_game(after.clients[i].game.unwrap()) by {
                assert(after.clients[i] == before.clients[i]);
                assert(before.has_game(before.clients[i].game.unwrap()));
            }
            assert forall|i: int, j: int| 0 <= i < j < after.clients.len() implies (
            #[trigger] after.clients[i]).id != (#[trigger] after.clients[j]).id by {
                assert(after.clients[i] == before.clients[i]);
                if j < before.clients.len() {
                    assert(after.clients[j] == before.clients[j]);
                }
            }
        }
        true
    }

    /// Closes the session of the connection `id`. Only the session goes: the
    /// entity of its player stays in its world, and its name stays reserved.
    pub fn disconnect(&mut self, id: u128) -> (closed: bool)
        requires
            old(self).wf(),
        ensures
            final(self).wf(),
            closed == old(self)@.has_client(id),
            final(self)@ == if closed {
                ServerStateView {
                    clients: old(self)@.clients.remove(old(self)@.client_row(id)),
                    ..old(self)@
                }
            } else {
                old(self)@
            },
    {
        let row = match self.find_client(id) {
            Some(row) => row,
            None => {
                return false;
            },
        };
        self.clients.remove(row);
        proof {
            let before = old(self)@;
            let after = self@;
            assert(after.games =~= before.games);
            assert(after.clients =~= before.clients.remove(row as int));
            assert forall|i: int| 0 <= i < after.clients.len() implies #[trigger] after.clients[i]
                == before.clients[if i < row { i } else { i + 1 }] by {}
            assert forall|i: int|
                0 <= i < after.clients.len() && (#[trigger] after.clients[i]).game.is_some()
                implies after.has_game(after.clients[i].game.unwrap()) by {
                let k = if i < row { i } else { i + 1 };
                assert(after.clients[i] == before.clients[k]);
                assert(before.has_game(before.clients[k].game.unwrap()));
            }
            assert forall|i: int, j: int| 0 <= i < j < after.clients.len() implies (
            #[trigger] after.clients[i]).id != (#[trigger] after.clients[j]).id by {
                assert(after.clients[i] == before.clients[if i < row { i } else { i + 1 }]);
                assert(after.clients[j] == before.clients[if j < row { j } else { j + 1 }]);
            }
        }
        true
    }

    /// The recipients of a broadcast: the sessions bound to `world`, or
    /// every session where no world is given, but for the session `except`.
    pub fn recipients(&self, world: Option<u128>, except: Option<u128>) -> (list: Vec<u128>)
        ensures
            list@ == self@.recipients(world, except),
    {
        let mut list: Vec<u128> = Vec::new();
        let mut i: usize = 0;
        while i < self.clients.len()
            invariant
                0 <= i <= self.clients.len(),
                list@ == self@.recipients_below(world, except, i as int),
            decreases self.clients.len() - i,
        {
            let client = &self.clients[i];
            assert(self@.clients[i as int] == client@);
            let bound: bool = match world {
                Some(id) => match client.game {
                    Some(other) => other == id,
                    None => false,
                },
                None => true,
            };
            let excepted: bool = match except {
                Some(id) => client.id == id,
                None => false,
            };
            if bound && !excepted {
                list.push(client.id);
            }
            i = i + 1;
        }
        list
    }

    /// The instruction to send `packet` to every session bound to the world
    /// `id`.
    pub fn broadcast_to_world(&self, id: u128, packet: Packet) -> (dispatch: Dispatch)
        ensures
            dispatch@ == packet_to(self@.recipients(Some(id), None), packet@),
    {
        Dispatch::packet(self.recipients(Some(id), None), packet)
    }

    /// The instruction to send `packet` to every session.
    pub fn broadcast_to_all(&self, packet: Packet) -> (dispatch: Dispatch)
        ensures
            dispatch@ == packet_to(self@.recipients(None, None), packet@),
    {
        Dispatch::packet(self.recipients(None, None), packet)
    }

    /// After a change to the world in row `g` alone, the directory is the
    /// one before with that world replaced.
    proof fn lemma_game_changed(&self, before: &ServerState, g: int)
        requires
            before.wf(),
            0 <= g < before.games@.len(),
            self.games@.len() == before.games@.len(),
            forall|i: int| 0 <= i < self.games@.len() && i != g ==> self.games@[i] == before.games@[i],
            self.clients@ == before.clients@,
            self.games@[g].wf(),
            self.games@[g]@.id == before.games@[g]@.id,
            self.games@[g]@.name == before.games@[g]@.name,
        ensures
            self.wf(),
            self@ == before@.with_game(g, self.games@[g]@),
    {
        assert(self@.games =~= before@.games.update(g, self.games@[g]@));
        assert(self@.clients =~= before@.clients);
        assert(before@.games[g] == before.games@[g]@);
        lemma_with_game_valid(before@, g, self.games@[g]@);
        assert forall|i: int| 0 <= i < self.games@.len() implies (#[trigger] self.games@[i]).inv() by {
            if i != g {
                assert(before.games@[i].inv());
            }
        }
    }

    /// The row of the world that the session `client` is bound to.
    fn world_of(&self, client: u128) -> (row: Option<usize>)
        requires
            self.wf(),
        ensures
            row.is_some() == self@.bound_to(client).is_some(),
            row matches Some(g) ==> g == self@.bound_to(client).unwrap() && g < self@.games.len(),
    {
        let session = match self.find_client(client) {
            Some(session) => session,
            None => {
                return None;
            },
        };
        assert(self@.clients[session as int] == self.clients@[session as int]@);
        match self.clients[session].game {
            Some(id) => {
                assert(self@.has_game(id));
                self.find_game(id)
            },
            None => None,
        }
    }

    /// Moves the entity of the session `client` to `to`, and lists what is
    /// to be sent. With `echo` set, the move is told to the mover too.
    pub fn move_entity(&mut self, client: u128, to: Vec2, echo: bool) -> (sent: Vec<Dispatch>)
        requires
            old(self).wf(),
        ensures
            final(self).wf(),
            old(self)@.moved(final(self)@, client, to, echo, views(sent@)),
    {
        let mut sent: Vec<Dispatch> = Vec::new();
        let g = match self.world_of(client) {
            Some(g) => g,
            None => {
                return sent;
            },
        };
        let audience = self.recipients(None, if echo { None } else { Some(client) });
        let ghost world = self.games@[g as int]@;
        assert(world == self@.games[g as int]);
        assert(self.games@[g as int].wf());
        let outcome = self.games[g].on_move(client, to);
        let moved = match outcome {
            Some(moved) => moved,
            None => {
                proof {
                    self.lemma_game_changed(old(self), g as int);
                    assert(self@.games =~= old(self)@.games);
                }
                return sent;
            },
        };
        proof {
            self.lemma_game_changed(old(self), g as int);
        }
        push_chunk_sends(&mut sent, &self.games[g], client, &moved.chunks);
        push_load_sends(&mut sent, client, &moved.loads);
        push_unload_sends(&mut sent, client, &moved.unloads);
        let ghost listed = sent@;
        sent.push(Dispatch::packet(audience, Packet::EntityMove { id: client, new_position: to }));
        proof {
            let before = old(self)@;
            let from = world.entities[world.row_of(client)].position;
            assert(views(sent@) =~= views(listed).push(sent@[listed.len() as int]@));
            assert(audience@ == before.move_audience(client, echo));
            assert(views(sent@) =~= move_sends(
                world,
                client,
                to,
                moved.chunks@,
                before.move_audience(client, echo),
            ));
            assert(lists_chunks(
                moved.chunks@,
                |cx: int, cy: int| chunk_entered(cx, cy, from, to),
            ));
            assert(world.has_entity(client));
            assert(self@ == before.with_game(g as int, world.after_move(client, to)));
        }
        sent
    }

    /// Takes the slot `slot` of the inventory of the session `client` in
    /// hand.
    pub fn select_item(&mut self, client: u128, slot: u32)
        requires
            old(self).wf(),
        ensures
            final(self).wf(),
            old(self)@.selected(final(self)@, client, slot),
    {
        let g = match self.world_of(client) {
            Some(g) => g,
            None => {
                return ;
            },
        };
        assert(self.games@[g as int]@ == self@.games[g as int]);
        assert(self.games@[g as int].wf());
        let accepted = self.games[g].select_item(client, slot);
        proof {
            self.lemma_game_changed(old(self), g as int);
            if !accepted {
                assert(self@.games =~= old(self)@.games);
            }
        }
    }

    /// The attack of the session `client` at `cursor`, and what is to be
    /// sent after it.
    pub fn player_attack(&mut self, client: u128, cursor: Vec2) -> (sent: Vec<Dispatch>)
        requires
            old(self).wf(),
        ensures
            final(self).wf(),
            old(self)@.attacked(final(self)@, client, cursor, views(sent@)),
    {
        let mut sent: Vec<Dispatch> = Vec::new();
        let g = match self.world_of(client) {
            Some(g) => g,
            None => {
                return sent;
            },
        };
        let ghost world = self.games@[g as int]@;
        assert(world == self@.games[g as int]);
        assert(self.games@[g as int].wf());
        let everyone = self.recipients(Some(self.games[g].id()), None);
        let outcome = self.games[g].attack(client, cursor);
        let hit = match outcome {
            Some(hit) => hit,
            None => {
                proof {
                    self.lemma_game_changed(old(self), g as int);
                    assert(self@.games =~= old(self)@.games);
                }
                return sent;
            },
        };
        proof {
            self.lemma_game_changed(old(self), g as int);
        }
        let ghost t = choose|t: int|
            {
                &&& world.is_target(client, t, cursor)
                &&& world.is_hit(world.row_of(client), t, hit)
                &&& self.games@[g as int]@ == world.after_hit(t, hit.new_health)
            };
        let AttackOutcome { target, new_health, viewers, kill_message } = hit;
        if new_health <= 0 {
            let witnesses = copy_ids(&viewers);
            sent.push(
                Dispatch::packet(witnesses, Packet::EntityDamage { id: target, new_health }),
            );
            sent.push(Dispatch::packet(viewers, Packet::EntityDeath { id: target }));
        } else {
            sent.push(Dispatch::packet(viewers, Packet::EntityDamage { id: target, new_health }));
        }
        match kill_message {
            Some(message) => {
                sent.push(Dispatch::packet(everyone, Packet::SystemMessage { message }));
            },
            None => {},
        }
        proof {
            assert(views(sent@) =~= attack_sends(hit, everyone@));
        }
        sent
    }

    /// The chat line `line` of the session `client`, and what is to be sent
    /// after it.
    pub fn chat(&mut self, client: u128, line: String) -> (sent: Vec<Dispatch>)
        requires
            old(self).wf(),
        ensures
            final(self).wf(),
            old(self)@.chatted(final(self)@, client, line@, views(sent@)),
    {
        let mut sent: Vec<Dispatch> = Vec::new();
        let g = match self.world_of(client) {
            Some(g) => g,
            None => {
                return sent;
            },
        };
        let session = match self.find_client(client) {
            Some(session) => session,
            None => {
                return sent;
            },
        };
        assert(self@.clients[session as int] == self.clients@[session as int]@);
        let username = match &self.clients[session].username {
            Some(name) => name.clone(),
            None => {
                return sent;
            },
        };
        assert(self.games@[g as int]@ == self@.games[g as int]);
        assert(self.games@[g as int].wf());
        match parse_chat(&line) {
            ChatCommand::Say => {
                let everyone = self.recipients(Some(self.games[g].id()), None);
                sent.push(
                    Dispatch::packet(
                        everyone,
                        Packet::ChatMessage { id: client, message: line, username },
                    ),
                );
                assert(views(sent@) =~= seq![sent@[0]@]);
                sent
            },
            ChatCommand::Teleport(target) => {
                let to = match self.games[g].find_player(&target) {
                    Some(to) => to,
                    None => {
                        return Self::refusal(client);
                    },
                };
                if self.games[g].find_entity(client).is_none() {
                    return Self::refusal(client);
                }
                self.move_entity(client, to, true)
            },
            ChatCommand::Invalid => Self::refusal(client),
        }
    }

    /// The answer to a command that cannot be carried out.
    fn refusal(client: u128) -> (sent: Vec<Dispatch>)
        ensures
            views(sent@) == seq![
                packet_to(seq![client], PacketView::SystemMessage { message: invalid_command() }),
            ],
    {
        let mut sent: Vec<Dispatch> = Vec::new();
        sent.push(
            Dispatch::packet_for(
                client,
                Packet::SystemMessage { message: String::from_str("Invalid command") },
            ),
        );
        assert(views(sent@) =~= seq![sent@[0]@]);
        sent
    }

    /// The error `code`, for `client` alone.
    fn complaint(client: u128, code: &str) -> (sent: Vec<Dispatch>)
        ensures
            views(sent@) == seq![error_to(client, code@)],
    {
        let mut sent: Vec<Dispatch> = Vec::new();
        sent.push(Dispatch::error_for(client, code));
        assert(views(sent@) =~= seq![sent@[0]@]);
        sent
    }

    /// Registers the session `client` as `username` in the game `game_name`,
    /// and lists what is to be sent.
    pub fn register(&mut self, client: u128, game_name: String, username: String, skin: u32) -> (sent:
        Vec<Dispatch>)
        requires
            old(self).wf(),
        ensures
            final(self).wf(),
            old(self)@.registered(final(self)@, client, game_name@, username@, skin, views(sent@)),
    {
        let mut sent: Vec<Dispatch> = Vec::new();
        let ghost before = self@;
        let session = match self.find_client(client) {
            Some(session) => session,
            None => {
                return sent;
            },
        };
        assert(self@.clients[session as int] == self.clients@[session as int]@);
        if self.clients[session].game.is_some() {
            return sent;
        }
        let g = match self.find_game_by_name(game_name.as_str()) {
            Some(g) => g,
            None => {
                return Self::complaint(client, "game-not-found");
            },
        };
        let ghost world = self.games@[g as int]@;
        assert(world == self@.games[g as int]);
        assert(self.games@[g as int].wf());
        let reserved = username.clone();
        let entity = match self.games[g].register_player(client, username, skin) {
            Ok(entity) => entity,
            Err(RegisterError::UsernameTaken) => {
                proof {
                    self.lemma_game_changed(old(self), g as int);
                    assert(self@.games =~= old(self)@.games);
                }
                return Self::complaint(client, "username-taken");
            },
            Err(RegisterError::AlreadyRegistered) => {
                proof {
                    self.lemma_game_changed(old(self), g as int);
                    assert(self@.games =~= old(self)@.games);
                }
                return sent;
            },
        };
        let ghost placed = self.games@[g as int]@;
        proof {
            assert(placed == world.with_player(entity, reserved@));
            let last = world.entities.len() as int;
            assert(placed.entities[last] == entity);
            assert(placed.has_entity(client));
            let chosen = placed.row_of(client);
            if chosen < last {
                assert(placed.entities[chosen].id != placed.entities[last].id);
            }
            assert(placed.can_attack(client));
        }
        let outcome = self.games[g].on_join(client);
        let id: u128 = self.games[g].id();
        self.clients[session].game = Some(id);
        self.clients[session].username = Some(reserved);
        let joined = match outcome {
            Some(joined) => joined,
            None => {
                return sent;
            },
        };
        proof {
            let mid = before.with_game(g as int, placed.after_join(client));
            lemma_with_game_valid(before, g as int, placed.after_join(client));
            let after = self@;
            assert(after.games =~= mid.games);
            let bound = ClientView { id: client, game: Some(world.id), username: Some(reserved@) };
            assert(after.clients =~= before.clients.update(session as int, bound));
            assert(after == mid.with_client(session as int, bound));
            assert forall|i: int| 0 <= i < self.games@.len() implies (
            #[trigger] self.games@[i]).inv() by {
                if i != g {
                    assert(old(self).games@[i].inv());
                }
            }
            assert forall|i: int|
                0 <= i < after.clients.len() && (#[trigger] after.clients[i]).game.is_some()
                implies after.has_game(after.clients[i].game.unwrap()) by {
                if i == session {
                    assert(after.games[g as int].id == world.id);
                } else {
                    assert(after.clients[i] == mid.clients[i]);
                    assert(mid.has_game(mid.clients[i].game.unwrap()));
                    let k = mid.game_row(mid.clients[i].game.unwrap());
                    assert(after.games[k].id == mid.games[k].id);
                }
            }
            assert forall|i: int, j: int| 0 <= i < j < after.clients.len() implies (
            #[trigger] after.clients[i]).id != (#[trigger] after.clients[j]).id by {
                assert(after.clients[i].id == before.clients[i].id);
                assert(after.clients[j].id == before.clients[j].id);
            }
        }
        push_chunk_sends(&mut sent, &self.games[g], client, &joined.chunks);
        let ghost first = sent@;
        sent.push(Dispatch::packet(joined.audience, Packet::EntityLoad { entity: entity.clone() }));
        let ghost second = sent@;
        push_load_sends(&mut sent, client, &joined.loads);
        let ghost third = sent@;
        sent.push(Dispatch::packet_for(client, Packet::PlayerRegistered { id: client }));
        proof {
            assert(views(second) =~= views(first).push(second[first.len() as int]@));
            assert(views(sent@) =~= views(third).push(sent@[third.len() as int]@));
            assert(views(sent@) =~= join_sends(placed, client, entity, joined.chunks@));
        }
        sent
    }

    /// Carries out `packet`, received from the session `client`, and lists
    /// what is to be sent after it.
    pub fn handle(&mut self, client: u128, packet: Packet) -> (sent: Vec<Dispatch>)
        requires
            old(self).wf(),
        ensures
            final(self).wf(),
            old(self)@.handled(final(self)@, client, packet@, views(sent@)),
    {
        match packet {
            Packet::PlayerRegister { game_name, username, skin } => self.register(
                client,
                game_name,
                username,
                skin,
            ),
            Packet::EntityMove { id, new_position } => {
                if id == client {
                    self.move_entity(client, new_position, false)
                } else {
                    Vec::new()
                }
            },
            Packet::ChatMessageSend { message } => self.chat(client, message),
            Packet::PlayerAttack { cursor_world_pos } => self.player_attack(client, cursor_world_pos),
            Packet::InventorySelect { selected } => {
                self.select_item(client, selected);
                Vec::new()
            },
            _ => Vec::new(),
        }
    }
}

/// A copy of `ids`.
fn copy_ids(ids: &Vec<u128>) -> (copy: Vec<u128>)
    ensures
        copy@ == ids@,
{
    let mut copy: Vec<u128> = Vec::new();
    let mut i: usize = 0;
    while i < ids.len()
        invariant
            0 <= i <= ids.len(),
            copy@ == ids@.take(i as int),
        decreases ids.len() - i,
    {
        copy.push(ids[i]);
        assert(ids@.take(i + 1) =~= ids@.take(i as int).push(ids@[i as int]));
        i = i + 1;
    }
    assert(ids@.take(ids.len() as int) =~= ids@);
    copy
}

/// Adds to `sent` the instructions to send `client` each of `chunks`.
fn push_chunk_sends(sent: &mut Vec<Dispatch>, game: &Game, client: u128, chunks: &Vec<(i32, i32)>)
    requires
        game.wf(),
    ensures
        views(final(sent)@) == views(old(sent)@) + chunk_sends(game@.terrain, client, chunks@),
{
    let mut k: usize = 0;
    assert(views(sent@) =~= views(old(sent)@) + chunk_sends(
        game@.terrain,
        client,
        chunks@.take(0),
    ));
    while k < chunks.len()
        invariant
            game.wf(),
            0 <= k <= chunks.len(),
            views(sent@) == views(old(sent)@) + chunk_sends(
                game@.terrain,
                client,
                chunks@.take(k as int),
            ),
        decreases chunks.len() - k,
    {
        let place: (i32, i32) = chunks[k];
        let chunk = game.get_chunk(place.0, place.1);
        let ghost listed = sent@;
        sent.push(Dispatch::packet_for(client, Packet::TerrainChunk { chunk }));
        proof {
            assert(views(sent@) =~= views(listed).push(sent@[listed.len() as int]@));
            assert(chunk_sends(game@.terrain, client, chunks@.take(k + 1)) =~= chunk_sends(
                game@.terrain,
                client,
                chunks@.take(k as int),
            ).push(sent@[listed.len() as int]@));
        }
        k = k + 1;
    }
    assert(chunks@.take(chunks.len() as int) =~= chunks@);
}

/// Adds to `sent` the instructions to tell `client` about each of `loads`.
fn push_load_sends(sent: &mut Vec<Dispatch>, client: u128, loads: &Vec<Entity>)
    ensures
        views(final(sent)@) == views(old(sent)@) + load_sends(client, loads@),
{
    let mut k: usize = 0;
    assert(views(sent@) =~= views(old(sent)@) + load_sends(client, loads@.take(0)));
    while k < loads.len()
        invariant
            0 <= k <= loads.len(),
            views(sent@) == views(old(sent)@) + load_sends(client, loads@.take(k as int)),
        decreases loads.len() - k,
    {
        let ghost listed = sent@;
        sent.push(Dispatch::packet_for(client, Packet::EntityLoad { entity: loads[k].clone() }));
        proof {
            assert(views(sent@) =~= views(listed).push(sent@[listed.len() as int]@));
            assert(load_sends(client, loads@.take(k + 1)) =~= load_sends(
                client,
                loads@.take(k as int),
            ).push(sent@[listed.len() as int]@));
        }
        k = k + 1;
    }
    assert(loads@.take(loads.len() as int) =~= loads@);
}

/// Adds to `sent` the instructions to have `client` forget each of
/// `unloads`.
fn push_unload_sends(sent: &mut Vec<Dispatch>, client: u128, unloads: &Vec<u128>)
    ensures
        views(final(sent)@) == views(old(sent)@) + unload_sends(client, unloads@),
{
    let mut k: usize = 0;
    assert(views(sent@) =~= views(old(sent)@) + unload_sends(client, unloads@.take(0)));
    while k < unloads.len()
        invariant
            0 <= k <= unloads.len(),
            views(sent@) == views(old(sent)@) + unload_sends(client, unloads@.take(k as int)),
        decreases unloads.len() - k,
    {
        let ghost listed = sent@;
        sent.push(Dispatch::packet_for(client, Packet::EntityUnload { id: unloads[k] }));
        proof {
            assert(views(sent@) =~= views(listed).push(sent@[listed.len() as int]@));
            assert(unload_sends(client, unloads@.take(k + 1)) =~= unload_sends(
                client,
                unloads@.take(k as int),
            ).push(sent@[listed.len() as int]@));
        }
        k = k + 1;
    }
    assert(unloads@.take(unloads.len() as int) =~= unloads@);
}

impl Client {
    /// The entity of the player of this session: the entity under the id of
    /// the session, in the world that the session is bound to.
    pub fn get_player_entity<'a>(&self, state: &'a ServerState) -> (entity: Option<&'a Entity>)
        requires
            state.wf(),
        ensures
            match entity {
                Some(e) => self.game.is_some() && state@.has_game(self.game.unwrap())
                    && state@.games[state@.game_row(self.game.unwrap())].entities.contains(*e)
                    && e.id == self.id,
                None => self.game.is_none() || !state@.has_game(self.game.unwrap())
                    || !state@.games[state@.game_row(self.game.unwrap())].has_entity(self.id),
            },
    {
        let id = match self.game {
            Some(id) => id,
            None => {
                return None;
            },
        };
        match state.find_game(id) {
            Some(row) => state.games()[row].get_entity(self.id),
            None => None,
        }
    }

    /// The player of this session, where its entity is one.
    pub fn get_player<'a>(&self, state: &'a ServerState) -> (player: Option<&'a EntityPlayer>)
        requires
            state.wf(),
        ensures
            match player {
                Some(p) => {
                    let world = state@.games[state@.game_row(self.game.unwrap())];
                    &&& self.game.is_some()
                    &&& state@.has_game(self.game.unwrap())
                    &&& world.can_attack(self.id)
                    &&& world.entities[world.row_of(self.id)].value == EntityType::Player(*p)
                },
                None => self.game.is_none() || !state@.has_game(self.game.unwrap())
                    || !state@.games[state@.game_row(self.game.unwrap())].can_attack(self.id),
            },
    {
        match self.get_player_entity(state) {
            Some(entity) => {
                proof {
                    let world = state@.games[state@.game_row(self.game.unwrap())];
                    let i = choose|i: int| 0 <= i < world.entities.len() && world.entities[i] == *entity;
                    assert(world.entities[i].id == self.id);
                    assert(world.has_entity(self.id));
                    let chosen = world.row_of(self.id);
                    if chosen < i {
                        assert(world.entities[chosen].id != world.entities[i].id);
                    } else if chosen > i {
                        assert(world.entities[i].id != world.entities[chosen].id);
                    }
                }
                entity.value.as_player()
            },
            None => None,
        }
    }

    /// Carries out `packet`, received on this session, on the directory
    /// `state`, and lists what is to be sent after it. Nothing happens where
    /// the directory holds no session under this id. The session is brought
    /// up to date with its record in the directory.
    pub fn recv(&mut self, packet: Packet, state: &mut ServerState) -> (sent: Vec<Dispatch>)
        requires
            old(state).wf(),
        ensures
            final(state).wf(),
            final(self).id == old(self).id,
            old(state)@.handled(final(state)@, old(self).id, packet@, views(sent@)),
            final(state)@.has_client(old(self).id) ==> final(self)@
                == final(state)@.clients[final(state)@.client_row(old(self).id)],
            !final(state)@.has_client(old(self).id) ==> *final(self) == *old(self),
    {
        let sent = state.handle(self.id, packet);
        match state.find_client(self.id) {
            Some(row) => {
                let record = &state.clients()[row];
                self.game = record.game;
                self.username = match &record.username {
                    Some(name) => Some(name.clone()),
                    None => None,
                };
            },
            None => {},
        }
        sent
    }
}

} // verus!
