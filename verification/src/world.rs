//! One world: its terrain, its table of entities, the names reserved in it,
//! and which client has been told about which entity.

use vstd::prelude::*;
use vstd::string::*;
use crate::config::{
    ATTACK_RANGE, CHUNKS_PER_SIDE, CHUNK_SIZE, CHUNK_SPAN, MAX_WORLD_ENTITY_HEALTH,
    SPAWN_ATTEMPTS, SUBTILE, UNLOAD_RANGE, VIEW_RANGE, WATER_EDGE_SIZE, WORLD_SIZE,
};
use crate::combat::{attack_damage, damage};
use crate::entity::{Entity, EntityPlayer, EntityType, Inventory, Item, INVENTORY_SLOTS};
use crate::fresh::least_free;
use crate::geometry::{dist_sq, within_range, Vec2};
use crate::outside::{new_id, random_range};
use crate::terrain::{
    in_world, is_water, resource_of, TerrainChunk, TerrainGenerator, TileSample, TileType,
};

verus! {

/// The centre of the chunk `(cx, cy)`, in position units.
pub open spec fn chunk_center(cx: int, cy: int) -> Vec2 {
    Vec2 {
        x: (cx * CHUNK_SPAN + CHUNK_SPAN / 2) as i32,
        y: (cy * CHUNK_SPAN + CHUNK_SPAN / 2) as i32,
    }
}

/// Whether the chunk `(cx, cy)` is in view from `from`: it is a chunk of the
/// world, and its centre lies within `VIEW_RANGE` of `from`.
pub open spec fn chunk_in_view(cx: int, cy: int, from: Vec2) -> bool {
    &&& 0 <= cx < CHUNKS_PER_SIDE
    &&& 0 <= cy < CHUNKS_PER_SIDE
    &&& within_range(chunk_center(cx, cy), from, VIEW_RANGE as int)
}

/// Whether the chunk `a` comes before the chunk `b`, row by row.
pub open spec fn chunk_before(a: (i32, i32), b: (i32, i32)) -> bool {
    a.1 < b.1 || (a.1 == b.1 && a.0 < b.0)
}

/// Whether `chunks` lists, row by row and each once, the chunks that `keep`
/// holds of.
pub open spec fn lists_chunks(chunks: Seq<(i32, i32)>, keep: spec_fn(int, int) -> bool) -> bool {
    &&& forall|k: int|
        0 <= k < chunks.len() ==> keep((#[trigger] chunks[k]).0 as int, chunks[k].1 as int)
    &&& forall|cx: i32, cy: i32|
        keep(cx as int, cy as int) ==> #[trigger] chunks.contains((cx, cy))
    &&& forall|j: int, k: int|
        0 <= j < k < chunks.len() ==> chunk_before(#[trigger] chunks[j], #[trigger] chunks[k])
}

/// Whether the chunk `(cx, cy)` is in view from `from`.
pub fn chunk_is_visible(cx: i32, cy: i32, from: &Vec2) -> (visible: bool)
    ensures
        visible == chunk_in_view(cx as int, cy as int, *from),
{
    if cx < 0 || cx >= CHUNKS_PER_SIDE || cy < 0 || cy >= CHUNKS_PER_SIDE {
        return false;
    }
    let center = Vec2::new(cx * CHUNK_SPAN + CHUNK_SPAN / 2, cy * CHUNK_SPAN + CHUNK_SPAN / 2);
    center.is_within(from, VIEW_RANGE)
}

/// Whether the chunk column (or row) `c` is near enough to the coordinate
/// `at` for a chunk in it to be in view.
pub open spec fn in_view_span(c: int, at: int) -> bool {
    &&& 0 <= c < CHUNKS_PER_SIDE
    &&& at - VIEW_RANGE <= c * CHUNK_SPAN + CHUNK_SPAN / 2 <= at + VIEW_RANGE
}

/// A chunk in view lies in a column and in a row that are near enough.
proof fn lemma_in_view_in_span(cx: int, cy: int, from: Vec2)
    requires
        chunk_in_view(cx, cy, from),
    ensures
        in_view_span(cx, from.x as int),
        in_view_span(cy, from.y as int),
{
    let center = chunk_center(cx, cy);
    let dx = center.x - from.x;
    let dy = center.y - from.y;
    assert(dx * dx + dy * dy <= 32000 * 32000);
    assert(dx * dx >= 0 && dy * dy >= 0) by (nonlinear_arith);
    assert(-32000 <= dx <= 32000) by (nonlinear_arith)
        requires
            dx * dx <= 32000 * 32000,
    ;
    assert(-32000 <= dy <= 32000) by (nonlinear_arith)
        requires
            dy * dy <= 32000 * 32000,
    ;
}

/// The chunk columns (or rows) near enough to the coordinate `at`: those
/// from the first of the pair up to, but not with, the second.
fn view_span(at: i32) -> (span: (i32, i32))
    ensures
        0 <= span.0 <= CHUNKS_PER_SIDE,
        0 <= span.1 <= CHUNKS_PER_SIDE,
        forall|c: int| in_view_span(c, at as int) ==> span.0 <= c < span.1,
{
    let low: i64 = at as i64 - VIEW_RANGE as i64 - (CHUNK_SPAN / 2) as i64;
    let high: i64 = at as i64 + VIEW_RANGE as i64 - (CHUNK_SPAN / 2) as i64;
    let limit: i64 = CHUNKS_PER_SIDE as i64;
    let first: i64 = if low <= 0 {
        0
    } else if low / (CHUNK_SPAN as i64) >= limit {
        limit
    } else if low % (CHUNK_SPAN as i64) == 0 {
        low / (CHUNK_SPAN as i64)
    } else {
        low / (CHUNK_SPAN as i64) + 1
    };
    let end: i64 = if high < 0 {
        0
    } else if high / (CHUNK_SPAN as i64) >= limit {
        limit
    } else {
        high / (CHUNK_SPAN as i64) + 1
    };
    (first as i32, end as i32)
}

/// The chunks in view from `position`, row by row.
pub fn get_chunk_coords_visible_from(position: Vec2) -> (coords: Vec<(i32, i32)>)
    ensures
        lists_chunks(coords@, |cx: int, cy: int| chunk_in_view(cx, cy, position)),
{
    let mut coords: Vec<(i32, i32)> = Vec::new();
    let columns = view_span(position.x);
    let rows = view_span(position.y);
    let mut y: i32 = rows.0;
    proof {
        assert forall|cx: i32, cy: i32|
            chunk_in_view(cx as int, cy as int, position) implies rows.0 <= cy < rows.1
            && columns.0 <= cx < columns.1 by {
            lemma_in_view_in_span(cx as int, cy as int, position);
        }
    }
    while y < rows.1
        invariant
            0 <= rows.0 <= CHUNKS_PER_SIDE,
            0 <= rows.1 <= CHUNKS_PER_SIDE,
            0 <= columns.0 <= CHUNKS_PER_SIDE,
            0 <= columns.1 <= CHUNKS_PER_SIDE,
            rows.0 <= y,
            forall|cx: i32, cy: i32|
                chunk_in_view(cx as int, cy as int, position) ==> rows.0 <= cy < rows.1
                    && columns.0 <= cx < columns.1,
            forall|k: int|
                0 <= k < coords.len() ==> chunk_in_view(
                    (#[trigger] coords[k]).0 as int,
                    coords[k].1 as int,
                    position,
                ) && coords[k].1 < y,
            forall|cx: i32, cy: i32|
                chunk_in_view(cx as int, cy as int, position) && cy < y
                    ==> #[trigger] coords@.contains((cx, cy)),
            forall|j: int, k: int|
                0 <= j < k < coords.len() ==> chunk_before(
                    #[trigger] coords[j],
                    #[trigger] coords[k],
                ),
        decreases rows.1 - y,
    {
        let mut x: i32 = columns.0;
        while x < columns.1
            invariant
                0 <= rows.0 <= y < rows.1 <= CHUNKS_PER_SIDE,
                0 <= columns.0 <= CHUNKS_PER_SIDE,
                0 <= columns.1 <= CHUNKS_PER_SIDE,
                columns.0 <= x,
                forall|cx: i32, cy: i32|
                    chunk_in_view(cx as int, cy as int, position) ==> rows.0 <= cy < rows.1
                        && columns.0 <= cx < columns.1,
                forall|k: int|
                    0 <= k < coords.len() ==> chunk_in_view(
                        (#[trigger] coords[k]).0 as int,
                        coords[k].1 as int,
                        position,
                    ) && (coords[k].1 < y || (coords[k].1 == y && coords[k].0 < x)),
                forall|cx: i32, cy: i32|
                    chunk_in_view(cx as int, cy as int, position) && (cy < y || (cy == y && cx
                        < x)) ==> #[trigger] coords@.contains((cx, cy)),
                forall|j: int, k: int|
                    0 <= j < k < coords.len() ==> chunk_before(
                        #[trigger] coords[j],
                        #[trigger] coords[k],
                    ),
            decreases columns.1 - x,
        {
            if chunk_is_visible(x, y, &position) {
                let ghost before = coords@;
                coords.push((x, y));
                proof {
                    assert(coords@[before.len() as int] == (x, y));
                    assert forall|cx: i32, cy: i32|
                        chunk_in_view(cx as int, cy as int, position) && (cy < y || (cy == y
                            && cx < x + 1)) implies #[trigger] coords@.contains((cx, cy)) by {
                        if cy == y && cx == x {
                            assert(coords@[before.len() as int] == (cx, cy));
                        } else {
                            assert(before.contains((cx, cy)));
                            let k = choose|k: int| 0 <= k < before.len() && before[k] == (cx, cy);
                            assert(coords@[k] == (cx, cy));
                        }
                    }
                }
            }
            x = x + 1;
        }
        y = y + 1;
    }
    coords
}

/// Whether the tile `(x, y)` lies in the region where players spawn: the
/// world without a band of twice `WATER_EDGE_SIZE` along each border.
pub open spec fn in_spawn_region(x: int, y: int) -> bool {
    &&& 2 * WATER_EDGE_SIZE <= x < WORLD_SIZE - 2 * WATER_EDGE_SIZE
    &&& 2 * WATER_EDGE_SIZE <= y < WORLD_SIZE - 2 * WATER_EDGE_SIZE
}

/// The position of the corner of the tile `(x, y)` that has the smallest
/// coordinates.
pub open spec fn tile_origin(x: int, y: int) -> Vec2 {
    Vec2 { x: (x * SUBTILE) as i32, y: (y * SUBTILE) as i32 }
}

/// The chunk that holds the position `p`, as column and row.
pub open spec fn chunk_of(p: Vec2) -> (int, int) {
    (p.x as int / CHUNK_SPAN as int, p.y as int / CHUNK_SPAN as int)
}

/// Whether the chunk `(cx, cy)` came into view on the way from `from` to
/// `to`: it is in view from `to` and was not from `from`.
pub open spec fn chunk_entered(cx: int, cy: int, from: Vec2, to: Vec2) -> bool {
    chunk_in_view(cx, cy, to) && !chunk_in_view(cx, cy, from)
}

/// What a client is to be sent after it moved.
#[derive(Debug)]
pub struct MoveOutcome {
    /// The chunks that came into view, row by row.
    pub chunks: Vec<(i32, i32)>,
    /// The entities that the client now sees and did not before, in the
    /// order of the entity table.
    pub loads: Vec<Entity>,
    /// The ids of the entities that the client saw and now no longer does,
    /// in the order of the entity table.
    pub unloads: Vec<u128>,
}

proof fn lemma_watchers_without(list: Seq<u128>, at: int)
    requires
        list.no_duplicates(),
        0 <= at < list.len(),
    ensures
        list.remove(at).no_duplicates(),
        list.remove(at).to_set() == list.to_set().remove(list[at]),
{
    let rest = list.remove(at);
    assert forall|c: u128| rest.to_set().contains(c) <==> list.to_set().remove(list[at]).contains(
        c,
    ) by {
        if rest.contains(c) {
            let k = choose|k: int| 0 <= k < rest.len() && rest[k] == c;
            if k < at {
                assert(list[k] == c);
            } else {
                assert(list[k + 1] == c);
            }
        }
        if list.contains(c) && c != list[at] {
            let k = choose|k: int| 0 <= k < list.len() && list[k] == c;
            if k < at {
                assert(rest[k] == c);
            } else {
                assert(rest[k - 1] == c);
            }
        }
    }
    assert(rest.to_set() =~= list.to_set().remove(list[at]));
}

proof fn lemma_watchers_with(list: Seq<u128>, client: u128)
    requires
        list.no_duplicates(),
        !list.contains(client),
    ensures
        list.push(client).no_duplicates(),
        list.push(client).to_set() == list.to_set().insert(client),
{
    let more = list.push(client);
    assert forall|i: int, j: int| 0 <= i < more.len() && 0 <= j < more.len() && i != j implies more[i]
        != more[j] by {
        if i < list.len() {
            assert(list.contains(list[i]));
        }
        if j < list.len() {
            assert(list.contains(list[j]));
        }
    }
    assert forall|c: u128| more.to_set().contains(c) <==> list.to_set().insert(client).contains(
        c,
    ) by {
        if more.contains(c) {
            let k = choose|k: int| 0 <= k < more.len() && more[k] == c;
            if k < list.len() {
                assert(list[k] == c);
            }
        }
        if list.contains(c) {
            let k = choose|k: int| 0 <= k < list.len() && list[k] == c;
            assert(more[k] == c);
        }
        if c == client {
            assert(more[list.len() as int] == c);
        }
    }
    assert(more.to_set() =~= list.to_set().insert(client));
}

/// A copy of `list`.
fn copy_of(list: &Vec<u128>) -> (copy: Vec<u128>)
    ensures
        copy@ == list@,
{
    let mut copy: Vec<u128> = Vec::new();
    let mut i: usize = 0;
    while i < list.len()
        invariant
            0 <= i <= list.len(),
            copy@ == list@.take(i as int),
        decreases list.len() - i,
    {
        copy.push(list[i]);
        assert(list@.take(i + 1) =~= list@.take(i as int).push(list@[i as int]));
        i = i + 1;
    }
    assert(list@.take(list.len() as int) =~= list@);
    copy
}

/// Where `client` stands in `list`, if it does.
fn position_in(list: &Vec<u128>, client: u128) -> (at: Option<usize>)
    ensures
        at.is_some() == list@.contains(client),
        at matches Some(k) ==> k < list.len() && list@[k as int] == client,
{
    let mut i: usize = 0;
    while i < list.len()
        invariant
            0 <= i <= list.len(),
            forall|k: int| 0 <= k < i ==> list@[k] != client,
        decreases list.len() - i,
    {
        if list[i] == client {
            return Some(i);
        }
        i = i + 1;
    }
    None
}

/// A position in a chunk that is in view from `to` lies within
/// `UNLOAD_RANGE` of `to`.
pub proof fn lemma_chunk_in_view_is_near(p: Vec2, to: Vec2)
    requires
        chunk_in_view(chunk_of(p).0, chunk_of(p).1, to),
    ensures
        within_range(p, to, UNLOAD_RANGE as int),
{
    let cx = chunk_of(p).0;
    let cy = chunk_of(p).1;
    let center = chunk_center(cx, cy);
    let a = p.x - center.x;
    let b = center.x - to.x;
    let c = p.y - center.y;
    let d = center.y - to.y;
    assert(-4000 <= a < 4000 && -4000 <= c < 4000);
    assert(b * b + d * d <= 32000 * 32000);
    assert(b * b >= 0 && d * d >= 0) by (nonlinear_arith);
    assert(-32000 <= b <= 32000) by (nonlinear_arith)
        requires
            b * b <= 32000 * 32000,
    ;
    assert(-32000 <= d <= 32000) by (nonlinear_arith)
        requires
            d * d <= 32000 * 32000,
    ;
    assert((a + b) * (a + b) == a * a + 2 * (a * b) + b * b) by (nonlinear_arith);
    assert((c + d) * (c + d) == c * c + 2 * (c * d) + d * d) by (nonlinear_arith);
    assert(a * a <= 16000000 && a * b <= 128000000) by (nonlinear_arith)
        requires
            -4000 <= a <= 4000,
            -32000 <= b <= 32000,
    ;
    assert(c * c <= 16000000 && c * d <= 128000000) by (nonlinear_arith)
        requires
            -4000 <= c <= 4000,
            -32000 <= d <= 32000,
    ;
    assert(p.x - to.x == a + b && p.y - to.y == c + d);
}

/// The visibility delta of a move. After the entity of `client` moved to
/// `to`, the client sees what it saw before, less the entities farther than
/// `UNLOAD_RANGE` from `to`, and the entities in the chunks that came into
/// view. What any other client sees is unchanged.
pub proof fn lemma_visibility_delta(world: GameView, client: u128, to: Vec2)
    requires
        world.valid(),
        world.has_entity(client),
    ensures
        world.after_move(client, to).view_set(client) == world.view_set(client).difference(
            world.beyond_unload(to),
        ).union(world.in_entered_chunks(world.entities[world.row_of(client)].position, to)),
        forall|other: u128|
            other != client ==> #[trigger] world.after_move(client, to).view_set(other)
                == world.view_set(other),
{
    let after = world.after_move(client, to);
    let from = world.entities[world.row_of(client)].position;
    let expected = world.view_set(client).difference(world.beyond_unload(to)).union(
        world.in_entered_chunks(from, to),
    );
    assert forall|i: int| 0 <= i < world.entities.len() implies (#[trigger] after.entities[i]).id
        == world.entities[i].id by {}
    assert forall|id: u128| after.view_set(client).contains(id) <==> expected.contains(id) by {
        if after.view_set(client).contains(id) {
            let i = choose|i: int| after.sees(client, i) && (#[trigger] after.entities[i]).id == id;
            assert(world.entities[i].id == id);
            if world.enters_view(client, i, from, to) {
                assert(world.in_entered_chunks(from, to).contains(id));
            } else {
                assert(world.sees(client, i));
                assert(world.view_set(client).contains(id));
                if world.beyond_unload(to).contains(id) {
                    let j = choose|j: int|
                        0 <= j < world.entities.len() && (#[trigger] world.entities[j]).id == id
                            && !within_range(world.entities[j].position, to, UNLOAD_RANGE as int);
                    if j < i {
                        assert(world.entities[j].id != world.entities[i].id);
                    } else if i < j {
                        assert(world.entities[i].id != world.entities[j].id);
                    }
                }
            }
        }
        if expected.contains(id) {
            if world.in_entered_chunks(from, to).contains(id) {
                let i = choose|i: int|
                    0 <= i < world.entities.len() && (#[trigger] world.entities[i]).id == id
                        && chunk_entered(
                        chunk_of(world.entities[i].position).0,
                        chunk_of(world.entities[i].position).1,
                        from,
                        to,
                    );
                lemma_chunk_in_view_is_near(world.entities[i].position, to);
                assert(after.sees(client, i));
                assert(after.entities[i].id == id);
            } else {
                let i = choose|i: int|
                    world.sees(client, i) && (#[trigger] world.entities[i]).id == id;
                assert(!world.beyond_unload(to).contains(id));
                assert(within_range(world.entities[i].position, to, UNLOAD_RANGE as int));
                assert(after.sees(client, i));
                assert(after.entities[i].id == id);
            }
        }
    }
    assert(after.view_set(client) =~= expected);
    assert forall|other: u128| other != client implies #[trigger] after.view_set(other)
        == world.view_set(other) by {
        assert forall|id: u128| after.view_set(other).contains(id) <==> world.view_set(
            other,
        ).contains(id) by {
            if after.view_set(other).contains(id) {
                let i = choose|i: int|
                    after.sees(other, i) && (#[trigger] after.entities[i]).id == id;
                assert(world.sees(other, i));
                assert(world.entities[i].id == id);
            }
            if world.view_set(other).contains(id) {
                let i = choose|i: int|
                    world.sees(other, i) && (#[trigger] world.entities[i]).id == id;
                assert(after.sees(other, i));
                assert(after.entities[i].id == id);
            }
        }
        assert(after.view_set(other) =~= world.view_set(other));
    }
}

/// The words that tell a world that `attacker` killed `victim`.
pub open spec fn kill_text(attacker: Seq<char>, victim: Seq<char>) -> Seq<char> {
    attacker + " killed "@ + victim
}

/// What came of an attack that hit.
#[derive(Debug)]
pub struct AttackOutcome {
    /// The id of the entity that was hit.
    pub target: u128,
    /// The health of the target after the hit; the target died if this is
    /// not positive.
    pub new_health: i32,
    /// The clients that saw the target when it was hit, each once.
    pub viewers: Vec<u128>,
    /// Where a player died, the words that tell the world of it.
    pub kill_message: Option<String>,
}

/// What is to be sent after a player joined a world.
#[derive(Debug)]
pub struct JoinOutcome {
    /// The chunks in view from where the player stands, row by row, for the
    /// player's client.
    pub chunks: Vec<(i32, i32)>,
    /// The other entities that the client now sees and did not before, in
    /// the order of the entity table, for the player's client.
    pub loads: Vec<Entity>,
    /// The players that now see the player's entity and did not before, in
    /// the order of the entity table. The player is among them.
    pub audience: Vec<u128>,
}

/// A client sees only entities of the table.
pub proof fn lemma_view_set_in_table(world: GameView, client: u128, id: u128)
    requires
        world.view_set(client).contains(id),
    ensures
        world.has_entity(id),
{
    let i = choose|i: int| world.sees(client, i) && (#[trigger] world.entities[i]).id == id;
    assert(0 <= i < world.entities.len() && world.entities[i].id == id);
}

/// An attack has one target at most.
pub proof fn lemma_target_is_unique(world: GameView, attacker: u128, cursor: Vec2, s: int, t: int)
    requires
        world.is_target(attacker, s, cursor),
        world.is_target(attacker, t, cursor),
    ensures
        s == t,
{
    assert(world.in_reach(attacker, s, cursor));
    assert(world.in_reach(attacker, t, cursor));
}

/// Why a player could not be registered.
#[derive(Clone, Copy, Debug, PartialEq, Eq, Structural)]
pub enum RegisterError {
    /// The name is reserved in this world.
    UsernameTaken,
    /// The world already holds an entity with the id of the client.
    AlreadyRegistered,
}

/// One running match.
pub struct Game {
    id: u128,
    name: String,
    /// The entity table, in the order in which the entities were placed.
    entities: Vec<Entity>,
    /// For each row of the entity table, the clients that have been told
    /// about the entity and not yet told to forget it.
    watchers: Vec<Vec<u128>>,
    /// The names reserved in this world.
    usernames: Vec<String>,
    terrain_generator: TerrainGenerator,
}

/// What a world holds, as mathematical values.
pub struct GameView {
    pub id: u128,
    pub name: Seq<char>,
    /// The entity table, in the order in which the entities were placed.
    pub entities: Seq<Entity>,
    /// For each row of the entity table, the clients that see the entity.
    pub watchers: Seq<Set<u128>>,
    /// The names reserved in this world.
    pub usernames: Seq<Seq<char>>,
    pub terrain: TerrainGenerator,
}

impl GameView {
    /// What holds of every world: the terrain covers it, each entity has a
    /// set of watchers, no two entities share an id, every entity is alive,
    /// no name is reserved twice, and the players bear reserved names, each
    /// a different one.
    pub open spec fn valid(self) -> bool {
        &&& self.terrain.wf()
        &&& self.watchers.len() == self.entities.len()
        &&& forall|i: int, j: int|
            0 <= i < j < self.entities.len() ==> (#[trigger] self.entities[i]).id
                != (#[trigger] self.entities[j]).id
        &&& forall|i: int| 0 <= i < self.entities.len() ==> (#[trigger] self.entities[i]).health > 0
        &&& self.usernames.no_duplicates()
        &&& forall|i: int|
            0 <= i < self.entities.len() && (#[trigger] self.entities[i]).username().is_some()
                ==> self.usernames.contains(self.entities[i].username().unwrap())
        &&& forall|i: int, j: int|
            0 <= i < j < self.entities.len() && (#[trigger] self.entities[i]).username().is_some()
                ==> self.entities[i].username() != (#[trigger] self.entities[j]).username()
    }

    /// Whether the table holds an entity with this id.
    pub open spec fn has_entity(self, id: u128) -> bool {
        exists|i: int| 0 <= i < self.entities.len() && (#[trigger] self.entities[i]).id == id
    }

    /// The row of the entity with this id.
    pub open spec fn row_of(self, id: u128) -> int
        recommends
            self.has_entity(id),
    {
        choose|i: int| 0 <= i < self.entities.len() && (#[trigger] self.entities[i]).id == id
    }

    /// Whether `client` sees the entity in row `i`.
    pub open spec fn sees(self, client: u128, i: int) -> bool {
        0 <= i < self.entities.len() && self.watchers[i].contains(client)
    }

    /// The visibility set of `client`: the ids of the entities it sees.
    pub open spec fn view_set(self, client: u128) -> Set<u128> {
        Set::new(
            |id: u128|
                exists|i: int| self.sees(client, i) && (#[trigger] self.entities[i]).id == id,
        )
    }

    /// Whether a player may spawn on the tile `(x, y)`: it lies in the spawn
    /// region and is not water.
    pub open spec fn spawnable(self, x: int, y: int) -> bool {
        in_spawn_region(x, y) && !is_water(self.terrain.tile_at(x, y))
    }

    /// Whether `position` is a spawn point of this world: the origin of a
    /// tile where a player may spawn or, in a world that has no such tile,
    /// the origin of the tile in the middle of the world.
    pub open spec fn is_spawn_point(self, position: Vec2) -> bool {
        exists|x: int, y: int|
            {
                &&& in_spawn_region(x, y)
                &&& position == #[trigger] tile_origin(x, y)
                &&& self.spawnable(x, y) || (x == WORLD_SIZE / 2 && y == WORLD_SIZE / 2
                    && forall|a: int, b: int| !#[trigger] self.spawnable(a, b))
            }
    }

    /// Whether `client`, on arriving at `to`, is to forget the entity in row
    /// `i`: it sees the entity, and the entity is farther than `UNLOAD_RANGE`
    /// from `to`.
    pub open spec fn leaves_view(self, client: u128, i: int, to: Vec2) -> bool {
        self.sees(client, i) && !within_range(self.entities[i].position, to, UNLOAD_RANGE as int)
    }

    /// Whether `client`, on moving from `from` to `to`, is to be told about
    /// the entity in row `i`: it does not see the entity, and the chunk that
    /// holds the entity came into view.
    pub open spec fn enters_view(self, client: u128, i: int, from: Vec2, to: Vec2) -> bool {
        &&& 0 <= i < self.entities.len()
        &&& !self.watchers[i].contains(client)
        &&& chunk_entered(
            chunk_of(self.entities[i].position).0,
            chunk_of(self.entities[i].position).1,
            from,
            to,
        )
    }

    /// The watchers of row `i` after `client` moved from `from` to `to`.
    pub open spec fn watchers_after_move(self, client: u128, i: int, from: Vec2, to: Vec2) -> Set<
        u128,
    > {
        if self.leaves_view(client, i, to) {
            self.watchers[i].remove(client)
        } else if self.enters_view(client, i, from, to) {
            self.watchers[i].insert(client)
        } else {
            self.watchers[i]
        }
    }

    /// This world after the entity of `client` moved to `to`: the entity
    /// stands at `to`, and `client` has forgotten the entities that are too
    /// far from `to` and has learnt of those in the chunks that came into
    /// view. Every entity is judged by where it stood before the move, the
    /// mover's own too. Nothing else changes.
    pub open spec fn after_move(self, client: u128, to: Vec2) -> GameView
        recommends
            self.has_entity(client),
    {
        let row = self.row_of(client);
        let from = self.entities[row].position;
        GameView {
            entities: self.entities.update(row, Entity { position: to, ..self.entities[row] }),
            watchers: Seq::new(
                self.watchers.len(),
                |i: int| self.watchers_after_move(client, i, from, to),
            ),
            ..self
        }
    }

    /// The entities in the rows below `n` that `client` learns of on moving
    /// from `from` to `to`.
    pub open spec fn loads_below(self, client: u128, from: Vec2, to: Vec2, n: int) -> Seq<Entity>
        decreases n,
    {
        if n <= 0 {
            Seq::empty()
        } else if self.enters_view(client, n - 1, from, to) {
            self.loads_below(client, from, to, n - 1).push(self.entities[n - 1])
        } else {
            self.loads_below(client, from, to, n - 1)
        }
    }

    /// The ids of the entities in the rows below `n` that `client` forgets
    /// on arriving at `to`.
    pub open spec fn unloads_below(self, client: u128, to: Vec2, n: int) -> Seq<u128>
        decreases n,
    {
        if n <= 0 {
            Seq::empty()
        } else if self.leaves_view(client, n - 1, to) {
            self.unloads_below(client, to, n - 1).push(self.entities[n - 1].id)
        } else {
            self.unloads_below(client, to, n - 1)
        }
    }

    /// The ids of the entities that are farther than `UNLOAD_RANGE` from
    /// `to`.
    pub open spec fn beyond_unload(self, to: Vec2) -> Set<u128> {
        Set::new(
            |id: u128|
                exists|i: int|
                    0 <= i < self.entities.len() && (#[trigger] self.entities[i]).id == id
                        && !within_range(self.entities[i].position, to, UNLOAD_RANGE as int),
        )
    }

    /// The ids of the entities in the chunks that came into view on the way
    /// from `from` to `to`.
    pub open spec fn in_entered_chunks(self, from: Vec2, to: Vec2) -> Set<u128> {
        Set::new(
            |id: u128|
                exists|i: int|
                    0 <= i < self.entities.len() && (#[trigger] self.entities[i]).id == id
                        && chunk_entered(
                        chunk_of(self.entities[i].position).0,
                        chunk_of(self.entities[i].position).1,
                        from,
                        to,
                    ),
        )
    }

    /// Whether the entity with the id `attacker` can attack: it is in the
    /// table and is a player.
    pub open spec fn can_attack(self, attacker: u128) -> bool {
        self.has_entity(attacker) && self.entities[self.row_of(attacker)].username().is_some()
    }

    /// The item that the player in row `row` holds in hand.
    pub open spec fn held_by(self, row: int) -> Option<Item> {
        match self.entities[row].value {
            EntityType::Player(p) => p.inventory.in_hand(),
            _ => None,
        }
    }

    /// Whether an attack of `attacker` at `cursor` can reach the entity in
    /// row `i`: the entity is another than the attacker and lies within
    /// `ATTACK_RANGE` of the cursor.
    pub open spec fn in_reach(self, attacker: u128, i: int, cursor: Vec2) -> bool {
        &&& 0 <= i < self.entities.len()
        &&& self.entities[i].id != attacker
        &&& within_range(self.entities[i].position, cursor, ATTACK_RANGE as int)
    }

    /// Whether an attack of `attacker` at `cursor` hits the entity in row
    /// `t`: of the entities in reach it is the nearest to the cursor, and of
    /// those equally near the first in the table.
    pub open spec fn is_target(self, attacker: u128, t: int, cursor: Vec2) -> bool {
        &&& self.in_reach(attacker, t, cursor)
        &&& forall|j: int| #[trigger]
            self.in_reach(attacker, j, cursor) ==> {
                let to_t = dist_sq(self.entities[t].position, cursor);
                let to_j = dist_sq(self.entities[j].position, cursor);
                to_t < to_j || (to_t == to_j && t <= j)
            }
    }

    /// This world after the entity in row `t` was left with `health`: with
    /// positive health it stays, with that health; else it leaves the table,
    /// and with it what was known of who saw it.
    pub open spec fn after_hit(self, t: int, health: i32) -> GameView {
        if health > 0 {
            GameView {
                entities: self.entities.update(t, Entity { health, ..self.entities[t] }),
                ..self
            }
        } else {
            GameView {
                entities: self.entities.remove(t),
                watchers: self.watchers.remove(t),
                ..self
            }
        }
    }

    /// Whether `hit` tells what an attack of the player in row `a` on the
    /// entity in row `t` does.
    pub open spec fn is_hit(self, a: int, t: int, hit: AttackOutcome) -> bool {
        let target = self.entities[t];
        &&& hit.target == target.id
        &&& hit.new_health == target.health - damage(self.held_by(a), target.value.weakness())
        &&& hit.viewers@.no_duplicates()
        &&& hit.viewers@.to_set() == self.watchers[t]
        &&& match hit.kill_message {
            Some(message) => hit.new_health <= 0 && target.username().is_some() && message@
                == kill_text(self.entities[a].username().unwrap(), target.username().unwrap()),
            None => hit.new_health > 0 || target.username().is_none(),
        }
    }

    /// Whether `client`, on joining at `from`, is to be told about the
    /// entity in row `i`: the entity is not its own, it does not see the
    /// entity yet, and the entity is a player or stands in a chunk in view.
    pub open spec fn joins_view(self, client: u128, i: int, from: Vec2) -> bool {
        &&& 0 <= i < self.entities.len()
        &&& self.entities[i].id != client
        &&& !self.watchers[i].contains(client)
        &&& (self.entities[i].username().is_some() || chunk_in_view(
            chunk_of(self.entities[i].position).0,
            chunk_of(self.entities[i].position).1,
            from,
        ))
    }

    /// Whether the entity in row `j` is a player that is to be told about
    /// the entity in row `row`, which it does not see yet.
    pub open spec fn hears_of(self, row: int, j: int) -> bool {
        &&& 0 <= j < self.entities.len()
        &&& self.entities[j].username().is_some()
        &&& !self.watchers[row].contains(self.entities[j].id)
    }

    /// The watchers of row `i` after the player in row `row` joined.
    pub open spec fn watchers_after_join(self, row: int, i: int) -> Set<u128> {
        if i == row {
            Set::new(
                |c: u128|
                    self.watchers[row].contains(c) || exists|j: int|
                        self.hears_of(row, j) && (#[trigger] self.entities[j]).id == c,
            )
        } else if self.joins_view(self.entities[row].id, i, self.entities[row].position) {
            self.watchers[i].insert(self.entities[row].id)
        } else {
            self.watchers[i]
        }
    }

    /// This world after the player `client` joined: every player sees the
    /// entity of `client`, and `client` sees every player and the entities
    /// in the chunks in view from where it stands. Nothing else changes.
    pub open spec fn after_join(self, client: u128) -> GameView
        recommends
            self.can_attack(client),
    {
        let row = self.row_of(client);
        GameView {
            watchers: Seq::new(self.watchers.len(), |i: int| self.watchers_after_join(row, i)),
            ..self
        }
    }

    /// The entities in the rows below `n` that `client` learns of on joining
    /// at `from`.
    pub open spec fn join_loads_below(self, client: u128, from: Vec2, n: int) -> Seq<Entity>
        decreases n,
    {
        if n <= 0 {
            Seq::empty()
        } else if self.joins_view(client, n - 1, from) {
            self.join_loads_below(client, from, n - 1).push(self.entities[n - 1])
        } else {
            self.join_loads_below(client, from, n - 1)
        }
    }

    /// The ids of the players in the rows below `n` that learn of the entity
    /// in row `row`.
    pub open spec fn audience_below(self, row: int, n: int) -> Seq<u128>
        decreases n,
    {
        if n <= 0 {
            Seq::empty()
        } else if self.hears_of(row, n - 1) {
            self.audience_below(row, n - 1).push(self.entities[n - 1].id)
        } else {
            self.audience_below(row, n - 1)
        }
    }

    /// This world after the player in row `row` took the slot `slot` in
    /// hand.
    pub open spec fn after_select(self, row: int, slot: u32) -> GameView {
        let entity = self.entities[row];
        match entity.value {
            EntityType::Player(player) => GameView {
                entities: self.entities.update(
                    row,
                    Entity {
                        value: EntityType::Player(
                            EntityPlayer {
                                inventory: Inventory { selected: slot, ..player.inventory },
                                ..player
                            },
                        ),
                        ..entity
                    },
                ),
                ..self
            },
            _ => self,
        }
    }

    /// Whether `after` is this world with the static resources of `tiles`
    /// placed in it: behind what the table held stands one new entity for
    /// each of the tiles, in their order, at the origin of its tile, at full
    /// health and seen by nobody. Nothing else differs.
    pub open spec fn with_resources(self, after: GameView, tiles: Seq<(int, int)>) -> bool {
        let held = self.entities.len() as int;
        &&& after.id == self.id
        &&& after.name == self.name
        &&& after.usernames == self.usernames
        &&& after.terrain == self.terrain
        &&& after.entities.len() == held + tiles.len()
        &&& after.watchers.len() == held + tiles.len()
        &&& forall|i: int|
            0 <= i < held ==> #[trigger] after.entities[i] == self.entities[i]
                && after.watchers[i] == self.watchers[i]
        &&& forall|k: int|
            0 <= k < tiles.len() ==> {
                let entity = #[trigger] after.entities[held + k];
                &&& entity.position == tile_origin(tiles[k].0, tiles[k].1)
                &&& Some(entity.value) == self.terrain.entity_at(tiles[k].0, tiles[k].1)
                &&& entity.health == MAX_WORLD_ENTITY_HEALTH
                &&& after.watchers[held + k] == Set::<u128>::empty()
            }
    }

    /// Whether `id` is free, and is `drawn` unless that is in use, and then
    /// the least id that is free.
    pub open spec fn is_free_id_from(self, drawn: u128, id: u128) -> bool {
        if self.has_entity(drawn) {
            !self.has_entity(id) && forall|k: u128| k < id ==> #[trigger] self.has_entity(k)
        } else {
            id == drawn
        }
    }

    /// Whether a player of this name stands in the world.
    pub open spec fn has_player_named(self, username: Seq<char>) -> bool {
        exists|i: int|
            0 <= i < self.entities.len() && (#[trigger] self.entities[i]).username() == Some(
                username,
            )
    }

    /// Where the player of this name stands.
    pub open spec fn player_position(self, username: Seq<char>) -> Vec2
        recommends
            self.has_player_named(username),
    {
        let i = choose|i: int|
            0 <= i < self.entities.len() && (#[trigger] self.entities[i]).username() == Some(
                username,
            );
        self.entities[i].position
    }

    /// Whether this is a world as it is created: under the id `id` and the
    /// name `name`, over the terrain of `seed` and the lattice `samples`,
    /// with no player and no reserved name, and holding the static resource
    /// of each tile that bears one, row by row.
    pub open spec fn is_new_world(
        self,
        id: u128,
        name: Seq<char>,
        seed: u32,
        samples: Seq<TileSample>,
    ) -> bool {
        &&& self.terrain.lattice() == samples
        &&& (
            self.terrain.elevation_field(),
            self.terrain.temperature_field(),
            self.terrain.humidity_field(),
            self.terrain.resource_field(),
        ) == TerrainGenerator::fields_of(seed)
        &&& (GameView {
            id,
            name,
            entities: Seq::empty(),
            watchers: Seq::empty(),
            usernames: Seq::empty(),
            terrain: self.terrain,
        }).with_resources(self, self.terrain.resource_tiles())
    }

    /// Whether the name is reserved.
    pub open spec fn name_taken(self, username: Seq<char>) -> bool {
        self.usernames.contains(username)
    }

    /// This world after `entity`, a new player named `username`, was placed
    /// in it: the entity stands last in the table and nobody sees it yet, and
    /// the name is reserved.
    pub open spec fn with_player(self, entity: Entity, username: Seq<char>) -> GameView {
        GameView {
            entities: self.entities.push(entity),
            watchers: self.watchers.push(Set::empty()),
            usernames: self.usernames.push(username),
            ..self
        }
    }
}

impl View for Game {
    type V = GameView;

    closed spec fn view(&self) -> GameView {
        GameView {
            id: self.id,
            name: self.name@,
            entities: self.entities@,
            watchers: Seq::new(self.watchers@.len(), |i: int| self.watchers@[i]@.to_set()),
            usernames: Seq::new(self.usernames@.len(), |i: int| self.usernames@[i]@),
            terrain: self.terrain_generator,
        }
    }
}

impl Game {
    /// What the representation keeps beyond `GameView::valid`: no client is
    /// listed twice among the watchers of an entity.
    pub closed spec fn inv(&self) -> bool {
        forall|i: int| 0 <= i < self.watchers@.len() ==> (#[trigger] self.watchers@[i])@.no_duplicates()
    }

    /// Well-formedness of a world.
    pub open spec fn wf(&self) -> bool {
        self.inv() && self@.valid()
    }

    /// A world without entities.
    pub fn new(id: u128, name: String, terrain_generator: TerrainGenerator) -> (game: Self)
        requires
            terrain_generator.wf(),
        ensures
            game.wf(),
            game@ == (GameView {
                id,
                name: name@,
                entities: Seq::empty(),
                watchers: Seq::empty(),
                usernames: Seq::empty(),
                terrain: terrain_generator,
            }),
    {
        let game = Game {
            id,
            name,
            entities: Vec::new(),
            watchers: Vec::new(),
            usernames: Vec::new(),
            terrain_generator,
        };
        assert(game@.watchers =~= Seq::empty());
        assert(game@.usernames =~= Seq::empty());
        game
    }

    pub fn id(&self) -> (id: u128)
        ensures
            id == self@.id,
    {
        self.id
    }

    pub fn name(&self) -> (name: &String)
        ensures
            name@ == self@.name,
    {
        &self.name
    }

    /// The generator of this world's terrain.
    pub fn terrain(&self) -> (terrain: &TerrainGenerator)
        ensures
            *terrain == self@.terrain,
    {
        &self.terrain_generator
    }

    /// The entity table.
    pub fn entities(&self) -> (entities: &Vec<Entity>)
        ensures
            entities@ == self@.entities,
    {
        &self.entities
    }

    /// The names reserved in this world, in the order in which they were
    /// reserved.
    pub fn usernames(&self) -> (usernames: &Vec<String>)
        ensures
            usernames@.len() == self@.usernames.len(),
            forall|i: int| 0 <= i < usernames@.len() ==> (#[trigger] usernames@[i])@ == self@.usernames[i],
    {
        &self.usernames
    }

    /// Whether `client` sees the entity with the id `id`.
    pub fn is_visible_to(&self, client: u128, id: u128) -> (visible: bool)
        requires
            self.wf(),
        ensures
            visible == self@.view_set(client).contains(id),
    {
        match self.find_entity(id) {
            Some(row) => {
                let visible = position_in(&self.watchers[row], client).is_some();
                proof {
                    let world = self@;
                    assert(world.watchers[row as int] == self.watchers@[row as int]@.to_set());
                    if world.view_set(client).contains(id) {
                        let i = choose|i: int|
                            world.sees(client, i) && (#[trigger] world.entities[i]).id == id;
                        if i < row {
                            assert(world.entities[i].id != world.entities[row as int].id);
                        } else if i > row {
                            assert(world.entities[row as int].id != world.entities[i].id);
                        }
                    }
                    if visible {
                        assert(world.sees(client, row as int));
                    }
                }
                visible
            },
            None => false,
        }
    }

    /// The row of the entity with this id.
    pub fn find_entity(&self, id: u128) -> (row: Option<usize>)
        ensures
            row.is_some() == self@.has_entity(id),
            row matches Some(i) ==> i < self@.entities.len() && self@.entities[i as int].id == id,
    {
        let mut i: usize = 0;
        while i < self.entities.len()
            invariant
                0 <= i <= self.entities.len(),
                forall|k: int| 0 <= k < i ==> (#[trigger] self.entities@[k]).id != id,
            decreases self.entities.len() - i,
        {
            if self.entities[i].id == id {
                return Some(i);
            }
            i = i + 1;
        }
        None
    }

    /// The entity with this id.
    pub fn get_entity(&self, id: u128) -> (entity: Option<&Entity>)
        ensures
            entity.is_some() == self@.has_entity(id),
            entity matches Some(e) ==> self@.entities.contains(*e) && e.id == id,
    {
        match self.find_entity(id) {
            Some(i) => {
                assert(self@.entities[i as int] == self.entities@[i as int]);
                Some(&self.entities[i])
            },
            None => None,
        }
    }

    /// The kind of the tile `(x, y)`.
    pub fn get_tile(&self, x: i32, y: i32) -> (tile: TileType)
        requires
            self.wf(),
        ensures
            tile == self@.terrain.tile_at(x as int, y as int),
    {
        self.terrain_generator.get_tile(x, y)
    }

    /// The tiles of the chunk `(x, y)`, row by row. A chunk may reach beyond
    /// the world, or lie beyond it altogether.
    pub fn get_chunk(&self, x: i32, y: i32) -> (chunk: TerrainChunk)
        requires
            self.wf(),
        ensures
            chunk@ == self@.terrain.chunk_at(x, y),
    {
        let mut contents: Vec<TileType> = Vec::new();
        let mut cy: i32 = 0;
        while cy < CHUNK_SIZE
            invariant
                self.wf(),
                0 <= cy <= CHUNK_SIZE,
                contents.len() == cy * CHUNK_SIZE,
                forall|k: int|
                    0 <= k < contents.len() ==> #[trigger] contents[k] == self@.terrain.tile_at(
                        CHUNK_SIZE * x + k % (CHUNK_SIZE as int),
                        CHUNK_SIZE * y + k / (CHUNK_SIZE as int),
                    ),
            decreases CHUNK_SIZE - cy,
        {
            let mut cx: i32 = 0;
            while cx < CHUNK_SIZE
                invariant
                    self.wf(),
                    0 <= cy < CHUNK_SIZE,
                    0 <= cx <= CHUNK_SIZE,
                    contents.len() == cy * CHUNK_SIZE + cx,
                    forall|k: int|
                        0 <= k < contents.len() ==> #[trigger] contents[k]
                            == self@.terrain.tile_at(
                            CHUNK_SIZE * x + k % (CHUNK_SIZE as int),
                            CHUNK_SIZE * y + k / (CHUNK_SIZE as int),
                        ),
                decreases CHUNK_SIZE - cx,
            {
                let tile_x: i64 = CHUNK_SIZE as i64 * x as i64 + cx as i64;
                let tile_y: i64 = CHUNK_SIZE as i64 * y as i64 + cy as i64;
                let tile = if 0 <= tile_x && tile_x < WORLD_SIZE as i64 && 0 <= tile_y && tile_y
                    < WORLD_SIZE as i64 {
                    self.get_tile(tile_x as i32, tile_y as i32)
                } else {
                    TileType::DeepWater
                };
                contents.push(tile);
                cx = cx + 1;
            }
            cy = cy + 1;
        }
        assert(contents@ =~= self@.terrain.chunk_at(x, y).contents);
        TerrainChunk { position: (x, y), contents }
    }

    /// Whether a player may spawn on the tile `(x, y)`.
    pub fn can_spawn_at(&self, x: i32, y: i32) -> (ok: bool)
        requires
            self.wf(),
        ensures
            ok == self@.spawnable(x as int, y as int),
    {
        if x < 2 * WATER_EDGE_SIZE || x >= WORLD_SIZE - 2 * WATER_EDGE_SIZE || y < 2
            * WATER_EDGE_SIZE || y >= WORLD_SIZE - 2 * WATER_EDGE_SIZE {
            return false;
        }
        match self.get_tile(x, y) {
            TileType::Water | TileType::DeepWater => false,
            _ => true,
        }
    }

    /// The first tile where a player may spawn, row by row, if there is one.
    fn first_spawnable(&self) -> (found: Option<(i32, i32)>)
        requires
            self.wf(),
        ensures
            found matches Some(tile) ==> self@.spawnable(tile.0 as int, tile.1 as int),
            found.is_none() ==> forall|a: int, b: int| !#[trigger] self@.spawnable(a, b),
    {
        let low: i32 = 2 * WATER_EDGE_SIZE;
        let high: i32 = WORLD_SIZE - 2 * WATER_EDGE_SIZE;
        let mut y: i32 = low;
        while y < high
            invariant
                self.wf(),
                low == 2 * WATER_EDGE_SIZE,
                high == WORLD_SIZE - 2 * WATER_EDGE_SIZE,
                low <= y <= high,
                forall|a: int, b: int| b < y ==> !#[trigger] self@.spawnable(a, b),
            decreases high - y,
        {
            let mut x: i32 = low;
            while x < high
                invariant
                    self.wf(),
                    low == 2 * WATER_EDGE_SIZE,
                    high == WORLD_SIZE - 2 * WATER_EDGE_SIZE,
                    low <= y < high,
                    low <= x <= high,
                    forall|a: int, b: int|
                        b < y || (b == y && a < x) ==> !#[trigger] self@.spawnable(a, b),
                decreases high - x,
            {
                if self.can_spawn_at(x, y) {
                    return Some((x, y));
                }
                x = x + 1;
            }
            y = y + 1;
        }
        None
    }

    /// A spawn point for a new player. A bounded number of tiles of the spawn
    /// region are drawn at random and the first that is not water is taken;
    /// if all were water, the region is searched row by row.
    pub fn get_new_spawn_location(&self) -> (position: Vec2)
        requires
            self.wf(),
        ensures
            self@.is_spawn_point(position),
    {
        let low: i32 = 2 * WATER_EDGE_SIZE;
        let high: i32 = WORLD_SIZE - 2 * WATER_EDGE_SIZE;
        let mut attempt: u32 = 0;
        while attempt < SPAWN_ATTEMPTS
            invariant
                self.wf(),
                low == 2 * WATER_EDGE_SIZE,
                high == WORLD_SIZE - 2 * WATER_EDGE_SIZE,
            decreases SPAWN_ATTEMPTS - attempt,
        {
            let x: i32 = random_range(low, high);
            let y: i32 = random_range(low, high);
            if self.can_spawn_at(x, y) {
                let position = Vec2::new(x * SUBTILE, y * SUBTILE);
                assert(position == tile_origin(x as int, y as int));
                return position;
            }
            attempt = attempt + 1;
        }
        match self.first_spawnable() {
            Some((x, y)) => {
                let position = Vec2::new(x * SUBTILE, y * SUBTILE);
                assert(position == tile_origin(x as int, y as int));
                position
            },
            None => {
                let middle: i32 = WORLD_SIZE / 2;
                let position = Vec2::new(middle * SUBTILE, middle * SUBTILE);
                assert(position == tile_origin(middle as int, middle as int));
                position
            },
        }
    }

    /// Whether the name is reserved in this world.
    pub fn is_username_taken(&self, username: &String) -> (taken: bool)
        ensures
            taken == self@.name_taken(username@),
    {
        let mut i: usize = 0;
        while i < self.usernames.len()
            invariant
                0 <= i <= self.usernames.len(),
                forall|k: int| 0 <= k < i ==> (#[trigger] self.usernames@[k])@ != username@,
            decreases self.usernames.len() - i,
        {
            if self.usernames[i] == *username {
                assert(self@.usernames[i as int] == username@);
                return true;
            }
            i = i + 1;
        }
        assert forall|k: int| 0 <= k < self@.usernames.len() implies self@.usernames[k]
            != username@ by {
            assert(self@.usernames[k] == self.usernames@[k]@);
        }
        false
    }

    /// Places a new player at `position`. The name must be free in this
    /// world and the id new to its entity table; otherwise nothing changes.
    pub fn register_player_at(
        &mut self,
        id: u128,
        username: String,
        skin: u32,
        position: Vec2,
    ) -> (registered: Result<Entity, RegisterError>)
        requires
            old(self).wf(),
        ensures
            final(self).wf(),
            match registered {
                Ok(entity) => {
                    &&& !old(self)@.name_taken(username@)
                    &&& !old(self)@.has_entity(id)
                    &&& entity.is_new_player(id, position, username@, skin)
                    &&& final(self)@ == old(self)@.with_player(entity, username@)
                },
                Err(RegisterError::UsernameTaken) => {
                    &&& old(self)@.name_taken(username@)
                    &&& final(self)@ == old(self)@
                },
                Err(RegisterError::AlreadyRegistered) => {
                    &&& !old(self)@.name_taken(username@)
                    &&& old(self)@.has_entity(id)
                    &&& final(self)@ == old(self)@
                },
            },
    {
        if self.is_username_taken(&username) {
            return Err(RegisterError::UsernameTaken);
        }
        if self.find_entity(id).is_some() {
            return Err(RegisterError::AlreadyRegistered);
        }
        let reserved = username.clone();
        let entity = Entity::player(id, position, username, skin);
        let copy = entity.clone();
        self.entities.push(entity);
        self.watchers.push(Vec::new());
        self.usernames.push(reserved);
        proof {
            let before = old(self)@;
            let after = self@;
            assert(self.watchers@[self.watchers@.len() - 1]@.to_set() =~= Set::<u128>::empty());
            assert(after.watchers =~= before.watchers.push(Set::empty()));
            assert(after.usernames =~= before.usernames.push(username@));
            assert(after == before.with_player(copy, username@));
            assert(copy.username() == Some(username@));
            assert forall|i: int|
                0 <= i < after.entities.len() && (#[trigger] after.entities[i]).username().is_some()
                implies after.usernames.contains(after.entities[i].username().unwrap()) by {
                if i < before.entities.len() {
                    assert(after.entities[i] == before.entities[i]);
                    let name = before.entities[i].username().unwrap();
                    assert(before.usernames.contains(name));
                    let k = choose|k: int| 0 <= k < before.usernames.len() && before.usernames[k] == name;
                    assert(after.usernames[k] == name);
                } else {
                    assert(after.usernames[before.usernames.len() as int] == username@);
                }
            }
            assert forall|i: int, j: int|
                0 <= i < j < after.entities.len() && (#[trigger] after.entities[i]).username().is_some()
                implies after.entities[i].username() != (#[trigger] after.entities[j]).username() by {
                assert(after.entities[i] == before.entities[i]);
                if j < before.entities.len() {
                    assert(after.entities[j] == before.entities[j]);
                } else {
                    assert(before.usernames.contains(before.entities[i].username().unwrap()));
                }
            }
            assert forall|i: int, j: int| 0 <= i < j < after.entities.len() implies (
            #[trigger] after.entities[i]).id != (#[trigger] after.entities[j]).id by {
                assert(after.entities[i] == before.entities[i]);
                if j < before.entities.len() {
                    assert(after.entities[j] == before.entities[j]);
                }
            }
            assert(after.usernames.no_duplicates()) by {
                assert forall|i: int, j: int|
                    0 <= i < after.usernames.len() && 0 <= j < after.usernames.len() && i
                        != j implies after.usernames[i] != after.usernames[j] by {
                    if i < before.usernames.len() {
                        assert(before.usernames.contains(before.usernames[i]));
                    }
                    if j < before.usernames.len() {
                        assert(before.usernames.contains(before.usernames[j]));
                    }
                }
            }
        }
        Ok(copy)
    }

    /// Registers a player under `username`: reserves the name and places a
    /// new player entity with the id of the client at a spawn point. The name
    /// must be free in this world and the id new to its entity table;
    /// otherwise nothing changes.
    pub fn register_player(&mut self, id: u128, username: String, skin: u32) -> (registered: Result<
        Entity,
        RegisterError,
    >)
        requires
            old(self).wf(),
        ensures
            final(self).wf(),
            match registered {
                Ok(entity) => {
                    &&& !old(self)@.name_taken(username@)
                    &&& !old(self)@.has_entity(id)
                    &&& old(self)@.is_spawn_point(entity.position)
                    &&& entity.is_new_player(id, entity.position, username@, skin)
                    &&& final(self)@ == old(self)@.with_player(entity, username@)
                },
                Err(RegisterError::UsernameTaken) => {
                    &&& old(self)@.name_taken(username@)
                    &&& final(self)@ == old(self)@
                },
                Err(RegisterError::AlreadyRegistered) => {
                    &&& !old(self)@.name_taken(username@)
                    &&& old(self)@.has_entity(id)
                    &&& final(self)@ == old(self)@
                },
            },
    {
        let position = self.get_new_spawn_location();
        self.register_player_at(id, username, skin, position)
    }

    /// The chunks that came into view on the way from `from` to `to`.
    fn chunks_entered(from: &Vec2, to: &Vec2) -> (chunks: Vec<(i32, i32)>)
        ensures
            lists_chunks(chunks@, |cx: int, cy: int| chunk_entered(cx, cy, *from, *to)),
    {
        let visible = get_chunk_coords_visible_from(*to);
        let mut chunks: Vec<(i32, i32)> = Vec::new();
        let mut i: usize = 0;
        while i < visible.len()
            invariant
                0 <= i <= visible.len(),
                lists_chunks(visible@, |cx: int, cy: int| chunk_in_view(cx, cy, *to)),
                forall|k: int|
                    0 <= k < chunks.len() ==> chunk_entered(
                        (#[trigger] chunks[k]).0 as int,
                        chunks[k].1 as int,
                        *from,
                        *to,
                    ) && exists|m: int| 0 <= m < i && visible[m] == chunks[k],
                forall|m: int|
                    0 <= m < i && chunk_entered(
                        (#[trigger] visible[m]).0 as int,
                        visible[m].1 as int,
                        *from,
                        *to,
                    ) ==> chunks@.contains(visible[m]),
                forall|j: int, k: int|
                    0 <= j < k < chunks.len() ==> chunk_before(
                        #[trigger] chunks[j],
                        #[trigger] chunks[k],
                    ),
            decreases visible.len() - i,
        {
            let c: (i32, i32) = visible[i];
            if !chunk_is_visible(c.0, c.1, from) {
                let ghost before = chunks@;
                chunks.push(c);
                proof {
                    assert(chunks@[before.len() as int] == c);
                    assert forall|m: int|
                        0 <= m < i + 1 && chunk_entered(
                            (#[trigger] visible[m]).0 as int,
                            visible[m].1 as int,
                            *from,
                            *to,
                        ) implies chunks@.contains(visible[m]) by {
                        if m < i {
                            let k = choose|k: int| 0 <= k < before.len() && before[k] == visible[m];
                            assert(chunks@[k] == visible[m]);
                        }
                    }
                    assert forall|j: int, k: int| 0 <= j < k < chunks.len() implies chunk_before(
                        #[trigger] chunks[j],
                        #[trigger] chunks[k],
                    ) by {
                        if k == before.len() {
                            let m = choose|m: int| 0 <= m < i && visible[m] == before[j];
                            assert(chunk_before(visible[m], visible[i as int]));
                        }
                    }
                }
            }
            i = i + 1;
        }
        proof {
            assert forall|cx: i32, cy: i32|
                chunk_entered(cx as int, cy as int, *from, *to) implies #[trigger] chunks@.contains(
                (cx, cy),
            ) by {
                assert(visible@.contains((cx, cy)));
                let m = choose|m: int| 0 <= m < visible.len() && visible[m] == (cx, cy);
                assert(chunk_entered(visible[m].0 as int, visible[m].1 as int, *from, *to));
            }
        }
        chunks
    }

    /// Whether the chunk that holds `position` came into view on the way
    /// from `from` to `to`.
    fn position_entered(position: &Vec2, from: &Vec2, to: &Vec2) -> (entered: bool)
        ensures
            entered == chunk_entered(chunk_of(*position).0, chunk_of(*position).1, *from, *to),
    {
        if position.x < 0 || position.y < 0 {
            return false;
        }
        let cx: i32 = position.x / CHUNK_SPAN;
        let cy: i32 = position.y / CHUNK_SPAN;
        chunk_is_visible(cx, cy, to) && !chunk_is_visible(cx, cy, from)
    }

    /// Moves the entity of `client` to `new_position` and brings what the
    /// client sees up to date: the chunks that came into view are listed,
    /// an entity that the client sees and that is farther than
    /// `UNLOAD_RANGE` from the new position is forgotten, and one that it
    /// does not see, in a chunk that came into view, is learnt of. Every
    /// entity is judged by where it stands before the move, the mover's own
    /// too. A client without an entity in this world moves nothing.
    pub fn on_move(&mut self, client: u128, new_position: Vec2) -> (outcome: Option<MoveOutcome>)
        requires
            old(self).wf(),
        ensures
            final(self).wf(),
            outcome.is_some() == old(self)@.has_entity(client),
            outcome.is_none() ==> final(self)@ == old(self)@,
            outcome matches Some(sent) ==> {
                let from = old(self)@.entities[old(self)@.row_of(client)].position;
                &&& final(self)@ == old(self)@.after_move(client, new_position)
                &&& lists_chunks(
                    sent.chunks@,
                    |cx: int, cy: int| chunk_entered(cx, cy, from, new_position),
                )
                &&& sent.loads@ == old(self)@.loads_below(
                    client,
                    from,
                    new_position,
                    old(self)@.entities.len() as int,
                )
                &&& sent.unloads@ == old(self)@.unloads_below(
                    client,
                    new_position,
                    old(self)@.entities.len() as int,
                )
            },
    {
        let row = match self.find_entity(client) {
            Some(row) => row,
            None => {
                return None;
            },
        };
        let ghost before = self@;
        proof {
            let chosen = before.row_of(client);
            if chosen < row {
                assert(before.entities[chosen].id != before.entities[row as int].id);
            } else if chosen > row {
                assert(before.entities[row as int].id != before.entities[chosen].id);
            }
            assert(chosen == row);
        }
        let from = self.entities[row].position;
        let chunks = Self::chunks_entered(&from, &new_position);
        let mut loads: Vec<Entity> = Vec::new();
        let mut unloads: Vec<u128> = Vec::new();
        let mut i: usize = 0;
        while i < self.entities.len()
            invariant
                0 <= i <= self.entities.len(),
                before.valid(),
                self.entities@ == before.entities,
                self.watchers@.len() == before.watchers.len(),
                self.usernames == old(self).usernames,
                self.terrain_generator == old(self).terrain_generator,
                self.id == old(self).id,
                self.name == old(self).name,
                forall|k: int|
                    0 <= k < self.watchers@.len() ==> (#[trigger] self.watchers@[k])@.no_duplicates(),
                forall|k: int|
                    0 <= k < i ==> (#[trigger] self.watchers@[k])@.to_set()
                        == before.watchers_after_move(client, k, from, new_position),
                forall|k: int|
                    i <= k < self.watchers@.len() ==> (#[trigger] self.watchers@[k])@.to_set()
                        == before.watchers[k],
                loads@ == before.loads_below(client, from, new_position, i as int),
                unloads@ == before.unloads_below(client, new_position, i as int),
            decreases self.entities.len() - i,
        {
            let position = self.entities[i].position;
            let ghost list = self.watchers@[i as int]@;
            match position_in(&self.watchers[i], client) {
                Some(at) => {
                    if !position.is_within(&new_position, UNLOAD_RANGE) {
                        proof {
                            lemma_watchers_without(list, at as int);
                        }
                        self.watchers[i].remove(at);
                        unloads.push(self.entities[i].id);
                    }
                },
                None => {
                    if Self::position_entered(&position, &from, &new_position) {
                        proof {
                            lemma_watchers_with(list, client);
                        }
                        self.watchers[i].push(client);
                        loads.push(self.entities[i].clone());
                    }
                },
            }
            i = i + 1;
        }
        self.entities[row].position = new_position;
        proof {
            let after = self@;
            assert(after.entities =~= before.entities.update(
                row as int,
                Entity { position: new_position, ..before.entities[row as int] },
            ));
            assert(after.watchers =~= before.after_move(client, new_position).watchers);
            assert(after.usernames =~= before.usernames);
            assert(after == before.after_move(client, new_position));
            assert forall|k: int| 0 <= k < after.entities.len() implies (
            #[trigger] after.entities[k]).id == before.entities[k].id && after.entities[k].username()
                == before.entities[k].username() && after.entities[k].health
                == before.entities[k].health by {}
        }
        Some(MoveOutcome { chunks, loads, unloads })
    }

    /// The row that an attack of `attacker` at `cursor` hits.
    fn nearest_in_reach(&self, attacker: u128, cursor: &Vec2) -> (target: Option<usize>)
        ensures
            target matches Some(t) ==> self@.is_target(attacker, t as int, *cursor),
            target.is_none() ==> forall|j: int| !#[trigger] self@.in_reach(attacker, j, *cursor),
    {
        let mut best: Option<usize> = None;
        let mut best_distance: u128 = 0;
        let mut i: usize = 0;
        while i < self.entities.len()
            invariant
                0 <= i <= self.entities.len(),
                best matches Some(t) ==> {
                    &&& t < i
                    &&& self@.in_reach(attacker, t as int, *cursor)
                    &&& best_distance == dist_sq(self.entities@[t as int].position, *cursor)
                    &&& forall|j: int|
                        j < i && #[trigger] self@.in_reach(attacker, j, *cursor) ==> {
                            let to_j = dist_sq(self.entities@[j].position, *cursor);
                            best_distance < to_j || (best_distance == to_j && t <= j)
                        }
                },
                best.is_none() ==> forall|j: int|
                    j < i ==> !#[trigger] self@.in_reach(attacker, j, *cursor),
            decreases self.entities.len() - i,
        {
            let entity = &self.entities[i];
            if entity.id != attacker && entity.position.is_within(cursor, ATTACK_RANGE) {
                let distance: u128 = entity.position.distance_squared(cursor);
                let nearer = match best {
                    None => true,
                    Some(_) => distance < best_distance,
                };
                if nearer {
                    best = Some(i);
                    best_distance = distance;
                }
            }
            i = i + 1;
        }
        best
    }

    /// The attack of `attacker` at the cursor position `cursor`. Of the other
    /// entities within `ATTACK_RANGE` of the cursor the nearest is hit and
    /// loses health; one left without health leaves the world. Nothing
    /// happens where the attacker is no player of this world or no entity is
    /// in reach.
    pub fn attack(&mut self, attacker: u128, cursor: Vec2) -> (outcome: Option<AttackOutcome>)
        requires
            old(self).wf(),
        ensures
            final(self).wf(),
            outcome.is_some() == (old(self)@.can_attack(attacker) && exists|t: int|
                old(self)@.is_target(attacker, t, cursor)),
            outcome.is_none() ==> final(self)@ == old(self)@,
            outcome matches Some(hit) ==> exists|t: int|
                {
                    &&& old(self)@.is_target(attacker, t, cursor)
                    &&& old(self)@.is_hit(old(self)@.row_of(attacker), t, hit)
                    &&& final(self)@ == old(self)@.after_hit(t, hit.new_health)
                },
    {
        let ghost before = self@;
        let row = match self.find_entity(attacker) {
            Some(row) => row,
            None => {
                return None;
            },
        };
        proof {
            let chosen = before.row_of(attacker);
            if chosen < row {
                assert(before.entities[chosen].id != before.entities[row as int].id);
            } else if chosen > row {
                assert(before.entities[row as int].id != before.entities[chosen].id);
            }
        }
        let (held, attacker_name) = match &self.entities[row].value {
            EntityType::Player(player) => (player.inventory.selected_item(), player.username.clone()),
            _ => {
                return None;
            },
        };
        let t = match self.nearest_in_reach(attacker, &cursor) {
            Some(t) => t,
            None => {
                return None;
            },
        };
        let dealt: i32 = attack_damage(held, &self.entities[t].value);
        let target: u128 = self.entities[t].id;
        let new_health: i32 = self.entities[t].health - dealt;
        if new_health > 0 {
            let viewers = copy_of(&self.watchers[t]);
            self.entities[t].health = new_health;
            proof {
                let after = self@;
                assert(after.entities =~= before.entities.update(
                    t as int,
                    Entity { health: new_health, ..before.entities[t as int] },
                ));
                assert(after.watchers =~= before.watchers);
                assert(after.usernames =~= before.usernames);
                assert(after == before.after_hit(t as int, new_health));
                assert forall|k: int| 0 <= k < after.entities.len() implies (
                #[trigger] after.entities[k]).id == before.entities[k].id
                    && after.entities[k].username() == before.entities[k].username()
                    && after.entities[k].health > 0 by {}
            }
            let hit = AttackOutcome { target, new_health, viewers, kill_message: None };
            assert(before.is_hit(row as int, t as int, hit));
            Some(hit)
        } else {
            let victim = self.entities.remove(t);
            let viewers = self.watchers.remove(t);
            let kill_message = match &victim.value {
                EntityType::Player(player) => {
                    let mut message = attacker_name;
                    message.append(" killed ");
                    message.append(player.username.as_str());
                    Some(message)
                },
                _ => None,
            };
            proof {
                let after = self@;
                assert(after.entities =~= before.entities.remove(t as int));
                assert(after.watchers =~= before.watchers.remove(t as int));
                assert(after.usernames =~= before.usernames);
                assert(after == before.after_hit(t as int, new_health));
                assert forall|k: int| 0 <= k < after.entities.len() implies #[trigger] after.entities[k]
                    == before.entities[if k < t { k } else { k + 1 }] by {}
                assert forall|i: int, j: int| 0 <= i < j < after.entities.len() implies (
                #[trigger] after.entities[i]).id != (#[trigger] after.entities[j]).id by {
                    assert(after.entities[i] == before.entities[if i < t { i } else { i + 1 }]);
                    assert(after.entities[j] == before.entities[if j < t { j } else { j + 1 }]);
                }
                assert forall|i: int, j: int|
                    0 <= i < j < after.entities.len() && (
                    #[trigger] after.entities[i]).username().is_some() implies after.entities[i].username()
                    != (#[trigger] after.entities[j]).username() by {
                    assert(after.entities[i] == before.entities[if i < t { i } else { i + 1 }]);
                    assert(after.entities[j] == before.entities[if j < t { j } else { j + 1 }]);
                }
                assert forall|i: int|
                    0 <= i < after.entities.len() && (
                    #[trigger] after.entities[i]).username().is_some() implies after.usernames.contains(
                    after.entities[i].username().unwrap(),
                ) by {
                    assert(after.entities[i] == before.entities[if i < t { i } else { i + 1 }]);
                }
                assert forall|k: int| 0 <= k < self.watchers@.len() implies (
                #[trigger] self.watchers@[k])@.no_duplicates() by {
                    assert(self.watchers@[k] == old(self).watchers@[if k < t { k } else { k + 1 }]);
                }
            }
            let hit = AttackOutcome { target, new_health, viewers, kill_message };
            assert(before.is_hit(row as int, t as int, hit));
            Some(hit)
        }
    }

    /// Brings a player that has just been placed into view: every player is
    /// to be told about the entity of `client`, and `client` about every
    /// player and about the entities in the chunks in view from where it
    /// stands. Nothing happens where `client` is no player of this world.
    pub fn on_join(&mut self, client: u128) -> (outcome: Option<JoinOutcome>)
        requires
            old(self).wf(),
        ensures
            final(self).wf(),
            outcome.is_some() == old(self)@.can_attack(client),
            outcome.is_none() ==> final(self)@ == old(self)@,
            outcome matches Some(sent) ==> {
                let row = old(self)@.row_of(client);
                let from = old(self)@.entities[row].position;
                &&& final(self)@ == old(self)@.after_join(client)
                &&& lists_chunks(sent.chunks@, |cx: int, cy: int| chunk_in_view(cx, cy, from))
                &&& sent.loads@ == old(self)@.join_loads_below(
                    client,
                    from,
                    old(self)@.entities.len() as int,
                )
                &&& sent.audience@ == old(self)@.audience_below(
                    row,
                    old(self)@.entities.len() as int,
                )
            },
    {
        let ghost before = self@;
        let row = match self.find_entity(client) {
            Some(row) => row,
            None => {
                return None;
            },
        };
        proof {
            let chosen = before.row_of(client);
            if chosen < row {
                assert(before.entities[chosen].id != before.entities[row as int].id);
            } else if chosen > row {
                assert(before.entities[row as int].id != before.entities[chosen].id);
            }
        }
        if self.entities[row].value.as_player().is_none() {
            return None;
        }
        let from = self.entities[row].position;
        let chunks = get_chunk_coords_visible_from(from);
        let mut loads: Vec<Entity> = Vec::new();
        let mut audience: Vec<u128> = Vec::new();
        let ghost own = self.watchers@[row as int]@;
        let mut i: usize = 0;
        while i < self.entities.len()
            invariant
                0 <= i <= self.entities.len(),
                row < self.entities.len(),
                before.valid(),
                before.entities[row as int].id == client,
                before.entities[row as int].position == from,
                before.watchers[row as int] == own.to_set(),
                self.entities@ == before.entities,
                self.watchers@.len() == before.watchers.len(),
                self.usernames == old(self).usernames,
                self.terrain_generator == old(self).terrain_generator,
                self.id == old(self).id,
                self.name == old(self).name,
                forall|k: int|
                    0 <= k < self.watchers@.len() ==> (#[trigger] self.watchers@[k])@.no_duplicates(),
                forall|k: int|
                    0 <= k < i && k != row ==> (#[trigger] self.watchers@[k])@.to_set()
                        == before.watchers_after_join(row as int, k),
                forall|k: int|
                    i <= k < self.watchers@.len() && k != row ==> (
                    #[trigger] self.watchers@[k])@.to_set() == before.watchers[k],
                self.watchers@[row as int]@ == own + audience@,
                loads@ == before.join_loads_below(client, from, i as int),
                audience@ == before.audience_below(row as int, i as int),
            decreases self.entities.len() - i,
        {
            let id: u128 = self.entities[i].id;
            let is_player: bool = self.entities[i].value.as_player().is_some();
            let ghost heard = audience@;
            if is_player {
                let ghost list = self.watchers@[row as int]@;
                let seen = position_in(&self.watchers[row], id);
                proof {
                    if heard.contains(id) {
                        let m = choose|m: int| 0 <= m < heard.len() && heard[m] == id;
                        let j = Self::lemma_audience_source(before, row as int, i as int, m);
                        assert(before.entities[j].id != before.entities[i as int].id);
                    }
                    assert(list.contains(id) == own.contains(id)) by {
                        if list.contains(id) {
                            let k = choose|k: int| 0 <= k < list.len() && list[k] == id;
                            if k >= own.len() {
                                assert(heard[k - own.len()] == id);
                            } else {
                                assert(own[k] == id);
                            }
                        }
                        if own.contains(id) {
                            let k = choose|k: int| 0 <= k < own.len() && own[k] == id;
                            assert(list[k] == id);
                        }
                    }
                }
                if seen.is_none() {
                    proof {
                        lemma_watchers_with(list, id);
                    }
                    self.watchers[row].push(id);
                    audience.push(id);
                    assert(self.watchers@[row as int]@ =~= own + audience@);
                }
            }
            if i != row {
                let position = self.entities[i].position;
                let ghost list = self.watchers@[i as int]@;
                proof {
                    if i < row {
                        assert(before.entities[i as int].id != before.entities[row as int].id);
                    } else {
                        assert(before.entities[row as int].id != before.entities[i as int].id);
                    }
                    assert(list.to_set() == before.watchers[i as int]);
                }
                if position_in(&self.watchers[i], client).is_none() && (is_player
                    || Self::position_in_view(&position, &from)) {
                    proof {
                        lemma_watchers_with(list, client);
                    }
                    self.watchers[i].push(client);
                    loads.push(self.entities[i].clone());
                }
                assert(self.watchers@[i as int]@.to_set() == before.watchers_after_join(
                    row as int,
                    i as int,
                ));
            }
            i = i + 1;
        }
        proof {
            let after = self@;
            let list = self.watchers@[row as int]@;
            assert forall|c: u128| list.to_set().contains(c) <==> before.watchers_after_join(
                row as int,
                row as int,
            ).contains(c) by {
                if list.contains(c) {
                    let k = choose|k: int| 0 <= k < list.len() && list[k] == c;
                    if k >= own.len() {
                        assert(audience@[k - own.len()] == c);
                        let j = Self::lemma_audience_source(
                            before,
                            row as int,
                            before.entities.len() as int,
                            k - own.len(),
                        );
                        assert(before.hears_of(row as int, j) && before.entities[j].id == c);
                    } else {
                        assert(own[k] == c);
                        assert(own.contains(c));
                    }
                }
                if own.contains(c) {
                    let k = choose|k: int| 0 <= k < own.len() && own[k] == c;
                    assert(list[k] == c);
                }
                if exists|j: int|
                    before.hears_of(row as int, j) && (#[trigger] before.entities[j]).id == c {
                    let j = choose|j: int|
                        before.hears_of(row as int, j) && (#[trigger] before.entities[j]).id == c;
                    Self::lemma_audience_holds(before, row as int, before.entities.len() as int, j);
                    let m = choose|m: int| 0 <= m < audience.len() && audience@[m] == c;
                    assert(list[own.len() + m] == c);
                }
            }
            assert(list.to_set() =~= before.watchers_after_join(row as int, row as int));
            assert(after.watchers =~= before.after_join(client).watchers);
            assert(after.usernames =~= before.usernames);
            assert(after == before.after_join(client));
        }
        Some(JoinOutcome { chunks, loads, audience })
    }

    /// Each member of the audience of a row is a player that hears of it.
    proof fn lemma_audience_source(world: GameView, row: int, n: int, m: int) -> (j: int)
        requires
            0 <= m < world.audience_below(row, n).len(),
        ensures
            0 <= j < n,
            world.hears_of(row, j),
            world.entities[j].id == world.audience_below(row, n)[m],
        decreases n,
    {
        let rest = world.audience_below(row, n - 1);
        if world.hears_of(row, n - 1) && m == rest.len() {
            n - 1
        } else {
            Self::lemma_audience_source(world, row, n - 1, m)
        }
    }

    /// The audience of a row holds the id of each player that hears of it.
    proof fn lemma_audience_holds(world: GameView, row: int, n: int, j: int)
        requires
            0 <= j < n,
            world.hears_of(row, j),
        ensures
            world.audience_below(row, n).contains(world.entities[j].id),
        decreases n,
    {
        let rest = world.audience_below(row, n - 1);
        if j == n - 1 {
            assert(rest.push(world.entities[j].id)[rest.len() as int] == world.entities[j].id);
        } else {
            Self::lemma_audience_holds(world, row, n - 1, j);
            let m = choose|m: int| 0 <= m < rest.len() && rest[m] == world.entities[j].id;
            if world.hears_of(row, n - 1) {
                assert(rest.push(world.entities[n - 1].id)[m] == world.entities[j].id);
            }
        }
    }

    /// Whether the chunk that holds `position` is in view from `from`.
    fn position_in_view(position: &Vec2, from: &Vec2) -> (visible: bool)
        ensures
            visible == chunk_in_view(chunk_of(*position).0, chunk_of(*position).1, *from),
    {
        if position.x < 0 || position.y < 0 {
            return false;
        }
        chunk_is_visible(position.x / CHUNK_SPAN, position.y / CHUNK_SPAN, from)
    }

    /// Takes the slot `slot` of the inventory of `client` in hand. A number
    /// that names no slot is refused, and so is a client that is no player of
    /// this world; then nothing changes.
    pub fn select_item(&mut self, client: u128, slot: u32) -> (accepted: bool)
        requires
            old(self).wf(),
        ensures
            final(self).wf(),
            accepted == (old(self)@.can_attack(client) && slot < INVENTORY_SLOTS),
            final(self)@ == if accepted {
                old(self)@.after_select(old(self)@.row_of(client), slot)
            } else {
                old(self)@
            },
    {
        let ghost before = self@;
        let row = match self.find_entity(client) {
            Some(row) => row,
            None => {
                return false;
            },
        };
        proof {
            let chosen = before.row_of(client);
            if chosen < row {
                assert(before.entities[chosen].id != before.entities[row as int].id);
            } else if chosen > row {
                assert(before.entities[row as int].id != before.entities[chosen].id);
            }
        }
        if slot >= INVENTORY_SLOTS {
            return false;
        }
        let accepted = match &mut self.entities[row].value {
            EntityType::Player(player) => {
                player.inventory.selected = slot;
                true
            },
            _ => false,
        };
        proof {
            let after = self@;
            if accepted {
                assert(after.entities =~= before.after_select(row as int, slot).entities);
            } else {
                assert(after.entities =~= before.entities);
            }
            assert(after.watchers =~= before.watchers);
            assert(after.usernames =~= before.usernames);
            assert forall|k: int| 0 <= k < after.entities.len() implies (
            #[trigger] after.entities[k]).id == before.entities[k].id && after.entities[k].username()
                == before.entities[k].username() && after.entities[k].health
                == before.entities[k].health by {}
        }
        accepted
    }

    /// Where the player named `username` stands.
    pub fn find_player(&self, username: &String) -> (found: Option<Vec2>)
        requires
            self.wf(),
        ensures
            found.is_some() == self@.has_player_named(username@),
            found matches Some(position) ==> position == self@.player_position(username@),
    {
        let mut i: usize = 0;
        while i < self.entities.len()
            invariant
                self.wf(),
                0 <= i <= self.entities.len(),
                forall|k: int|
                    0 <= k < i ==> (#[trigger] self.entities@[k]).username() != Some(username@),
            decreases self.entities.len() - i,
        {
            match &self.entities[i].value {
                EntityType::Player(player) => {
                    if player.username == *username {
                        proof {
                            let world = self@;
                            assert(world.entities[i as int].username() == Some(username@));
                            assert(world.has_player_named(username@));
                            let chosen = choose|k: int|
                                0 <= k < world.entities.len() && (
                                #[trigger] world.entities[k]).username() == Some(username@);
                            if chosen < i {
                                assert(world.entities[chosen].username()
                                    != world.entities[i as int].username());
                            } else if chosen > i {
                                assert(world.entities[i as int].username()
                                    != world.entities[chosen].username());
                            }
                        }
                        return Some(self.entities[i].position);
                    }
                },
                _ => {},
            }
            i = i + 1;
        }
        None
    }

    /// Places the static resource of the tile `(x, y)` under the id `id`.
    /// Nothing is placed where the tile bears no resource or the id is in
    /// use.
    pub fn add_resource(&mut self, id: u128, x: i32, y: i32) -> (placed: bool)
        requires
            old(self).wf(),
        ensures
            final(self).wf(),
            placed == (!old(self)@.has_entity(id) && old(self)@.terrain.entity_at(
                x as int,
                y as int,
            ).is_some()),
            final(self)@ == if placed {
                GameView {
                    entities: old(self)@.entities.push(
                        Entity {
                            id,
                            position: tile_origin(x as int, y as int),
                            value: old(self)@.terrain.entity_at(x as int, y as int).unwrap(),
                            health: MAX_WORLD_ENTITY_HEALTH,
                        },
                    ),
                    watchers: old(self)@.watchers.push(Set::empty()),
                    ..old(self)@
                }
            } else {
                old(self)@
            },
    {
        let ghost before = self@;
        if self.find_entity(id).is_some() {
            return false;
        }
        let value = match self.terrain_generator.get_contents(x, y).1 {
            Some(value) => value,
            None => {
                return false;
            },
        };
        assert(in_world(x as int, y as int));
        assert(!(value is Player)) by {
            assert(resource_of(before.terrain.tile_at(x as int, y as int)) == Some(value));
        }
        let entity = Entity::new(id, Vec2::new(x * SUBTILE, y * SUBTILE), value);
        self.entities.push(entity);
        self.watchers.push(Vec::new());
        proof {
            let after = self@;
            assert(self.watchers@[self.watchers@.len() - 1]@.to_set() =~= Set::<u128>::empty());
            assert(after.watchers =~= before.watchers.push(Set::empty()));
            assert(after.usernames =~= before.usernames);
            assert forall|i: int| 0 <= i < before.entities.len() implies #[trigger] after.entities[i]
                == before.entities[i] by {}
        }
        true
    }

    /// The ids of the entities, in the order of the table.
    fn entity_ids(&self) -> (ids: Vec<u128>)
        ensures
            ids@.len() == self@.entities.len(),
            forall|i: int| 0 <= i < ids@.len() ==> ids@[i] == (#[trigger] self@.entities[i]).id,
    {
        let mut ids: Vec<u128> = Vec::new();
        let mut i: usize = 0;
        while i < self.entities.len()
            invariant
                0 <= i <= self.entities.len(),
                ids@.len() == i,
                forall|k: int| 0 <= k < i ==> ids@[k] == (#[trigger] self.entities@[k]).id,
            decreases self.entities.len() - i,
        {
            ids.push(self.entities[i].id);
            i = i + 1;
        }
        ids
    }

    /// An id for a new entity: `drawn`, unless an entity bears it, and then
    /// the least id that none bears.
    pub fn free_id_from(&self, drawn: u128) -> (id: u128)
        ensures
            self@.is_free_id_from(drawn, id),
            !self@.has_entity(id),
    {
        if self.find_entity(drawn).is_none() {
            return drawn;
        }
        let ids = self.entity_ids();
        let id = least_free(&ids);
        proof {
            let world = self@;
            assert forall|k: u128| world.has_entity(k) == ids@.contains(k) by {
                if world.has_entity(k) {
                    let i = choose|i: int|
                        0 <= i < world.entities.len() && (#[trigger] world.entities[i]).id == k;
                    assert(ids@[i] == k);
                }
                if ids@.contains(k) {
                    let i = choose|i: int| 0 <= i < ids@.len() && ids@[i] == k;
                    assert(world.entities[i].id == k);
                }
            }
        }
        id
    }

    /// Places the static resource of each tile of the world that bears one,
    /// row by row, each under an id of its own: one drawn at random or,
    /// should that be in use, the least that is free.
    pub fn generate_resources(&mut self)
        requires
            old(self).wf(),
        ensures
            final(self).wf(),
            old(self)@.with_resources(final(self)@, old(self)@.terrain.resource_tiles()),
    {
        let ghost before = self@;
        assert(before.with_resources(before, before.terrain.resource_tiles_below(0)));
        let mut y: i32 = 0;
        while y < WORLD_SIZE
            invariant
                0 <= y <= WORLD_SIZE,
                self.wf(),
                before.with_resources(self@, before.terrain.resource_tiles_below(y * WORLD_SIZE)),
            decreases WORLD_SIZE - y,
        {
            let mut x: i32 = 0;
            while x < WORLD_SIZE
                invariant
                    0 <= y < WORLD_SIZE,
                    0 <= x <= WORLD_SIZE,
                    self.wf(),
                    before.with_resources(
                        self@,
                        before.terrain.resource_tiles_below(y * WORLD_SIZE + x),
                    ),
                decreases WORLD_SIZE - x,
            {
                let ghost middle = self@;
                let ghost n = y * WORLD_SIZE + x;
                let ghost tiles = before.terrain.resource_tiles_below(n);
                proof {
                    assert(n % (WORLD_SIZE as int) == x && n / (WORLD_SIZE as int) == y);
                    assert(before.terrain.resource_tiles_below(n + 1) == if before.terrain.entity_at(
                        x as int,
                        y as int,
                    ).is_some() {
                        tiles.push((x as int, y as int))
                    } else {
                        tiles
                    });
                }
                if self.terrain_generator.get_contents(x, y).1.is_some() {
                    let id: u128 = self.free_id_from(new_id());
                    let placed = self.add_resource(id, x, y);
                    proof {
                        let after = self@;
                        let more = tiles.push((x as int, y as int));
                        let held = before.entities.len() as int;
                        assert(placed);
                        assert forall|i: int| 0 <= i < held implies #[trigger] after.entities[i]
                            == before.entities[i] && after.watchers[i] == before.watchers[i] by {
                            assert(after.entities[i] == middle.entities[i]);
                            assert(after.watchers[i] == middle.watchers[i]);
                        }
                        assert forall|k: int| 0 <= k < more.len() implies {
                            let entity = #[trigger] after.entities[held + k];
                            &&& entity.position == tile_origin(more[k].0, more[k].1)
                            &&& Some(entity.value) == before.terrain.entity_at(more[k].0, more[k].1)
                            &&& entity.health == MAX_WORLD_ENTITY_HEALTH
                            &&& after.watchers[held + k] == Set::<u128>::empty()
                        } by {
                            if k < tiles.len() {
                                assert(after.entities[held + k] == middle.entities[held + k]);
                                assert(after.watchers[held + k] == middle.watchers[held + k]);
                                assert(more[k] == tiles[k]);
                            }
                        }
                    }
                }
                x = x + 1;
            }
            y = y + 1;
        }
    }
}

} // verus!
