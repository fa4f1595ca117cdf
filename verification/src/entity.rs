//! What is placed in a world: players with their tools, and static
//! resources.

use vstd::prelude::*;
use crate::config::{MAX_PLAYER_HEALTH, MAX_WORLD_ENTITY_HEALTH};
use crate::geometry::Vec2;

verus! {

/// Number of slots of an inventory.
pub const INVENTORY_SLOTS: u32 = 6;

/// What a tool is made for.
#[derive(Clone, Copy, Debug, PartialEq, Eq, Structural)]
pub enum ToolKind {
    Sword,
    Axe,
    Pickaxe,
}

/// What a tool is made of.
#[derive(Clone, Copy, Debug, PartialEq, Eq, Structural)]
pub enum Material {
    Wood,
    Iron,
}

/// A tool that a player can hold.
#[derive(Clone, Copy, Debug, PartialEq, Eq, Structural)]
pub enum Item {
    WoodenSword,
    WoodenAxe,
    WoodenPickaxe,
    IronSword,
    IronAxe,
    IronPickaxe,
}

impl Item {
    pub open spec fn kind(self) -> ToolKind {
        match self {
            Item::WoodenSword | Item::IronSword => ToolKind::Sword,
            Item::WoodenAxe | Item::IronAxe => ToolKind::Axe,
            Item::WoodenPickaxe | Item::IronPickaxe => ToolKind::Pickaxe,
        }
    }

    pub open spec fn made_of(self) -> Material {
        match self {
            Item::WoodenSword | Item::WoodenAxe | Item::WoodenPickaxe => Material::Wood,
            Item::IronSword | Item::IronAxe | Item::IronPickaxe => Material::Iron,
        }
    }

    /// The kind of tool this item is.
    pub fn tool_kind(&self) -> (kind: ToolKind)
        ensures
            kind == self.kind(),
    {
        match self {
            Item::WoodenSword | Item::IronSword => ToolKind::Sword,
            Item::WoodenAxe | Item::IronAxe => ToolKind::Axe,
            Item::WoodenPickaxe | Item::IronPickaxe => ToolKind::Pickaxe,
        }
    }

    /// The material of this tool.
    pub fn material(&self) -> (material: Material)
        ensures
            material == self.made_of(),
    {
        match self {
            Item::WoodenSword | Item::WoodenAxe | Item::WoodenPickaxe => Material::Wood,
            Item::IronSword | Item::IronAxe | Item::IronPickaxe => Material::Iron,
        }
    }
}

/// Six ordered slots, each empty or holding an item, and the index of the
/// slot in hand. The slot in hand may be empty.
#[derive(Clone, Copy, Debug)]
pub struct Inventory {
    pub slots: [Option<Item>; 6],
    pub selected: u32,
}

impl Inventory {
    /// The item in hand: that of the selected slot, if the selection names a
    /// slot and the slot is not empty.
    pub open spec fn in_hand(self) -> Option<Item> {
        if self.selected < INVENTORY_SLOTS {
            self.slots[self.selected as int]
        } else {
            None
        }
    }

    /// The inventory of a new player: a wooden sword, axe and pickaxe, then
    /// three empty slots, with the first slot in hand.
    pub fn starter() -> (inventory: Self)
        ensures
            inventory.slots@ == seq![
                Some(Item::WoodenSword),
                Some(Item::WoodenAxe),
                Some(Item::WoodenPickaxe),
                None,
                None,
                None,
            ],
            inventory.selected == 0,
    {
        let slots: [Option<Item>; 6] = [
            Some(Item::WoodenSword),
            Some(Item::WoodenAxe),
            Some(Item::WoodenPickaxe),
            None,
            None,
            None,
        ];
        assert(slots@ =~= seq![
            Some(Item::WoodenSword),
            Some(Item::WoodenAxe),
            Some(Item::WoodenPickaxe),
            None,
            None,
            None,
        ]);
        Inventory { slots, selected: 0 }
    }

    /// The item in hand.
    pub fn selected_item(&self) -> (item: Option<Item>)
        ensures
            item == self.in_hand(),
    {
        if self.selected < INVENTORY_SLOTS {
            self.slots[self.selected as usize]
        } else {
            None
        }
    }

    /// Takes the slot `slot` in hand. A number that names no slot is refused
    /// and leaves the inventory as it was.
    pub fn select(&mut self, slot: u32) -> (accepted: bool)
        ensures
            accepted == (slot < INVENTORY_SLOTS),
            final(self).slots == old(self).slots,
            final(self).selected == if accepted { slot } else { old(self).selected },
    {
        if slot < INVENTORY_SLOTS {
            self.selected = slot;
            true
        } else {
            false
        }
    }
}

/// The part of an entity that only a player has.
#[derive(Debug)]
pub struct EntityPlayer {
    pub username: String,
    pub skin: u32,
    pub inventory: Inventory,
}

impl Clone for EntityPlayer {
    fn clone(&self) -> (copy: Self)
        ensures
            copy == *self,
    {
        EntityPlayer {
            username: self.username.clone(),
            skin: self.skin,
            inventory: self.inventory,
        }
    }
}

/// What an entity is.
#[derive(Debug)]
pub enum EntityType {
    Player(EntityPlayer),
    ForestTree,
    Rock,
}

impl Clone for EntityType {
    fn clone(&self) -> (copy: Self)
        ensures
            copy == *self,
    {
        match self {
            EntityType::Player(player) => EntityType::Player(player.clone()),
            EntityType::ForestTree => EntityType::ForestTree,
            EntityType::Rock => EntityType::Rock,
        }
    }
}

impl EntityType {
    /// The kind of tool that harms this kind of entity most.
    pub open spec fn weakness(self) -> ToolKind {
        match self {
            EntityType::Player(_) => ToolKind::Sword,
            EntityType::ForestTree => ToolKind::Axe,
            EntityType::Rock => ToolKind::Pickaxe,
        }
    }

    /// The health an entity of this kind starts with.
    pub open spec fn full_health(self) -> i32 {
        match self {
            EntityType::Player(_) => MAX_PLAYER_HEALTH,
            _ => MAX_WORLD_ENTITY_HEALTH,
        }
    }

    /// The kind of tool that harms this kind of entity most.
    pub fn best_damaging_tool(&self) -> (kind: ToolKind)
        ensures
            kind == self.weakness(),
    {
        match self {
            EntityType::Player(_) => ToolKind::Sword,
            EntityType::ForestTree => ToolKind::Axe,
            EntityType::Rock => ToolKind::Pickaxe,
        }
    }

    /// The player behind this entity, if it is one.
    pub fn as_player(&self) -> (player: Option<&EntityPlayer>)
        ensures
            player == match *self {
                EntityType::Player(p) => Some(&p),
                _ => None,
            },
    {
        match self {
            EntityType::Player(player) => Some(player),
            _ => None,
        }
    }
}

/// Anything placed in a world.
#[derive(Debug)]
pub struct Entity {
    pub id: u128,
    pub position: Vec2,
    pub value: EntityType,
    pub health: i32,
}

impl Clone for Entity {
    fn clone(&self) -> (copy: Self)
        ensures
            copy == *self,
    {
        Entity {
            id: self.id,
            position: self.position,
            value: self.value.clone(),
            health: self.health,
        }
    }
}

impl Entity {
    /// An entity at full health.
    pub fn new(id: u128, position: Vec2, value: EntityType) -> (entity: Self)
        ensures
            entity == (Entity { id, position, value, health: value.full_health() }),
    {
        let health: i32 = match &value {
            EntityType::Player(_) => MAX_PLAYER_HEALTH,
            _ => MAX_WORLD_ENTITY_HEALTH,
        };
        Entity { id, position, value, health }
    }

    /// Whether this is the entity of a new player: full health, the starter
    /// inventory with its first slot in hand.
    pub open spec fn is_new_player(
        self,
        id: u128,
        position: Vec2,
        username: Seq<char>,
        skin: u32,
    ) -> bool {
        &&& self.id == id
        &&& self.position == position
        &&& self.health == MAX_PLAYER_HEALTH
        &&& self.value matches EntityType::Player(p) && p.username@ == username && p.skin == skin
            && p.inventory.selected == 0 && p.inventory.slots@ == seq![
            Some(Item::WoodenSword),
            Some(Item::WoodenAxe),
            Some(Item::WoodenPickaxe),
            None,
            None,
            None,
        ]
    }

    /// The entity of a new player.
    pub fn player(id: u128, position: Vec2, username: String, skin: u32) -> (entity: Self)
        ensures
            entity.is_new_player(id, position, username@, skin),
    {
        let value = EntityType::Player(
            EntityPlayer { username, skin, inventory: Inventory::starter() },
        );
        Entity::new(id, position, value)
    }

    /// The name of the player behind this entity, if it is one.
    pub open spec fn username(self) -> Option<Seq<char>> {
        match self.value {
            EntityType::Player(p) => Some(p.username@),
            _ => None,
        }
    }
}

} // verus!
