use hexhavoc::chat::{parse_chat, ChatCommand};
use hexhavoc::combat::attack_damage;
use hexhavoc::entity::{Entity, EntityPlayer, EntityType, Inventory, Item, Material, ToolKind};
use hexhavoc::fresh::least_free;
use hexhavoc::geometry::Vec2;
use hexhavoc::packet::{Dispatch, ErrorPacket, Message, Packet};

fn player() -> EntityType {
    EntityType::Player(EntityPlayer {
        username: String::from("target"),
        skin: 0,
        inventory: Inventory::starter(),
    })
}

#[test]
fn error_packet_keeps_its_code() {
    assert_eq!(ErrorPacket::new("game-not-found").error, "game-not-found");
    assert_eq!(ErrorPacket::new("").error, "");
}

#[test]
fn distances_are_exact_over_the_whole_range() {
    let a = Vec2::new(3, -4);
    let origin = Vec2::new(0, 0);
    assert_eq!(a.distance_squared(&origin), 25);
    assert!(a.is_within(&origin, 5));
    assert!(!a.is_within(&origin, 4));
    let low = Vec2::new(i32::MIN, i32::MIN);
    let high = Vec2::new(i32::MAX, i32::MAX);
    assert_eq!(low.distance_squared(&high), 2 * (u32::MAX as u128) * (u32::MAX as u128));
    assert!(!low.is_within(&high, u32::MAX));
    assert!(low.is_within(&Vec2::new(i32::MAX, i32::MIN), u32::MAX));
}

#[test]
fn iron_sword_on_a_player_deals_forty() {
    assert_eq!(attack_damage(Some(Item::IronSword), &player()), 40);
}

#[test]
fn bare_hands_deal_five() {
    assert_eq!(attack_damage(None, &player()), 5);
    assert_eq!(attack_damage(None, &EntityType::ForestTree), 5);
}

#[test]
fn iron_pickaxe_on_a_player_deals_twenty() {
    assert_eq!(attack_damage(Some(Item::IronPickaxe), &player()), 20);
}

#[test]
fn damage_doubles_for_the_right_tool_and_for_iron() {
    assert_eq!(attack_damage(Some(Item::WoodenSword), &player()), 20);
    assert_eq!(attack_damage(Some(Item::WoodenAxe), &player()), 10);
    assert_eq!(attack_damage(Some(Item::WoodenAxe), &EntityType::ForestTree), 20);
    assert_eq!(attack_damage(Some(Item::IronAxe), &EntityType::ForestTree), 40);
    assert_eq!(attack_damage(Some(Item::IronAxe), &EntityType::Rock), 20);
    assert_eq!(attack_damage(Some(Item::WoodenPickaxe), &EntityType::Rock), 20);
    assert_eq!(attack_damage(Some(Item::IronPickaxe), &EntityType::Rock), 40);
    assert_eq!(attack_damage(Some(Item::WoodenSword), &EntityType::Rock), 10);
}

#[test]
fn items_map_to_kind_and_material() {
    assert_eq!(Item::WoodenSword.tool_kind(), ToolKind::Sword);
    assert_eq!(Item::IronAxe.tool_kind(), ToolKind::Axe);
    assert_eq!(Item::IronPickaxe.tool_kind(), ToolKind::Pickaxe);
    assert_eq!(Item::WoodenPickaxe.material(), Material::Wood);
    assert_eq!(Item::IronSword.material(), Material::Iron);
    assert_eq!(player().best_damaging_tool(), ToolKind::Sword);
    assert_eq!(EntityType::ForestTree.best_damaging_tool(), ToolKind::Axe);
    assert_eq!(EntityType::Rock.best_damaging_tool(), ToolKind::Pickaxe);
    assert!(player().as_player().is_some());
    assert!(EntityType::Rock.as_player().is_none());
}

#[test]
fn starter_inventory_holds_three_tools() {
    let mut inventory = Inventory::starter();
    assert_eq!(
        inventory.slots,
        [Some(Item::WoodenSword), Some(Item::WoodenAxe), Some(Item::WoodenPickaxe), None, None, None]
    );
    assert_eq!(inventory.selected, 0);
    assert_eq!(inventory.selected_item(), Some(Item::WoodenSword));
    assert!(inventory.select(2));
    assert_eq!(inventory.selected_item(), Some(Item::WoodenPickaxe));
    assert!(inventory.select(5));
    assert_eq!(inventory.selected_item(), None);
    assert!(!inventory.select(6));
    assert_eq!(inventory.selected, 5);
}

#[test]
fn new_entities_are_at_full_health() {
    let at = Vec2::new(1000, 2000);
    let tree = Entity::new(9, at, EntityType::ForestTree);
    assert_eq!((tree.id, tree.position, tree.health), (9, at, 50));
    let player = Entity::player(4, at, String::from("ann"), 3);
    assert_eq!((player.id, player.position, player.health), (4, at, 100));
    match &player.value {
        EntityType::Player(p) => {
            assert_eq!(p.username, "ann");
            assert_eq!(p.skin, 3);
            assert_eq!(p.inventory.selected_item(), Some(Item::WoodenSword));
        }
        _ => panic!("a player was asked for"),
    }
    let copy = player.clone();
    assert_eq!(copy.id, 4);
    assert!(matches!(copy.value, EntityType::Player(ref p) if p.username == "ann"));
}

#[test]
fn plain_lines_are_speech() {
    assert!(matches!(parse_chat(&String::from("hello there")), ChatCommand::Say));
    assert!(matches!(parse_chat(&String::from("")), ChatCommand::Say));
    assert!(matches!(parse_chat(&String::from(" /tp alice")), ChatCommand::Say));
    assert!(matches!(parse_chat(&String::from("tp alice")), ChatCommand::Say));
}

#[test]
fn tp_takes_the_second_word() {
    assert!(matches!(parse_chat(&String::from("/tp alice")), ChatCommand::Teleport(name) if name == "alice"));
    assert!(matches!(parse_chat(&String::from("/tp alice bob")), ChatCommand::Teleport(name) if name == "alice"));
    assert!(matches!(parse_chat(&String::from("/tp ")), ChatCommand::Teleport(name) if name == ""));
    assert!(matches!(parse_chat(&String::from("/tp  alice")), ChatCommand::Teleport(name) if name == ""));
    assert!(matches!(parse_chat(&String::from("/tp żółw x")), ChatCommand::Teleport(name) if name == "żółw"));
}

#[test]
fn other_commands_are_invalid() {
    assert!(matches!(parse_chat(&String::from("/tp")), ChatCommand::Invalid));
    assert!(matches!(parse_chat(&String::from("/")), ChatCommand::Invalid));
    assert!(matches!(parse_chat(&String::from("/tpx alice")), ChatCommand::Invalid));
    assert!(matches!(parse_chat(&String::from("/t alice")), ChatCommand::Invalid));
    assert!(matches!(parse_chat(&String::from("/TP alice")), ChatCommand::Invalid));
    assert!(matches!(parse_chat(&String::from("/give alice sword")), ChatCommand::Invalid));
}

#[test]
fn dispatches_name_their_recipients() {
    let one = Dispatch::packet_for(7, Packet::EntityUnload { id: 3 });
    assert_eq!(one.recipients, vec![7]);
    assert!(matches!(one.message, Message::Packet(Packet::EntityUnload { id: 3 })));
    let many = Dispatch::packet(vec![1, 2], Packet::EntityDeath { id: 3 });
    assert_eq!(many.recipients, vec![1, 2]);
    let error = Dispatch::error_for(7, "username-taken");
    assert_eq!(error.recipients, vec![7]);
    assert!(matches!(error.message, Message::Error(ref e) if e.error == "username-taken"));
}

#[test]
fn the_least_free_id_is_found() {
    assert_eq!(least_free(&vec![]), 0);
    assert_eq!(least_free(&vec![5, 7]), 0);
    assert_eq!(least_free(&vec![0, 1, 3]), 2);
    assert_eq!(least_free(&vec![2, 0, 1, 0, 2]), 3);
    assert_eq!(least_free(&vec![u128::MAX, 0]), 1);
}
