//! How much a hit takes from its target.

use vstd::prelude::*;
use crate::config::ATTACK_DAMAGE;
use crate::entity::{EntityType, Item, Material, ToolKind};

verus! {

/// The damage of a hit with `held` in hand on a target whose weakness is
/// `weakness`: `ATTACK_DAMAGE` with bare hands; with a tool twice that,
/// doubled again where the tool is of the kind that the target is weak to,
/// and doubled again where the tool is made of iron.
pub open spec fn damage(held: Option<Item>, weakness: ToolKind) -> int {
    match held {
        None => ATTACK_DAMAGE as int,
        Some(item) => ATTACK_DAMAGE * 2 * (if item.kind() == weakness {
            2int
        } else {
            1int
        }) * (if item.made_of() == Material::Iron {
            2int
        } else {
            1int
        }),
    }
}

/// The damage of a hit with `held` in hand on an entity of the kind
/// `target`.
pub fn attack_damage(held: Option<Item>, target: &EntityType) -> (dealt: i32)
    ensures
        dealt == damage(held, target.weakness()),
        ATTACK_DAMAGE <= dealt <= 8 * ATTACK_DAMAGE,
{
    let mut dealt: i32 = ATTACK_DAMAGE;
    match held {
        None => {},
        Some(item) => {
            dealt = dealt * 2;
            if item.tool_kind() == target.best_damaging_tool() {
                dealt = dealt * 2;
            }
            if item.material() == Material::Iron {
                dealt = dealt * 2;
            }
        },
    }
    dealt
}

} // verus!
