use vstd::prelude::*;

use crate::entity_component::Entity;
use crate::random::random_u32;

verus! {

/// Hit points and attack power of a fighter.
#[derive(Clone, Copy)]
pub struct BattleStatusComponent {
    hp: i32,
    attack_pow: i32,
}

impl BattleStatusComponent {
    /// Every fighter's attack power is 15: it is set so and nothing changes it.
    #[verifier::type_invariant]
    spec fn attack_power_fixed(self) -> bool {
        self.attack_pow == 15
    }

    /// A fresh fighter: 100 hit points, attack power 15.
    pub fn new() -> (b: BattleStatusComponent)
        ensures
            b.hp() == 100,
            b.attack_pow() == 15,
    {
        BattleStatusComponent { hp: 100, attack_pow: 15 }
    }

    /// The hit points.
    pub closed spec fn hp_spec(&self) -> i32 {
        self.hp
    }

    /// The attack power.
    pub closed spec fn attack_pow_spec(&self) -> i32 {
        self.attack_pow
    }

    #[verifier::when_used_as_spec(hp_spec)]
    pub fn hp(&self) -> (hp: i32)
        ensures
            hp == self.hp_spec(),
    {
        self.hp
    }

    /// The attack power, which is 15 for every fighter, whatever happened to
    /// it before.
    #[verifier::when_used_as_spec(attack_pow_spec)]
    pub fn attack_pow(&self) -> (pow: i32)
        ensures
            pow == self.attack_pow_spec(),
            pow == 15,
    {
        proof {
            use_type_invariant(self);
        }
        self.attack_pow
    }

    /// Takes the hit that `by` deals with the random `roll`: the damage is
    /// `by`'s attack power plus `roll % 4`, and it comes off the hit points.
    pub fn attacked_with_roll(&mut self, by: &BattleStatusComponent, roll: u32) -> (damage: i32)
        requires
            by.attack_pow() + (roll % 4) as int <= i32::MAX,
            i32::MIN <= old(self).hp() - (by.attack_pow() + (roll % 4) as int) <= i32::MAX,
        ensures
            damage == by.attack_pow() + (roll % 4) as int,
            final(self).hp() == old(self).hp() - damage,
            final(self).attack_pow() == old(self).attack_pow(),
    {
        proof {
            use_type_invariant(&*self);
        }
        let bonus: i32 = (roll % 4) as i32;
        let damage = by.attack_pow() + bonus;
        self.hp -= damage;
        damage
    }

    /// Takes a hit from `by`, with a random roll: the damage is `by`'s
    /// attack power plus 0 to 3, and it comes off the hit points.
    pub fn attacked(&mut self, by: &BattleStatusComponent) -> (damage: i32)
        requires
            by.attack_pow() + 3 <= i32::MAX,
            old(self).hp() - by.attack_pow() - 3 >= i32::MIN,
            old(self).hp() - by.attack_pow() <= i32::MAX,
        ensures
            by.attack_pow() <= damage <= by.attack_pow() + 3,
            final(self).hp() == old(self).hp() - damage,
            final(self).attack_pow() == old(self).attack_pow(),
    {
        let roll = random_u32();
        self.attacked_with_roll(by, roll)
    }

    /// A fighter's status does not change by itself over time.
    pub fn update<C>(&mut self, parent: &Entity<C>)
        ensures
            final(self).hp() == old(self).hp(),
            final(self).attack_pow() == old(self).attack_pow(),
    {
    }
}

} // verus!
