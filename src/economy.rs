//! The money balance and what each building costs.
use vstd::prelude::*;
use crate::building::FloorType;
use crate::furniture::{BedType, FurnitureType};

verus! {

pub const STARTING_MONEY: i32 = 10000;

/// What the player can order built.
#[derive(Debug, Clone, Copy, PartialEq, Eq, Structural)]
pub enum BuildingType {
    Wall,
    Door,
    Window,
    Floor(FloorType),
    Furniture(FurnitureType),
}

pub open spec fn cost_of(b: BuildingType) -> i32 {
    match b {
        BuildingType::Wall => 10,
        BuildingType::Door => 50,
        BuildingType::Window => 30,
        BuildingType::Floor(f) => match f {
            FloorType::Wood => 5,
            FloorType::Stone => 8,
            FloorType::Carpet => 12,
            FloorType::Tile => 10,
        },
        BuildingType::Furniture(t) => match t {
            FurnitureType::Bed(BedType::Single) => 200,
            FurnitureType::Bed(BedType::Double) => 350,
            FurnitureType::Desk => 100,
            FurnitureType::Chair => 50,
            FurnitureType::Dresser => 150,
            FurnitureType::Nightstand => 75,
            FurnitureType::Toilet => 125,
            FurnitureType::Sink => 80,
            FurnitureType::Tub => 275,
            FurnitureType::ReceptionConsole => 300,
        },
    }
}

impl BuildingType {
    pub fn cost(&self) -> (r: i32)
        ensures
            r == cost_of(*self),
            r > 0,
    {
        match self {
            BuildingType::Wall => 10,
            BuildingType::Door => 50,
            BuildingType::Window => 30,
            BuildingType::Floor(f) => match f {
                FloorType::Wood => 5,
                FloorType::Stone => 8,
                FloorType::Carpet => 12,
                FloorType::Tile => 10,
            },
            BuildingType::Furniture(t) => match t {
                FurnitureType::Bed(BedType::Single) => 200,
                FurnitureType::Bed(BedType::Double) => 350,
                FurnitureType::Desk => 100,
                FurnitureType::Chair => 50,
                FurnitureType::Dresser => 150,
                FurnitureType::Nightstand => 75,
                FurnitureType::Toilet => 125,
                FurnitureType::Sink => 80,
                FurnitureType::Tub => 275,
                FurnitureType::ReceptionConsole => 300,
            },
        }
    }
}

#[derive(Debug, Clone, Copy, PartialEq, Eq, Structural)]
pub struct Money {
    pub amount: i32,
}

impl Money {
    pub fn default() -> (r: Money)
        ensures
            r.amount == STARTING_MONEY,
    {
        Money { amount: STARTING_MONEY }
    }

    pub fn can_afford(&self, cost: i32) -> (r: bool)
        ensures
            r == (self.amount >= cost),
    {
        self.amount >= cost
    }

    /// Takes `cost` off the balance if it is covered; says whether it was.
    pub fn deduct(&mut self, cost: i32) -> (r: bool)
        requires
            cost >= 0,
        ensures
            r == (old(self).amount >= cost),
            final(self).amount == if r { old(self).amount - cost } else { old(self).amount as int },
    {
        if self.amount >= cost {
            self.amount = self.amount - cost;
            true
        } else {
            false
        }
    }

    pub fn add(&mut self, amount: i32)
        requires
            i32::MIN <= old(self).amount + amount <= i32::MAX,
        ensures
            final(self).amount == old(self).amount + amount,
    {
        self.amount = self.amount + amount;
    }
}

} // verus!
