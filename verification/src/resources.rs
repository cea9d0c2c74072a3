//! Goods, animals, and the bonuses printed on board cells.
use vstd::prelude::*;

verus! {


/// A player's goods.
#[derive(Clone, Copy, PartialEq, Eq, Structural, Debug)]
pub struct Resources {
    pub gold: usize,
    pub begging: usize,
    pub wood: usize,
    pub stone: usize,
    pub coal: usize,
    pub rubies: usize,
    pub food: usize,
    pub wheat: usize,
    pub vegetables: usize,
}

/// The kinds of farm animal; an `Animals` array is indexed by them.
#[derive(Clone, Copy, PartialEq, Eq, Structural, Debug)]
pub enum AnimalType {
    Cow,
    Boar,
    Donkey,
    Sheep,
}

/// Number of animals of each kind, indexed by `AnimalType::index`.
pub type Animals = [usize; 4];

pub const COW: usize = 0;

pub const BOAR: usize = 1;

pub const DONKEY: usize = 2;

pub const SHEEP: usize = 3;

impl AnimalType {
    /// The position of the kind in an `Animals` array.
    #[verifier::allow_in_spec]
    pub fn index(self) -> usize
        returns
            (match self {
                AnimalType::Cow => 0usize,
                AnimalType::Boar => 1usize,
                AnimalType::Donkey => 2usize,
                AnimalType::Sheep => 3usize,
            }),
    {
        match self {
            AnimalType::Cow => COW,
            AnimalType::Boar => BOAR,
            AnimalType::Donkey => DONKEY,
            AnimalType::Sheep => SHEEP,
        }
    }
}

impl Resources {
    /// No goods at all.
    pub open spec fn spec_zero() -> Resources {
        Resources {
            gold: 0,
            begging: 0,
            wood: 0,
            stone: 0,
            coal: 0,
            rubies: 0,
            food: 0,
            wheat: 0,
            vegetables: 0,
        }
    }

    /// No goods at all.
    pub fn zero() -> (r: Resources)
        ensures
            r == Resources::spec_zero(),
    {
        Resources {
            gold: 0,
            begging: 0,
            wood: 0,
            stone: 0,
            coal: 0,
            rubies: 0,
            food: 0,
            wheat: 0,
            vegetables: 0,
        }
    }

    /// The field-wise sum of two stocks of goods.
    pub open spec fn sum(self, rhs: Resources) -> Resources {
        Resources {
            gold: (self.gold + rhs.gold) as usize,
            begging: (self.begging + rhs.begging) as usize,
            wood: (self.wood + rhs.wood) as usize,
            stone: (self.stone + rhs.stone) as usize,
            coal: (self.coal + rhs.coal) as usize,
            rubies: (self.rubies + rhs.rubies) as usize,
            food: (self.food + rhs.food) as usize,
            wheat: (self.wheat + rhs.wheat) as usize,
            vegetables: (self.vegetables + rhs.vegetables) as usize,
        }
    }
}

impl Resources {
    /// Adds every count of `rhs` to `self`.
    pub fn add_assign(&mut self, rhs: Resources)
        requires
            old(self).gold + rhs.gold <= usize::MAX,
            old(self).begging + rhs.begging <= usize::MAX,
            old(self).wood + rhs.wood <= usize::MAX,
            old(self).stone + rhs.stone <= usize::MAX,
            old(self).coal + rhs.coal <= usize::MAX,
            old(self).rubies + rhs.rubies <= usize::MAX,
            old(self).food + rhs.food <= usize::MAX,
            old(self).wheat + rhs.wheat <= usize::MAX,
            old(self).vegetables + rhs.vegetables <= usize::MAX,
        ensures
            *final(self) == old(self).sum(rhs),
    {
        self.gold += rhs.gold;
        self.begging += rhs.begging;
        self.wood += rhs.wood;
        self.stone += rhs.stone;
        self.coal += rhs.coal;
        self.rubies += rhs.rubies;
        self.food += rhs.food;
        self.wheat += rhs.wheat;
        self.vegetables += rhs.vegetables;
    }
}

/// The goods and animals that laying a tile on outdoor cell `c` earns.
pub open spec fn outdoor_bonus_spec(c: (usize, usize), r: Resources, a: Seq<usize>) -> (Resources, Seq<usize>) {
    if c == (0usize, 2usize) || c == (2usize, 0usize) {
        (r, a.update(1, (a[1] + 1) as usize))
    } else if c == (1usize, 3usize) {
        (Resources { food: (r.food + 1) as usize, ..r }, a)
    } else {
        (r, a)
    }
}

/// The goods that laying a tile on indoor cell `c` earns.
pub open spec fn indoor_bonus_spec(c: (usize, usize), r: Resources) -> Resources {
    if c == (2usize, 0usize) {
        Resources { food: (r.food + 2) as usize, ..r }
    } else if c == (1usize, 3usize) {
        Resources { food: (r.food + 1) as usize, ..r }
    } else {
        r
    }
}

/// Adds the bonus of the outdoor cell `(x, y)`: a boar on two cells, a food on one.
pub fn apply_outdoor_location_bonus(
    pos: (usize, usize),
    resources: &mut Resources,
    animals: &mut Animals,
)
    requires
        (pos == (0usize, 2usize) || pos == (2usize, 0usize)) ==> old(animals)@[1] + 1 <= usize::MAX,
        pos == (1usize, 3usize) ==> old(resources).food + 1 <= usize::MAX,
    ensures
        (*final(resources), final(animals)@) == outdoor_bonus_spec(pos, *old(resources), old(animals)@),
{
    let (x, y) = pos;
    if (x == 0 && y == 2) || (x == 2 && y == 0) {
        animals[BOAR] = animals[BOAR] + 1;
    } else if x == 1 && y == 3 {
        resources.food = resources.food + 1;
    }
}

/// Adds the bonus of the indoor cell `(x, y)`: two food on one cell, one food on another.
pub fn apply_indoor_location_bonus(
    pos: (usize, usize),
    resources: &mut Resources,
    _animals: &mut Animals,
)
    requires
        pos == (2usize, 0usize) ==> old(resources).food + 2 <= usize::MAX,
        pos == (1usize, 3usize) ==> old(resources).food + 1 <= usize::MAX,
    ensures
        *final(resources) == indoor_bonus_spec(pos, *old(resources)),
        final(_animals)@ == old(_animals)@,
{
    let (x, y) = pos;
    if x == 2 && y == 0 {
        resources.food = resources.food + 2;
    } else if x == 1 && y == 3 {
        resources.food = resources.food + 1;
    }
}

} // verus!
